use vstd::prelude::*;
use super::{
    agrees_on, apply_outcome, approval_gate, batch_model, err_of, exec_state, explained_by,
    gate_all, gates_model, ids_of, lemma_agrees_everywhere, lemma_padded, outcome_view, padded,
    positions, run_batch, step_model, ExecState, PatternExecutor, Report, TaskRunner,
};
use crate::error::{ErrorView, OrchestratorResult};
use crate::governance::Governance;
use crate::hitl::HitlGovernor;
use crate::models::task::specs_view;
use crate::models::{ExecutionPlan, SubtaskSpec, SubtaskSpecView};

verus! {

/// Runs all but the last subtask together as the map step, then the last
/// one as the reduce step.
#[derive(Debug, Default, Clone, Copy)]
pub struct MapReduceExecutor;

/// Map-reduce: nothing for no subtasks; otherwise a batch of all but the
/// last subtask, then the last one on its own.
pub open spec fn map_reduce_model(s: ExecState, subs: Seq<SubtaskSpecView>, outs: Seq<Report>) -> (
    ExecState,
    Option<ErrorView>,
) {
    if subs.len() == 0 {
        (s, None)
    } else {
        let (s1, e) = batch_model(s, subs.drop_last(), outs.drop_last());
        if e is Some {
            (s1, e)
        } else {
            step_model(s1, subs.last(), outs.last())
        }
    }
}

/// The reports `outs` explain a map-reduce run: those at `used` came from
/// `runner` for those subtasks, and no other report matters.
pub open spec fn map_reduce_explained<R: TaskRunner + ?Sized>(
    runner: &R,
    s: ExecState,
    subs: Seq<SubtaskSpecView>,
    outs: Seq<Report>,
    used: Set<int>,
) -> bool {
    explained_by(runner, subs, outs, used, |o: Seq<Report>| map_reduce_model(s, subs, o))
}

/// Runs the batch of the first `n - 1` subtasks, then the last one.
pub(crate) fn run_map_then_last<R: TaskRunner + ?Sized>(
    subtasks: &[SubtaskSpec],
    plan: &mut ExecutionPlan,
    runner: &R,
    hitl: &mut HitlGovernor,
    governance: &mut Governance,
) -> (r: OrchestratorResult<()>)
    requires
        subtasks@.len() > 0,
    ensures
        exists|outs: Seq<Report>, used: Set<int>|
            #[trigger] map_reduce_explained(
                runner,
                exec_state(*old(plan), *old(hitl), *old(governance)),
                specs_view(subtasks@),
                outs,
                used,
            ) && (exec_state(*final(plan), *final(hitl), *final(governance)), err_of(r))
                == map_reduce_model(
                exec_state(*old(plan), *old(hitl), *old(governance)),
                specs_view(subtasks@),
                outs,
            ),
{
    let ghost s0 = exec_state(*plan, *hitl, *governance);
    let ghost sv = specs_view(subtasks@);
    let n = subtasks.len();
    let last = n - 1;
    proof {
        assert(sv.take(last as int) =~= sv.drop_last());
    }
    let passed = match gate_all(subtasks, last, plan, hitl, governance) {
        Ok(p) => p,
        Err(e) => {
            proof {
                let full = padded(Seq::empty(), n as nat);
                lemma_padded(Seq::empty(), n as nat);
                assert(map_reduce_model(s0, sv, full).1 is Some);
                let used = Set::<int>::empty();
                assert forall|o2: Seq<Report>| #[trigger] agrees_on(o2, full, used) implies map_reduce_model(s0, sv, o2) == map_reduce_model(s0, sv, full) by {}
                assert(map_reduce_explained(runner, s0, sv, full, used));
            }
            return Err(e);
        },
    };
    let ghost s1 = exec_state(*plan, *hitl, *governance);
    proof {
        assert(gates_model(s0, sv.drop_last()) == (s1, None::<ErrorView>));
    }
    let (res, Ghost(outs)) = run_batch(&passed, plan, runner, governance, Ghost(hitl.approval_map()));
    proof {
        assert(ids_of(specs_view(passed@)) == ids_of(sv.drop_last()));
        assert(batch_model(s0, sv.drop_last(), outs) == (exec_state(*plan, *hitl, *governance), err_of(res)));
        assert forall|j: int| 0 <= j < last implies runner.may_report(sv[j], #[trigger] outs[j]) by {
            assert(sv[j] == specs_view(passed@)[j]);
        }
    }
    match res {
        Ok(_) => {},
        Err(e) => {
            proof {
                let full = padded(outs, n as nat);
                lemma_padded(outs, n as nat);
                assert(full.drop_last() =~= outs);
                assert(map_reduce_model(s0, sv, full) == (exec_state(*plan, *hitl, *governance), Some(e@)));
                let used = positions(last as int);
                assert forall|o2: Seq<Report>| #[trigger] agrees_on(o2, full, used) implies map_reduce_model(s0, sv, o2) == map_reduce_model(s0, sv, full) by {
                    assert(o2.drop_last() =~= outs) by {
                        assert forall|j: int| 0 <= j < last implies o2[j] == full[j] by {
                            assert(used.contains(j));
                        }
                    }
                }
                assert forall|j: int| #[trigger] used.contains(j) implies 0 <= j < sv.len()
                    && runner.may_report(sv[j], full[j]) by {
                    assert(full[j] == outs[j]);
                }
                assert(map_reduce_explained(runner, s0, sv, full, used));
            }
            return Err(e);
        },
    }
    let ghost s2 = exec_state(*plan, *hitl, *governance);
    let reduce = &subtasks[last];
    let g = approval_gate(reduce, plan, hitl, governance);
    match g {
        Err(e) => {
            proof {
                let o: Report = Err(e@);
                assert(outs.push(o).drop_last() =~= outs);
                assert(map_reduce_model(s0, sv, outs.push(o)) == step_model(s2, reduce@, o));
                let full = outs.push(o);
                let used = positions(last as int);
                assert forall|o2: Seq<Report>| #[trigger] agrees_on(o2, full, used) implies map_reduce_model(s0, sv, o2) == map_reduce_model(s0, sv, full) by {
                    assert(o2.drop_last() =~= outs) by {
                        assert forall|j: int| 0 <= j < last implies o2[j] == full[j] by {
                            assert(used.contains(j));
                        }
                    }
                }
                assert forall|j: int| #[trigger] used.contains(j) implies 0 <= j < sv.len()
                    && runner.may_report(sv[j], full[j]) by {
                    assert(full[j] == outs[j]);
                }
                assert(map_reduce_explained(runner, s0, sv, full, used));
            }
            return Err(e);
        },
        Ok(()) => {},
    }
    let outcome = runner.run(reduce);
    let ghost o = outcome_view(outcome);
    let r = apply_outcome(plan, governance, reduce.id.as_str(), outcome);
    proof {
        assert(outs.push(o).drop_last() =~= outs);
        assert(map_reduce_model(s0, sv, outs.push(o)) == step_model(s2, reduce@, o));
        let full = outs.push(o);
        let used = positions(n as int);
        assert forall|o2: Seq<Report>| #[trigger] agrees_on(o2, full, used) implies map_reduce_model(s0, sv, o2) == map_reduce_model(s0, sv, full) by {
            lemma_agrees_everywhere(o2, full);
        }
        assert forall|j: int| #[trigger] used.contains(j) implies 0 <= j < sv.len()
            && runner.may_report(sv[j], full[j]) by {
            if j < last {
                assert(full[j] == outs[j]);
            } else {
                assert(sv[j] == reduce@);
            }
        }
        assert(map_reduce_explained(runner, s0, sv, full, used));
    }
    match r {
        Ok(_) => Ok(()),
        Err(e) => Err(e),
    }
}

impl MapReduceExecutor {
    /// Runs the map step (all but the last subtask) as one batch through
    /// `runner`, then the reduce step (the last subtask).
    pub fn run_with<R: TaskRunner + ?Sized>(
        &self,
        subtasks: &[SubtaskSpec],
        plan: &mut ExecutionPlan,
        runner: &R,
        hitl: &mut HitlGovernor,
        governance: &mut Governance,
    ) -> (r: OrchestratorResult<()>)
        ensures
            exists|outs: Seq<Report>, used: Set<int>|
                #[trigger] map_reduce_explained(
                    runner,
                    exec_state(*old(plan), *old(hitl), *old(governance)),
                    specs_view(subtasks@),
                    outs,
                    used,
                ) && (exec_state(*final(plan), *final(hitl), *final(governance)), err_of(r))
                    == map_reduce_model(
                    exec_state(*old(plan), *old(hitl), *old(governance)),
                    specs_view(subtasks@),
                    outs,
                ),
    {
        if subtasks.len() == 0 {
            proof {
                let s0 = exec_state(*plan, *hitl, *governance);
                let sv = specs_view(subtasks@);
                let used = Set::<int>::empty();
                let full = Seq::<Report>::empty();
                assert(map_reduce_model(s0, sv, full).1 is None);
                assert forall|o2: Seq<Report>| #[trigger] agrees_on(o2, full, used) implies map_reduce_model(s0, sv, o2) == map_reduce_model(s0, sv, full) by {}
                assert(map_reduce_explained(runner, s0, sv, full, used));
            }
            return Ok(());
        }
        run_map_then_last(subtasks, plan, runner, hitl, governance)
    }
}

impl PatternExecutor for MapReduceExecutor {
    fn execute(
        &self,
        subtasks: &[SubtaskSpec],
        plan: &mut ExecutionPlan,
        runner: &dyn TaskRunner,
        hitl: &mut HitlGovernor,
        governance: &mut Governance,
    ) -> (r: OrchestratorResult<()>)
        ensures
            exists|outs: Seq<Report>, used: Set<int>|
                #[trigger] map_reduce_explained(
                    runner,
                    exec_state(*old(plan), *old(hitl), *old(governance)),
                    specs_view(subtasks@),
                    outs,
                    used,
                ) && (exec_state(*final(plan), *final(hitl), *final(governance)), err_of(r))
                    == map_reduce_model(
                    exec_state(*old(plan), *old(hitl), *old(governance)),
                    specs_view(subtasks@),
                    outs,
                ),
    {
        self.run_with(subtasks, plan, runner, hitl, governance)
    }
}

} // verus!
