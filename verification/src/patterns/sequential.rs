use vstd::prelude::*;
use super::{
    agrees_on, approval_gate, apply_outcome, err_of, exec_state, explained_by, gate_model,
    lemma_agrees_everywhere, lemma_padded, outcome_view, padded, positions, step_model, ExecState,
    PatternExecutor, Report, TaskRunner,
};
use crate::error::{ErrorView, OrchestratorResult};
use crate::governance::Governance;
use crate::hitl::HitlGovernor;
use crate::models::task::specs_view;
use crate::models::{ExecutionPlan, SubtaskSpec, SubtaskSpecView, SubtaskStatus};

verus! {

/// Runs each subtask in order, each after its approval gate, stopping at the
/// first gate or report that ends the run.
#[derive(Debug, Default, Clone, Copy)]
pub struct SequentialExecutor;

/// Sequential execution: every subtask in order through its gate and its
/// runner report; the first error ends the run.
pub open spec fn sequential_model(s: ExecState, subs: Seq<SubtaskSpecView>, outs: Seq<Report>) -> (
    ExecState,
    Option<ErrorView>,
)
    decreases subs.len(),
{
    if subs.len() == 0 {
        (s, None)
    } else {
        let (s1, e) = sequential_model(s, subs.drop_last(), outs.drop_last());
        if e is Some {
            (s1, e)
        } else {
            step_model(s1, subs.last(), outs.last())
        }
    }
}

proof fn lemma_sequential_stop(s: ExecState, subs: Seq<SubtaskSpecView>, outs: Seq<Report>, k: int)
    requires
        0 <= k <= subs.len(),
        outs.len() == subs.len(),
        sequential_model(s, subs.take(k), outs.take(k)).1 is Some,
    ensures
        sequential_model(s, subs, outs) == sequential_model(s, subs.take(k), outs.take(k)),
    decreases subs.len(),
{
    if subs.len() == k {
        assert(subs.take(k) =~= subs);
        assert(outs.take(k) =~= outs);
    } else {
        assert(subs.drop_last().take(k) =~= subs.take(k));
        assert(outs.drop_last().take(k) =~= outs.take(k));
        lemma_sequential_stop(s, subs.drop_last(), outs.drop_last(), k);
    }
}

/// The reports `outs` explain a sequential run: those at `used` came from
/// `runner` for those subtasks, and no other report matters.
pub open spec fn sequential_explained<R: TaskRunner + ?Sized>(
    runner: &R,
    s: ExecState,
    subs: Seq<SubtaskSpecView>,
    outs: Seq<Report>,
    used: Set<int>,
) -> bool {
    explained_by(runner, subs, outs, used, |o: Seq<Report>| sequential_model(s, subs, o))
}

/// Once the approval check of subtask `k` stops the run, reports from `k` on do not
/// matter.
proof fn lemma_sequential_gate_stop(
    s: ExecState,
    subs: Seq<SubtaskSpecView>,
    o1: Seq<Report>,
    o2: Seq<Report>,
    k: int,
)
    requires
        0 <= k < subs.len(),
        o1.len() == subs.len(),
        o2.len() == subs.len(),
        o1.take(k) == o2.take(k),
        sequential_model(s, subs.take(k), o1.take(k)).1 is None,
        gate_model(sequential_model(s, subs.take(k), o1.take(k)).0, subs[k]).1 is Some,
    ensures
        sequential_model(s, subs, o1) == sequential_model(s, subs, o2),
{
    assert(subs.take(k + 1).drop_last() =~= subs.take(k));
    assert(o1.take(k + 1).drop_last() =~= o1.take(k));
    assert(o2.take(k + 1).drop_last() =~= o2.take(k));
    assert(subs.take(k + 1).last() == subs[k]);
    assert(sequential_model(s, subs.take(k + 1), o1.take(k + 1)) == sequential_model(
        s,
        subs.take(k + 1),
        o2.take(k + 1),
    ));
    lemma_sequential_stop(s, subs, o1, k + 1);
    lemma_sequential_stop(s, subs, o2, k + 1);
}

/// Once the reports up to `k` stop the run, later reports do not matter.
proof fn lemma_sequential_report_stop(
    s: ExecState,
    subs: Seq<SubtaskSpecView>,
    o1: Seq<Report>,
    o2: Seq<Report>,
    k: int,
)
    requires
        0 <= k <= subs.len(),
        o1.len() == subs.len(),
        o2.len() == subs.len(),
        o1.take(k) == o2.take(k),
        sequential_model(s, subs.take(k), o1.take(k)).1 is Some,
    ensures
        sequential_model(s, subs, o1) == sequential_model(s, subs, o2),
{
    lemma_sequential_stop(s, subs, o1, k);
    lemma_sequential_stop(s, subs, o2, k);
}

impl SequentialExecutor {
    /// Runs `subtasks` in order with `runner`: each subtask passes its
    /// approval gate, is handed to the runner, and its report is applied;
    /// the first gate or report that ends the run stops it.
    pub fn run_with<R: TaskRunner + ?Sized>(
        &self,
        subtasks: &[SubtaskSpec],
        plan: &mut ExecutionPlan,
        runner: &R,
        hitl: &mut HitlGovernor,
        governance: &mut Governance,
    ) -> (r: OrchestratorResult<()>)
        ensures
            exists|outs: Seq<Report>, used: Set<int>|
                #[trigger] sequential_explained(
                    runner,
                    exec_state(*old(plan), *old(hitl), *old(governance)),
                    specs_view(subtasks@),
                    outs,
                    used,
                ) && (exec_state(*final(plan), *final(hitl), *final(governance)), err_of(r))
                    == sequential_model(
                    exec_state(*old(plan), *old(hitl), *old(governance)),
                    specs_view(subtasks@),
                    outs,
                ),
    {
        let ghost s0 = exec_state(*plan, *hitl, *governance);
        let ghost sv = specs_view(subtasks@);
        let ghost mut outs: Seq<Report> = Seq::empty();
        let n = subtasks.len();
        let mut i: usize = 0;
        while i < n
            invariant
                n == subtasks@.len(),
                i <= n,
                sv == specs_view(subtasks@),
                s0 == exec_state(*old(plan), *old(hitl), *old(governance)),
                outs.len() == i,
                forall|j: int| 0 <= j < i ==> runner.may_report(sv[j], #[trigger] outs[j]),
                (exec_state(*plan, *hitl, *governance), None::<ErrorView>) == sequential_model(
                    s0,
                    sv.take(i as int),
                    outs,
                ),
            decreases n - i,
        {
            let ghost before = exec_state(*plan, *hitl, *governance);
            let sub = &subtasks[i];
            let g = approval_gate(sub, plan, hitl, governance);
            match g {
                Err(e) => {
                    proof {
                        let o: Report = Err(e@);
                        let full = padded(outs.push(o), n as nat);
                        lemma_padded(outs.push(o), n as nat);
                        assert(sv.take(i as int + 1).drop_last() =~= sv.take(i as int));
                        assert(outs.push(o).drop_last() =~= outs);
                        assert(sequential_model(s0, sv.take(i as int + 1), outs.push(o)).1 is Some);
                        assert(sv.take(i as int + 1) =~= sv.take(i as int + 1).take(i as int + 1));
                        lemma_sequential_stop(s0, sv, full, i as int + 1);
                        assert(sequential_model(s0, sv, full) == sequential_model(s0, sv.take(i as int + 1), outs.push(o)));
                        let used = positions(i as int);
                        assert(full.take(i as int) =~= outs);
                        assert forall|o2: Seq<Report>| #[trigger] agrees_on(o2, full, used) implies sequential_model(s0, sv, o2) == sequential_model(s0, sv, full) by {
                            assert(o2.take(i as int) =~= full.take(i as int)) by {
                                assert forall|j: int| 0 <= j < i implies o2[j] == full[j] by {
                                    assert(used.contains(j));
                                }
                            }
                            assert(sv[i as int] == sub@);
                            lemma_sequential_gate_stop(s0, sv, full, o2, i as int);
                        }
                        assert forall|j: int| #[trigger] used.contains(j) implies 0 <= j < sv.len()
                            && runner.may_report(sv[j], full[j]) by {
                            assert(full[j] == outs[j]);
                        }
                        assert(sequential_explained(runner, s0, sv, full, used));
                    }
                    return Err(e);
                },
                Ok(()) => {},
            }
            let outcome = runner.run(sub);
            let ghost o = outcome_view(outcome);
            let r = apply_outcome(plan, governance, sub.id.as_str(), outcome);
            proof {
                assert(sv.take(i as int + 1).drop_last() =~= sv.take(i as int));
                assert(outs.push(o).drop_last() =~= outs);
                assert(sv.take(i as int + 1).last() == sub@);
                assert(sequential_model(s0, sv.take(i as int + 1), outs.push(o)) == step_model(before, sub@, o));
                assert(sv[i as int] == sub@);
            }
            match r {
                Err(e) => {
                    proof {
                        let full = padded(outs.push(o), n as nat);
                        lemma_padded(outs.push(o), n as nat);
                        lemma_sequential_stop(s0, sv, full, i as int + 1);
                        let used = positions(i as int + 1);
                        assert forall|o2: Seq<Report>| #[trigger] agrees_on(o2, full, used) implies sequential_model(s0, sv, o2) == sequential_model(s0, sv, full) by {
                            assert(o2.take(i as int + 1) =~= full.take(i as int + 1)) by {
                                assert forall|j: int| 0 <= j < i + 1 implies o2[j] == full[j] by {
                                    assert(used.contains(j));
                                }
                            }
                            lemma_sequential_report_stop(s0, sv, full, o2, i as int + 1);
                        }
                        assert forall|j: int| #[trigger] used.contains(j) implies 0 <= j < sv.len()
                            && runner.may_report(sv[j], full[j]) by {
                            assert(full[j] == outs.push(o)[j]);
                        }
                        assert(sequential_explained(runner, s0, sv, full, used));
                    }
                    return Err(e);
                },
                Ok(_) => {},
            }
            proof {
                outs = outs.push(o);
            }
            i = i + 1;
        }
        proof {
            assert(sv.take(n as int) =~= sv);
            let used = positions(n as int);
            assert forall|o2: Seq<Report>| #[trigger] agrees_on(o2, outs, used) implies sequential_model(s0, sv, o2) == sequential_model(s0, sv, outs) by {
                lemma_agrees_everywhere(o2, outs);
            }
            assert forall|j: int| #[trigger] used.contains(j) implies 0 <= j < sv.len()
                && runner.may_report(sv[j], outs[j]) by {
            }
            assert(sequential_explained(runner, s0, sv, outs, used));
        }
        Ok(())
    }
}

impl PatternExecutor for SequentialExecutor {
    fn execute(
        &self,
        subtasks: &[SubtaskSpec],
        plan: &mut ExecutionPlan,
        runner: &dyn TaskRunner,
        hitl: &mut HitlGovernor,
        governance: &mut Governance,
    ) -> (r: OrchestratorResult<()>)
        ensures
            exists|outs: Seq<Report>, used: Set<int>|
                #[trigger] sequential_explained(
                    runner,
                    exec_state(*old(plan), *old(hitl), *old(governance)),
                    specs_view(subtasks@),
                    outs,
                    used,
                ) && (exec_state(*final(plan), *final(hitl), *final(governance)), err_of(r))
                    == sequential_model(
                    exec_state(*old(plan), *old(hitl), *old(governance)),
                    specs_view(subtasks@),
                    outs,
                ),
    {
        self.run_with(subtasks, plan, runner, hitl, governance)
    }
}

/// Sequential execution keeps the plan's id.
pub proof fn lemma_sequential_keeps_plan_id(s: ExecState, subs: Seq<SubtaskSpecView>, outs: Seq<Report>)
    ensures
        sequential_model(s, subs, outs).0.plan.id == s.plan.id,
    decreases subs.len(),
{
    if subs.len() > 0 {
        lemma_sequential_keeps_plan_id(s, subs.drop_last(), outs.drop_last());
    }
}

} // verus!
