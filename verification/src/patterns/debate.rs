use vstd::prelude::*;
use super::map_reduce::{map_reduce_explained, run_map_then_last};
use super::{
    agrees_on, apply_outcome, approval_gate, err_of, exec_state, explained_by,
    lemma_agrees_everywhere, map_reduce_model, outcome_view, positions, step_model, ExecState,
    PatternExecutor, Report, TaskRunner,
};
use crate::error::{ErrorView, OrchestratorResult};
use crate::governance::Governance;
use crate::hitl::HitlGovernor;
use crate::models::task::specs_view;
use crate::models::{ExecutionPlan, SubtaskSpec, SubtaskSpecView};

verus! {

/// Runs the debaters (all but the last subtask) together, then the judge
/// (the last subtask); a single subtask is simply run.
#[derive(Debug, Default, Clone, Copy)]
pub struct DebateExecutor;

/// Debate: the debaters as one batch, then the judge on its own.  This is
/// the map-reduce shape, with the debaters as the map and the judge as the
/// reduce step.
pub open spec fn debate_model(s: ExecState, subs: Seq<SubtaskSpecView>, outs: Seq<Report>) -> (
    ExecState,
    Option<ErrorView>,
) {
    map_reduce_model(s, subs, outs)
}

/// The reports `outs` explain a debate: those at `used` came from
/// `runner` for those subtasks, and no other report matters.
pub open spec fn debate_explained<R: TaskRunner + ?Sized>(
    runner: &R,
    s: ExecState,
    subs: Seq<SubtaskSpecView>,
    outs: Seq<Report>,
    used: Set<int>,
) -> bool {
    explained_by(runner, subs, outs, used, |o: Seq<Report>| debate_model(s, subs, o))
}

impl DebateExecutor {
    /// Runs the debaters (all but the last subtask) as one batch through
    /// `runner`, then the judge (the last subtask); a single subtask is
    /// simply run.
    pub fn run_with<R: TaskRunner + ?Sized>(
        &self,
        subtasks: &[SubtaskSpec],
        plan: &mut ExecutionPlan,
        runner: &R,
        hitl: &mut HitlGovernor,
        governance: &mut Governance,
    ) -> (r: OrchestratorResult<()>)
        ensures
            exists|outs: Seq<Report>, used: Set<int>|
                #[trigger] debate_explained(
                    runner,
                    exec_state(*old(plan), *old(hitl), *old(governance)),
                    specs_view(subtasks@),
                    outs,
                    used,
                ) && (exec_state(*final(plan), *final(hitl), *final(governance)), err_of(r))
                    == debate_model(
                    exec_state(*old(plan), *old(hitl), *old(governance)),
                    specs_view(subtasks@),
                    outs,
                ),
    {
        let ghost s0 = exec_state(*plan, *hitl, *governance);
        let ghost sv = specs_view(subtasks@);
        if subtasks.len() <= 1 {
            if subtasks.len() == 1 {
                let sub = &subtasks[0];
                proof {
                    assert(sv.drop_last() =~= Seq::<SubtaskSpecView>::empty());
                    assert(sv.last() == sub@);
                }
                let g = approval_gate(sub, plan, hitl, governance);
                match g {
                    Err(e) => {
                        proof {
                            let o: Report = Err(e@);
                            assert(seq![o].drop_last() =~= Seq::<Report>::empty());
                            assert(debate_model(s0, sv, seq![o]) == step_model(s0, sub@, o));
                            let full = seq![o];
                            let used = Set::<int>::empty();
                            assert forall|o2: Seq<Report>| #[trigger] agrees_on(o2, full, used) implies debate_model(s0, sv, o2) == debate_model(s0, sv, full) by {
                                assert(o2.drop_last() =~= Seq::<Report>::empty());
                            }
                            assert(debate_explained(runner, s0, sv, full, used));
                        }
                        return Err(e);
                    },
                    Ok(()) => {},
                }
                let outcome = runner.run(sub);
                let ghost o = outcome_view(outcome);
                let r = apply_outcome(plan, governance, sub.id.as_str(), outcome);
                proof {
                    assert(seq![o].drop_last() =~= Seq::<Report>::empty());
                    assert(debate_model(s0, sv, seq![o]) == step_model(s0, sub@, o));
                    let full = seq![o];
                    let used = positions(1);
                    assert forall|o2: Seq<Report>| #[trigger] agrees_on(o2, full, used) implies debate_model(s0, sv, o2) == debate_model(s0, sv, full) by {
                        lemma_agrees_everywhere(o2, full);
                    }
                    assert forall|j: int| #[trigger] used.contains(j) implies 0 <= j < sv.len()
                        && runner.may_report(sv[j], full[j]) by {
                        assert(sv[j] == sub@);
                    }
                    assert(debate_explained(runner, s0, sv, full, used));
                }
                return match r {
                    Ok(_) => Ok(()),
                    Err(e) => Err(e),
                };
            }
            proof {
                assert(debate_model(s0, sv, Seq::empty()) == (s0, None::<ErrorView>));
                let full = Seq::<Report>::empty();
                let used = Set::<int>::empty();
                assert forall|o2: Seq<Report>| #[trigger] agrees_on(o2, full, used) implies debate_model(s0, sv, o2) == debate_model(s0, sv, full) by {}
                assert(debate_explained(runner, s0, sv, full, used));
            }
            return Ok(());
        }
        let r = run_map_then_last(subtasks, plan, runner, hitl, governance);
        proof {
            let (outs, used) = choose|outs: Seq<Report>, used: Set<int>|
                #[trigger] map_reduce_explained(runner, s0, sv, outs, used) && (
                    exec_state(*plan, *hitl, *governance),
                    err_of(r),
                ) == map_reduce_model(s0, sv, outs);
            assert(debate_model(s0, sv, outs) == map_reduce_model(s0, sv, outs));
            assert forall|o2: Seq<Report>| #[trigger] agrees_on(o2, outs, used) implies debate_model(s0, sv, o2) == debate_model(s0, sv, outs) by {
                assert(map_reduce_model(s0, sv, o2) == map_reduce_model(s0, sv, outs));
            }
            assert(debate_explained(runner, s0, sv, outs, used));
        }
        r
    }
}

impl PatternExecutor for DebateExecutor {
    fn execute(
        &self,
        subtasks: &[SubtaskSpec],
        plan: &mut ExecutionPlan,
        runner: &dyn TaskRunner,
        hitl: &mut HitlGovernor,
        governance: &mut Governance,
    ) -> (r: OrchestratorResult<()>)
        ensures
            exists|outs: Seq<Report>, used: Set<int>|
                #[trigger] debate_explained(
                    runner,
                    exec_state(*old(plan), *old(hitl), *old(governance)),
                    specs_view(subtasks@),
                    outs,
                    used,
                ) && (exec_state(*final(plan), *final(hitl), *final(governance)), err_of(r))
                    == debate_model(
                    exec_state(*old(plan), *old(hitl), *old(governance)),
                    specs_view(subtasks@),
                    outs,
                ),
    {
        self.run_with(subtasks, plan, runner, hitl, governance)
    }
}

} // verus!
