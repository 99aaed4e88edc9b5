use vstd::prelude::*;
use super::{
    agrees_on, batch_model, err_of, exec_state, explained_by, gate_all, gates_model, ids_of,
    lemma_agrees_everywhere, lemma_padded, padded, positions, run_batch, ExecState,
    PatternExecutor, Report, TaskRunner,
};
use crate::error::{ErrorView, OrchestratorResult};
use crate::governance::Governance;
use crate::hitl::HitlGovernor;
use crate::models::plan::with_plan_status;
use crate::models::task::specs_view;
use crate::models::{ExecutionPlan, PlanStatus, SubtaskSpec, SubtaskSpecView, SubtaskStatus};

verus! {

/// Runs all voters together; the plan fails when any voter does not
/// complete.
#[derive(Debug, Default, Clone, Copy)]
pub struct ConsensusExecutor;

/// Some report is not a completion.
pub open spec fn some_vote_against(outs: Seq<Report>) -> bool {
    exists|i: int|
        0 <= i < outs.len() && #[trigger] outs[i] != Ok::<SubtaskStatus, ErrorView>(
            SubtaskStatus::Completed,
        )
}

/// Consensus: one batch of all voters; when it succeeds but some voter did
/// not complete, the plan is marked failed.
pub open spec fn consensus_model(s: ExecState, subs: Seq<SubtaskSpecView>, outs: Seq<Report>) -> (
    ExecState,
    Option<ErrorView>,
) {
    let (s1, e) = batch_model(s, subs, outs);
    if e is None && some_vote_against(outs) {
        (ExecState { plan: with_plan_status(s1.plan, PlanStatus::Failed), ..s1 }, None)
    } else {
        (s1, e)
    }
}

/// The reports `outs` explain a consensus run: those at `used` came from
/// `runner` for those subtasks, and no other report matters.
pub open spec fn consensus_explained<R: TaskRunner + ?Sized>(
    runner: &R,
    s: ExecState,
    subs: Seq<SubtaskSpecView>,
    outs: Seq<Report>,
    used: Set<int>,
) -> bool {
    explained_by(runner, subs, outs, used, |o: Seq<Report>| consensus_model(s, subs, o))
}

impl ConsensusExecutor {
    /// Passes every voter's approval gate in order, hands all voters to
    /// `runner` as one batch, applies the reports in order, and marks the
    /// plan failed when some voter did not complete.
    pub fn run_with<R: TaskRunner + ?Sized>(
        &self,
        subtasks: &[SubtaskSpec],
        plan: &mut ExecutionPlan,
        runner: &R,
        hitl: &mut HitlGovernor,
        governance: &mut Governance,
    ) -> (r: OrchestratorResult<()>)
        ensures
            exists|outs: Seq<Report>, used: Set<int>|
                #[trigger] consensus_explained(
                    runner,
                    exec_state(*old(plan), *old(hitl), *old(governance)),
                    specs_view(subtasks@),
                    outs,
                    used,
                ) && (exec_state(*final(plan), *final(hitl), *final(governance)), err_of(r))
                    == consensus_model(
                    exec_state(*old(plan), *old(hitl), *old(governance)),
                    specs_view(subtasks@),
                    outs,
                ),
    {
        let ghost s0 = exec_state(*plan, *hitl, *governance);
        let ghost sv = specs_view(subtasks@);
        let n = subtasks.len();
        proof {
            assert(sv.take(n as int) =~= sv);
        }
        let passed = match gate_all(subtasks, n, plan, hitl, governance) {
            Ok(p) => p,
            Err(e) => {
                proof {
                    let full = padded(Seq::empty(), n as nat);
                    lemma_padded(Seq::empty(), n as nat);
                    assert(consensus_model(s0, sv, full).1 is Some);
                    let used = Set::<int>::empty();
                    assert forall|o2: Seq<Report>| #[trigger] agrees_on(o2, full, used) implies consensus_model(s0, sv, o2) == consensus_model(s0, sv, full) by {}
                    assert(consensus_explained(runner, s0, sv, full, used));
                }
                return Err(e);
            },
        };
        let ghost s1 = exec_state(*plan, *hitl, *governance);
        proof {
            assert(gates_model(s0, sv) == (s1, None::<ErrorView>));
        }
        let (res, Ghost(outs)) = run_batch(&passed, plan, runner, governance, Ghost(hitl.approval_map()));
        proof {
            assert(ids_of(specs_view(passed@)) == ids_of(sv));
            assert(batch_model(s0, sv, outs) == (exec_state(*plan, *hitl, *governance), err_of(res)));
            let used = positions(n as int);
            assert forall|o2: Seq<Report>| #[trigger] agrees_on(o2, outs, used) implies consensus_model(s0, sv, o2) == consensus_model(s0, sv, outs) by {
                lemma_agrees_everywhere(o2, outs);
            }
            assert forall|j: int| #[trigger] used.contains(j) implies 0 <= j < sv.len()
                && runner.may_report(sv[j], outs[j]) by {
                assert(sv[j] == specs_view(passed@)[j]);
            }
            assert(consensus_explained(runner, s0, sv, outs, used));
        }
        let statuses = match res {
            Ok(v) => v,
            Err(e) => {
                proof {
                    assert(consensus_model(s0, sv, outs) == (exec_state(*plan, *hitl, *governance), Some(e@)));
                }
                return Err(e);
            },
        };
        let ghost s2 = exec_state(*plan, *hitl, *governance);
        let mut any_failed = false;
        let mut i: usize = 0;
        while i < statuses.len()
            invariant
                i <= statuses@.len(),
                statuses@.len() == outs.len(),
                forall|j: int| 0 <= j < statuses@.len() ==> outs[j] == Ok::<SubtaskStatus, ErrorView>(#[trigger] statuses@[j]),
                any_failed == exists|j: int| 0 <= j < i && #[trigger] outs[j] != Ok::<SubtaskStatus, ErrorView>(SubtaskStatus::Completed),
            decreases statuses@.len() - i,
        {
            if statuses[i] != SubtaskStatus::Completed {
                any_failed = true;
            }
            i = i + 1;
        }
        proof {
            assert(any_failed == some_vote_against(outs));
        }
        if any_failed {
            plan.status = PlanStatus::Failed;
            proof {
                assert(plan@ =~= with_plan_status(s2.plan, PlanStatus::Failed));
            }
        }
        proof {
            assert(consensus_model(s0, sv, outs) == (exec_state(*plan, *hitl, *governance), None::<ErrorView>));
        }
        Ok(())
    }
}

impl PatternExecutor for ConsensusExecutor {
    fn execute(
        &self,
        subtasks: &[SubtaskSpec],
        plan: &mut ExecutionPlan,
        runner: &dyn TaskRunner,
        hitl: &mut HitlGovernor,
        governance: &mut Governance,
    ) -> (r: OrchestratorResult<()>)
        ensures
            exists|outs: Seq<Report>, used: Set<int>|
                #[trigger] consensus_explained(
                    runner,
                    exec_state(*old(plan), *old(hitl), *old(governance)),
                    specs_view(subtasks@),
                    outs,
                    used,
                ) && (exec_state(*final(plan), *final(hitl), *final(governance)), err_of(r))
                    == consensus_model(
                    exec_state(*old(plan), *old(hitl), *old(governance)),
                    specs_view(subtasks@),
                    outs,
                ),
    {
        self.run_with(subtasks, plan, runner, hitl, governance)
    }
}

/// When the batch of voters succeeds, a single report at any position that
/// is not a completion fails the plan and the run still succeeds; when every
/// report is a completion the plan is left as the batch left it.
pub proof fn law_consensus_fails_on_any_dissent(
    s: ExecState,
    subs: Seq<SubtaskSpecView>,
    outs: Seq<Report>,
    i: int,
)
    requires
        batch_model(s, subs, outs).1 is None,
        0 <= i < outs.len(),
        outs[i] != Ok::<SubtaskStatus, ErrorView>(SubtaskStatus::Completed),
    ensures
        consensus_model(s, subs, outs).0.plan.status == PlanStatus::Failed,
        consensus_model(s, subs, outs).1 is None,
{
}

/// When every report is a completion, consensus is the batch itself.
pub proof fn law_consensus_unanimous(s: ExecState, subs: Seq<SubtaskSpecView>, outs: Seq<Report>)
    requires
        forall|i: int| 0 <= i < outs.len() ==> #[trigger] outs[i] == Ok::<SubtaskStatus, ErrorView>(
            SubtaskStatus::Completed,
        ),
    ensures
        consensus_model(s, subs, outs) == batch_model(s, subs, outs),
{
}

} // verus!
