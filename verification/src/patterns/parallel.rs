use vstd::prelude::*;
use super::{
    agrees_on, batch_model, gates_model, err_of, exec_state, explained_by, gate_all, ids_of,
    lemma_agrees_everywhere, lemma_padded, padded, positions, run_batch, ExecState, PatternExecutor,
    Report, TaskRunner,
};
use crate::error::{ErrorView, OrchestratorResult};
use crate::governance::Governance;
use crate::hitl::HitlGovernor;
use crate::models::task::specs_view;
use crate::models::{ExecutionPlan, SubtaskSpec, SubtaskSpecView};

verus! {

/// Runs all subtasks together after every approval gate has passed.
#[derive(Debug, Default, Clone, Copy)]
pub struct ParallelExecutor;

/// Parallel execution: one batch of all subtasks.
pub open spec fn parallel_model(s: ExecState, subs: Seq<SubtaskSpecView>, outs: Seq<Report>) -> (
    ExecState,
    Option<ErrorView>,
) {
    batch_model(s, subs, outs)
}

/// The reports `outs` explain a parallel run: those at `used` came from
/// `runner` for those subtasks, and no other report matters.
pub open spec fn parallel_explained<R: TaskRunner + ?Sized>(
    runner: &R,
    s: ExecState,
    subs: Seq<SubtaskSpecView>,
    outs: Seq<Report>,
    used: Set<int>,
) -> bool {
    explained_by(runner, subs, outs, used, |o: Seq<Report>| parallel_model(s, subs, o))
}

impl ParallelExecutor {
    /// Passes every approval gate in order, then hands all subtasks to
    /// `runner` as one batch and applies the reports in subtask order.
    pub fn run_with<R: TaskRunner + ?Sized>(
        &self,
        subtasks: &[SubtaskSpec],
        plan: &mut ExecutionPlan,
        runner: &R,
        hitl: &mut HitlGovernor,
        governance: &mut Governance,
    ) -> (r: OrchestratorResult<()>)
        ensures
            exists|outs: Seq<Report>, used: Set<int>|
                #[trigger] parallel_explained(
                    runner,
                    exec_state(*old(plan), *old(hitl), *old(governance)),
                    specs_view(subtasks@),
                    outs,
                    used,
                ) && (exec_state(*final(plan), *final(hitl), *final(governance)), err_of(r))
                    == parallel_model(
                    exec_state(*old(plan), *old(hitl), *old(governance)),
                    specs_view(subtasks@),
                    outs,
                ),
    {
        let ghost s0 = exec_state(*plan, *hitl, *governance);
        let ghost sv = specs_view(subtasks@);
        let n = subtasks.len();
        proof {
            assert(sv.take(n as int) =~= sv);
        }
        let passed = match gate_all(subtasks, n, plan, hitl, governance) {
            Ok(p) => p,
            Err(e) => {
                proof {
                    let full = padded(Seq::empty(), n as nat);
                    lemma_padded(Seq::empty(), n as nat);
                    assert(parallel_model(s0, sv, full).1 is Some);
                    let used = Set::<int>::empty();
                    assert forall|o2: Seq<Report>| #[trigger] agrees_on(o2, full, used) implies parallel_model(s0, sv, o2) == parallel_model(s0, sv, full) by {}
                    assert(parallel_explained(runner, s0, sv, full, used));
                }
                return Err(e);
            },
        };
        let ghost s1 = exec_state(*plan, *hitl, *governance);
        proof {
            assert(gates_model(s0, sv) == (s1, None::<ErrorView>));
        }
        let (res, Ghost(outs)) = run_batch(&passed, plan, runner, governance, Ghost(hitl.approval_map()));
        proof {
            assert(ids_of(specs_view(passed@)) == ids_of(sv));
            assert(parallel_model(s0, sv, outs) == (exec_state(*plan, *hitl, *governance), err_of(res)));
            let used = positions(n as int);
            assert forall|o2: Seq<Report>| #[trigger] agrees_on(o2, outs, used) implies parallel_model(s0, sv, o2) == parallel_model(s0, sv, outs) by {
                lemma_agrees_everywhere(o2, outs);
            }
            assert forall|j: int| #[trigger] used.contains(j) implies 0 <= j < sv.len()
                && runner.may_report(sv[j], outs[j]) by {
                assert(sv[j] == specs_view(passed@)[j]);
            }
            assert(parallel_explained(runner, s0, sv, outs, used));
        }
        match res {
            Ok(_) => Ok(()),
            Err(e) => Err(e),
        }
    }
}

impl PatternExecutor for ParallelExecutor {
    fn execute(
        &self,
        subtasks: &[SubtaskSpec],
        plan: &mut ExecutionPlan,
        runner: &dyn TaskRunner,
        hitl: &mut HitlGovernor,
        governance: &mut Governance,
    ) -> (r: OrchestratorResult<()>)
        ensures
            exists|outs: Seq<Report>, used: Set<int>|
                #[trigger] parallel_explained(
                    runner,
                    exec_state(*old(plan), *old(hitl), *old(governance)),
                    specs_view(subtasks@),
                    outs,
                    used,
                ) && (exec_state(*final(plan), *final(hitl), *final(governance)), err_of(r))
                    == parallel_model(
                    exec_state(*old(plan), *old(hitl), *old(governance)),
                    specs_view(subtasks@),
                    outs,
                ),
    {
        self.run_with(subtasks, plan, runner, hitl, governance)
    }
}

} // verus!
