use vstd::prelude::*;
use super::{
    agrees_on, approval_gate, apply_outcome, err_of, exec_state, explained_by, flow_error,
    gate_model, lemma_agrees_everywhere, lemma_padded, outcome_view, padded, positions,
    step_model, ExecState, Flow, PatternExecutor, Report, TaskRunner,
};
use crate::error::{ErrorView, OrchestratorResult};
use crate::governance::Governance;
use crate::hitl::HitlGovernor;
use crate::models::task::specs_view;
use crate::models::{ExecutionPlan, SubtaskSpec, SubtaskSpecView, SubtaskStatus};

verus! {

/// Tries subtasks in order until one completes; the rest are not run.
#[derive(Debug, Default, Clone, Copy)]
pub struct RoutingExecutor;

/// Routing: subtasks in order through gate and runner; the first that
/// completes ends the run successfully, the first error ends it with that
/// error.
pub open spec fn routing_model(s: ExecState, subs: Seq<SubtaskSpecView>, outs: Seq<Report>) -> (
    ExecState,
    Flow,
)
    decreases subs.len(),
{
    if subs.len() == 0 {
        (s, Flow::Continue)
    } else {
        let (s1, f) = routing_model(s, subs.drop_last(), outs.drop_last());
        match f {
            Flow::Continue => {
                let (s2, e) = step_model(s1, subs.last(), outs.last());
                match e {
                    Some(x) => (s2, Flow::Fail(x)),
                    None => if outs.last() == Ok::<SubtaskStatus, ErrorView>(SubtaskStatus::Completed) {
                        (s2, Flow::Stop)
                    } else {
                        (s2, Flow::Continue)
                    },
                }
            },
            _ => (s1, f),
        }
    }
}

proof fn lemma_routing_stop(s: ExecState, subs: Seq<SubtaskSpecView>, outs: Seq<Report>, k: int)
    requires
        0 <= k <= subs.len(),
        outs.len() == subs.len(),
        !(routing_model(s, subs.take(k), outs.take(k)).1 is Continue),
    ensures
        routing_model(s, subs, outs) == routing_model(s, subs.take(k), outs.take(k)),
    decreases subs.len(),
{
    if subs.len() == k {
        assert(subs.take(k) =~= subs);
        assert(outs.take(k) =~= outs);
    } else {
        assert(subs.drop_last().take(k) =~= subs.take(k));
        assert(outs.drop_last().take(k) =~= outs.take(k));
        lemma_routing_stop(s, subs.drop_last(), outs.drop_last(), k);
    }
}

/// What a routing run gives: the state and the error it ends with, if any.
pub open spec fn routing_outcome(s: ExecState, subs: Seq<SubtaskSpecView>, outs: Seq<Report>) -> (
    ExecState,
    Option<ErrorView>,
) {
    let (s1, f) = routing_model(s, subs, outs);
    (s1, flow_error(f))
}

/// The reports `outs` explain a routing run: those at `used` came from
/// `runner` for those subtasks, and no other report matters.
pub open spec fn routing_explained<R: TaskRunner + ?Sized>(
    runner: &R,
    s: ExecState,
    subs: Seq<SubtaskSpecView>,
    outs: Seq<Report>,
    used: Set<int>,
) -> bool {
    explained_by(runner, subs, outs, used, |o: Seq<Report>| routing_outcome(s, subs, o))
}

/// Once the approval check of subtask `k` stops the run, reports from `k` on do not
/// matter.
proof fn lemma_routing_gate_stop(
    s: ExecState,
    subs: Seq<SubtaskSpecView>,
    o1: Seq<Report>,
    o2: Seq<Report>,
    k: int,
)
    requires
        0 <= k < subs.len(),
        o1.len() == subs.len(),
        o2.len() == subs.len(),
        o1.take(k) == o2.take(k),
        routing_model(s, subs.take(k), o1.take(k)).1 is Continue,
        gate_model(routing_model(s, subs.take(k), o1.take(k)).0, subs[k]).1 is Some,
    ensures
        routing_model(s, subs, o1) == routing_model(s, subs, o2),
{
    assert(subs.take(k + 1).drop_last() =~= subs.take(k));
    assert(o1.take(k + 1).drop_last() =~= o1.take(k));
    assert(o2.take(k + 1).drop_last() =~= o2.take(k));
    assert(subs.take(k + 1).last() == subs[k]);
    assert(routing_model(s, subs.take(k + 1), o1.take(k + 1)) == routing_model(
        s,
        subs.take(k + 1),
        o2.take(k + 1),
    ));
    lemma_routing_stop(s, subs, o1, k + 1);
    lemma_routing_stop(s, subs, o2, k + 1);
}

impl RoutingExecutor {
    /// Tries the subtasks in order through gate and `runner` until one
    /// completes; the first error ends the run.
    pub fn run_with<R: TaskRunner + ?Sized>(
        &self,
        subtasks: &[SubtaskSpec],
        plan: &mut ExecutionPlan,
        runner: &R,
        hitl: &mut HitlGovernor,
        governance: &mut Governance,
    ) -> (r: OrchestratorResult<()>)
        ensures
            exists|outs: Seq<Report>, used: Set<int>|
                #[trigger] routing_explained(
                    runner,
                    exec_state(*old(plan), *old(hitl), *old(governance)),
                    specs_view(subtasks@),
                    outs,
                    used,
                ) && (exec_state(*final(plan), *final(hitl), *final(governance)), err_of(r))
                    == routing_outcome(
                    exec_state(*old(plan), *old(hitl), *old(governance)),
                    specs_view(subtasks@),
                    outs,
                ),
    {
        let ghost s0 = exec_state(*plan, *hitl, *governance);
        let ghost sv = specs_view(subtasks@);
        let ghost mut outs: Seq<Report> = Seq::empty();
        let n = subtasks.len();
        let mut i: usize = 0;
        while i < n
            invariant
                n == subtasks@.len(),
                i <= n,
                sv == specs_view(subtasks@),
                s0 == exec_state(*old(plan), *old(hitl), *old(governance)),
                outs.len() == i,
                forall|j: int| 0 <= j < i ==> runner.may_report(sv[j], #[trigger] outs[j]),
                (exec_state(*plan, *hitl, *governance), Flow::Continue) == routing_model(
                    s0,
                    sv.take(i as int),
                    outs,
                ),
            decreases n - i,
        {
            let ghost before = exec_state(*plan, *hitl, *governance);
            let sub = &subtasks[i];
            let g = approval_gate(sub, plan, hitl, governance);
            match g {
                Err(e) => {
                    proof {
                        let o: Report = Err(e@);
                        let full = padded(outs.push(o), n as nat);
                        lemma_padded(outs.push(o), n as nat);
                        assert(sv.take(i as int + 1).drop_last() =~= sv.take(i as int));
                        assert(outs.push(o).drop_last() =~= outs);
                        assert(sv.take(i as int + 1) =~= sv.take(i as int + 1).take(i as int + 1));
                        lemma_routing_stop(s0, sv, full, i as int + 1);
                        let used = positions(i as int);
                        assert(full.take(i as int) =~= outs);
                        assert forall|o2: Seq<Report>| #[trigger] agrees_on(o2, full, used) implies routing_outcome(s0, sv, o2) == routing_outcome(s0, sv, full) by {
                            assert(o2.take(i as int) =~= full.take(i as int)) by {
                                assert forall|j: int| 0 <= j < i implies o2[j] == full[j] by {
                                    assert(used.contains(j));
                                }
                            }
                            assert(sv[i as int] == sub@);
                            lemma_routing_gate_stop(s0, sv, full, o2, i as int);
                        }
                        assert forall|j: int| #[trigger] used.contains(j) implies 0 <= j < sv.len()
                            && runner.may_report(sv[j], full[j]) by {
                            assert(full[j] == outs[j]);
                        }
                        assert(routing_explained(runner, s0, sv, full, used));
                    }
                    return Err(e);
                },
                Ok(()) => {},
            }
            let outcome = runner.run(sub);
            let ghost o = outcome_view(outcome);
            let r = apply_outcome(plan, governance, sub.id.as_str(), outcome);
            proof {
                assert(sv.take(i as int + 1).drop_last() =~= sv.take(i as int));
                assert(outs.push(o).drop_last() =~= outs);
                assert(sv.take(i as int + 1).last() == sub@);
                assert(sv[i as int] == sub@);
            }
            match r {
                Err(e) => {
                    proof {
                        let full = padded(outs.push(o), n as nat);
                        lemma_padded(outs.push(o), n as nat);
                        lemma_routing_stop(s0, sv, full, i as int + 1);
                            let used = positions(i as int + 1);
                            assert forall|o2: Seq<Report>| #[trigger] agrees_on(o2, full, used) implies routing_outcome(s0, sv, o2) == routing_outcome(s0, sv, full) by {
                                assert(o2.take(i as int + 1) =~= full.take(i as int + 1)) by {
                                    assert forall|j: int| 0 <= j < i + 1 implies o2[j] == full[j] by {
                                        assert(used.contains(j));
                                    }
                                }
                                lemma_routing_stop(s0, sv, o2, i as int + 1);
                            }
                            assert forall|j: int| #[trigger] used.contains(j) implies 0 <= j < sv.len()
                                && runner.may_report(sv[j], full[j]) by {
                                assert(full[j] == outs.push(o)[j]);
                            }
                            assert(routing_explained(runner, s0, sv, full, used));
                    }
                    return Err(e);
                },
                Ok(status) => {
                    if status == SubtaskStatus::Completed {
                        proof {
                            let full = padded(outs.push(o), n as nat);
                            lemma_padded(outs.push(o), n as nat);
                            lemma_routing_stop(s0, sv, full, i as int + 1);
                            let used = positions(i as int + 1);
                            assert forall|o2: Seq<Report>| #[trigger] agrees_on(o2, full, used) implies routing_outcome(s0, sv, o2) == routing_outcome(s0, sv, full) by {
                                assert(o2.take(i as int + 1) =~= full.take(i as int + 1)) by {
                                    assert forall|j: int| 0 <= j < i + 1 implies o2[j] == full[j] by {
                                        assert(used.contains(j));
                                    }
                                }
                                lemma_routing_stop(s0, sv, o2, i as int + 1);
                            }
                            assert forall|j: int| #[trigger] used.contains(j) implies 0 <= j < sv.len()
                                && runner.may_report(sv[j], full[j]) by {
                                assert(full[j] == outs.push(o)[j]);
                            }
                            assert(routing_explained(runner, s0, sv, full, used));
                        }
                        return Ok(());
                    }
                },
            }
            proof {
                outs = outs.push(o);
            }
            i = i + 1;
        }
        proof {
            assert(sv.take(n as int) =~= sv);
            let used = positions(n as int);
            assert forall|o2: Seq<Report>| #[trigger] agrees_on(o2, outs, used) implies routing_outcome(s0, sv, o2) == routing_outcome(s0, sv, outs) by {
                lemma_agrees_everywhere(o2, outs);
            }
            assert(routing_explained(runner, s0, sv, outs, used));
        }
        Ok(())
    }
}

impl PatternExecutor for RoutingExecutor {
    fn execute(
        &self,
        subtasks: &[SubtaskSpec],
        plan: &mut ExecutionPlan,
        runner: &dyn TaskRunner,
        hitl: &mut HitlGovernor,
        governance: &mut Governance,
    ) -> (r: OrchestratorResult<()>)
        ensures
            exists|outs: Seq<Report>, used: Set<int>|
                #[trigger] routing_explained(
                    runner,
                    exec_state(*old(plan), *old(hitl), *old(governance)),
                    specs_view(subtasks@),
                    outs,
                    used,
                ) && (exec_state(*final(plan), *final(hitl), *final(governance)), err_of(r))
                    == routing_outcome(
                    exec_state(*old(plan), *old(hitl), *old(governance)),
                    specs_view(subtasks@),
                    outs,
                ),
    {
        self.run_with(subtasks, plan, runner, hitl, governance)
    }
}

/// Routing keeps the plan's id.
pub proof fn lemma_routing_keeps_plan_id(s: ExecState, subs: Seq<SubtaskSpecView>, outs: Seq<Report>)
    ensures
        routing_model(s, subs, outs).0.plan.id == s.plan.id,
    decreases subs.len(),
{
    if subs.len() > 0 {
        lemma_routing_keeps_plan_id(s, subs.drop_last(), outs.drop_last());
    }
}

} // verus!
