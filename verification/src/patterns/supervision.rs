use vstd::prelude::*;
use super::{
    agrees_on, apply_outcome, approval_gate, err_of, exec_state, explained_by, flow_error,
    gate_model, lemma_padded, outcome_view, padded, positions, step_model, ExecState, Flow,
    PatternExecutor, Report, TaskRunner,
};
use crate::error::{ErrorView, OrchestratorResult};
use crate::governance::{subtask_completed, Governance};
use crate::hitl::HitlGovernor;
use crate::models::plan::with_node_status;
use crate::models::task::specs_view;
use crate::models::{ExecutionPlan, SubtaskSpec, SubtaskSpecView, SubtaskStatus};

verus! {

/// Runs workers in order; when one does not complete, the supervisor (the
/// last subtask, when there are at least two) is run once and the run ends.
#[derive(Debug, Default, Clone, Copy)]
pub struct SupervisionExecutor;

/// One worker: its gate and its report.  Its status is set on its node.  A
/// completed worker is recorded and the run goes on; otherwise the
/// supervisor, if any, runs once through its gate and report, and the run
/// ends.
pub open spec fn worker_step(
    s: ExecState,
    w: SubtaskSpecView,
    sup: Option<SubtaskSpecView>,
    o: Report,
    so: Report,
) -> (ExecState, Flow) {
    let (s1, g) = gate_model(s, w);
    match g {
        Some(e) => (s1, Flow::Fail(e)),
        None => match o {
            Err(e) => (s1, Flow::Fail(e)),
            Ok(st) => {
                let s2 = ExecState { plan: with_node_status(s1.plan, w.id, st), ..s1 };
                if st != SubtaskStatus::Completed {
                    match sup {
                        Some(v) => {
                            let (s3, e3) = step_model(s2, v, so);
                            match e3 {
                                Some(x) => (s3, Flow::Fail(x)),
                                None => (s3, Flow::Stop),
                            }
                        },
                        None => (s2, Flow::Stop),
                    }
                } else {
                    (
                        ExecState { gov: subtask_completed(s2.gov, s2.plan.id, w.id), ..s2 },
                        Flow::Continue,
                    )
                }
            },
        },
    }
}

/// The workers in order, each through `worker_step`, until one ends the run.
pub open spec fn supervise(
    s: ExecState,
    workers: Seq<SubtaskSpecView>,
    sup: Option<SubtaskSpecView>,
    outs: Seq<Report>,
    so: Report,
) -> (ExecState, Flow)
    decreases workers.len(),
{
    if workers.len() == 0 {
        (s, Flow::Continue)
    } else {
        let (s1, f) = supervise(s, workers.drop_last(), sup, outs.drop_last(), so);
        match f {
            Flow::Continue => worker_step(s1, workers.last(), sup, outs.last(), so),
            _ => (s1, f),
        }
    }
}

/// The number of workers among `n` subtasks: all but the last when there
/// are at least two, otherwise all.
pub open spec fn worker_count(n: nat) -> nat {
    if n > 1 {
        (n - 1) as nat
    } else {
        n
    }
}

/// Supervision: with at least two subtasks the last is the supervisor and
/// the others are workers; otherwise every subtask is a worker and there is
/// no supervisor.  `outs` are the workers' reports, `so` the supervisor's.
pub open spec fn supervision_model(
    s: ExecState,
    subs: Seq<SubtaskSpecView>,
    outs: Seq<Report>,
    so: Report,
) -> (ExecState, Flow) {
    if subs.len() > 1 {
        supervise(s, subs.drop_last(), Some(subs.last()), outs, so)
    } else {
        supervise(s, subs, None, outs, so)
    }
}

proof fn lemma_supervise_stop(
    s: ExecState,
    workers: Seq<SubtaskSpecView>,
    sup: Option<SubtaskSpecView>,
    outs: Seq<Report>,
    so: Report,
    k: int,
)
    requires
        0 <= k <= workers.len(),
        outs.len() == workers.len(),
        !(supervise(s, workers.take(k), sup, outs.take(k), so).1 is Continue),
    ensures
        supervise(s, workers, sup, outs, so) == supervise(s, workers.take(k), sup, outs.take(k), so),
    decreases workers.len(),
{
    if workers.len() == k {
        assert(workers.take(k) =~= workers);
        assert(outs.take(k) =~= outs);
    } else {
        assert(workers.drop_last().take(k) =~= workers.take(k));
        assert(outs.drop_last().take(k) =~= outs.take(k));
        lemma_supervise_stop(s, workers.drop_last(), sup, outs.drop_last(), so, k);
    }
}

/// A report that no step reads.
pub open spec fn unread_report() -> Report {
    Err(ErrorView::Internal(Seq::empty()))
}

/// The workers' reports among the reports of all `n` subtasks.
pub open spec fn worker_reports(n: nat, outs: Seq<Report>) -> Seq<Report> {
    if n > 1 {
        outs.drop_last()
    } else {
        outs
    }
}

/// The supervisor's report among the reports of all `n` subtasks: the last
/// one when there is a supervisor.
pub open spec fn supervisor_report(n: nat, outs: Seq<Report>) -> Report {
    if n > 1 {
        outs.last()
    } else {
        unread_report()
    }
}

/// What a supervision run gives, with one report per subtask (the
/// supervisor's last): the state and the error it ends with, if any.
pub open spec fn supervision_outcome(s: ExecState, subs: Seq<SubtaskSpecView>, outs: Seq<Report>) -> (
    ExecState,
    Option<ErrorView>,
) {
    let (s1, f) = supervision_model(
        s,
        subs,
        worker_reports(subs.len(), outs),
        supervisor_report(subs.len(), outs),
    );
    (s1, flow_error(f))
}

/// The reports `outs` explain a supervision run: those at `used` came from
/// `runner` for those subtasks, and no other report matters.
pub open spec fn supervision_explained<R: TaskRunner + ?Sized>(
    runner: &R,
    s: ExecState,
    subs: Seq<SubtaskSpecView>,
    outs: Seq<Report>,
    used: Set<int>,
) -> bool {
    explained_by(runner, subs, outs, used, |o: Seq<Report>| supervision_outcome(s, subs, o))
}

/// When worker `i` ends the run in the same way for two report lists that
/// agree before it, the whole run is the same for both.
proof fn lemma_supervise_same(
    s: ExecState,
    workers: Seq<SubtaskSpecView>,
    sup: Option<SubtaskSpecView>,
    a: Seq<Report>,
    b: Seq<Report>,
    x: Report,
    y: Report,
    i: int,
)
    requires
        0 <= i < workers.len(),
        a.len() == workers.len(),
        b.len() == workers.len(),
        a.take(i) == b.take(i),
        supervise(s, workers.take(i), sup, a.take(i), x).1 is Continue,
        worker_step(supervise(s, workers.take(i), sup, a.take(i), x).0, workers[i], sup, a[i], x)
            == worker_step(supervise(s, workers.take(i), sup, a.take(i), x).0, workers[i], sup, b[i], y),
        !(worker_step(supervise(s, workers.take(i), sup, a.take(i), x).0, workers[i], sup, a[i], x).1 is Continue),
    ensures
        supervise(s, workers, sup, a, x) == supervise(s, workers, sup, b, y),
{
    lemma_supervise_independent(s, workers.take(i), sup, a.take(i), y, x);
    assert(workers.take(i + 1).drop_last() =~= workers.take(i));
    assert(a.take(i + 1).drop_last() =~= a.take(i));
    assert(b.take(i + 1).drop_last() =~= b.take(i));
    assert(workers.take(i + 1).last() == workers[i]);
    assert(a.take(i + 1).last() == a[i]);
    assert(b.take(i + 1).last() == b[i]);
    assert(supervise(s, workers.take(i + 1), sup, a.take(i + 1), x) == supervise(
        s,
        workers.take(i + 1),
        sup,
        b.take(i + 1),
        y,
    ));
    lemma_supervise_stop(s, workers, sup, a, x, i + 1);
    lemma_supervise_stop(s, workers, sup, b, y, i + 1);
}

impl SupervisionExecutor {
    /// Runs the workers in order through gate and `runner`; when one does
    /// not complete, the supervisor (the last subtask, when there are at
    /// least two) is run once and the run ends.
    pub fn run_with<R: TaskRunner + ?Sized>(
        &self,
        subtasks: &[SubtaskSpec],
        plan: &mut ExecutionPlan,
        runner: &R,
        hitl: &mut HitlGovernor,
        governance: &mut Governance,
    ) -> (r: OrchestratorResult<()>)
        ensures
            exists|outs: Seq<Report>, used: Set<int>|
                #[trigger] supervision_explained(
                    runner,
                    exec_state(*old(plan), *old(hitl), *old(governance)),
                    specs_view(subtasks@),
                    outs,
                    used,
                ) && (exec_state(*final(plan), *final(hitl), *final(governance)), err_of(r))
                    == supervision_outcome(
                    exec_state(*old(plan), *old(hitl), *old(governance)),
                    specs_view(subtasks@),
                    outs,
                ),
    {
        let ghost s0 = exec_state(*plan, *hitl, *governance);
        let ghost sv = specs_view(subtasks@);
        let ghost filler: Report = unread_report();
        let n = subtasks.len();
        if n == 0 {
            proof {
                let full = Seq::<Report>::empty();
                let used = Set::<int>::empty();
                assert(supervision_model(s0, sv, Seq::empty(), filler) == (s0, Flow::Continue));
                assert forall|o2: Seq<Report>| #[trigger] agrees_on(o2, full, used) implies supervision_outcome(s0, sv, o2) == supervision_outcome(s0, sv, full) by {
                    assert(o2 =~= full);
                }
                assert(supervision_explained(runner, s0, sv, full, used));
            }
            return Ok(());
        }
        let has_supervisor = n > 1;
        let workers_end = if has_supervisor {
            n - 1
        } else {
            n
        };
        let ghost workers = sv.take(workers_end as int);
        let ghost sup: Option<SubtaskSpecView> = if has_supervisor {
            Some(sv.last())
        } else {
            None
        };
        proof {
            if has_supervisor {
                assert(workers =~= sv.drop_last());
            } else {
                assert(workers =~= sv);
            }
            assert(forall|outs: Seq<Report>, so: Report|
                #[trigger] supervision_model(s0, sv, outs, so) == supervise(s0, workers, sup, outs, so));
        }
        let ghost mut outs: Seq<Report> = Seq::empty();
        let mut i: usize = 0;
        while i < workers_end
            invariant
                n == subtasks@.len(),
                n > 0,
                workers_end <= n,
                workers == sv.take(workers_end as int),
                sv == specs_view(subtasks@),
                i <= workers_end,
                s0 == exec_state(*old(plan), *old(hitl), *old(governance)),
                filler == unread_report(),
                has_supervisor == (n > 1),
                has_supervisor ==> workers_end == n - 1 && sup == Some(sv.last()),
                !has_supervisor ==> workers_end == n && sup is None,
                forall|outs: Seq<Report>, so: Report|
                    #[trigger] supervision_model(s0, sv, outs, so) == supervise(s0, workers, sup, outs, so),
                outs.len() == i,
                forall|j: int| 0 <= j < i ==> runner.may_report(sv[j], #[trigger] outs[j]),
                (exec_state(*plan, *hitl, *governance), Flow::Continue) == supervise(
                    s0,
                    workers.take(i as int),
                    sup,
                    outs,
                    filler,
                ),
            decreases workers_end - i,
        {
            let ghost before = exec_state(*plan, *hitl, *governance);
            let sub = &subtasks[i];
            proof {
                assert(workers.take(i as int + 1).drop_last() =~= workers.take(i as int));
                assert(workers.take(i as int + 1).last() == sub@);
                assert(workers[i as int] == sub@);
                assert(sv[i as int] == sub@);
            }
            let g = approval_gate(sub, plan, hitl, governance);
            match g {
                Err(e) => {
                    proof {
                        let o: Report = Err(e@);
                        let fullw = padded(outs.push(o), workers_end as nat);
                        lemma_padded(outs.push(o), workers_end as nat);
                        assert(outs.push(o).drop_last() =~= outs);
                        assert(workers.take(i as int + 1) =~= workers.take(i as int + 1).take(i as int + 1));
                        lemma_supervise_stop(s0, workers, sup, fullw, filler, i as int + 1);
                        assert(supervision_model(s0, sv, fullw, filler).0 == exec_state(*plan, *hitl, *governance));
                        let full = if has_supervisor { fullw.push(filler) } else { fullw };
                        assert(worker_reports(n as nat, full) =~= fullw);
                        assert(supervisor_report(n as nat, full) == filler);
                        let used = positions(i as int);
                        assert(fullw.take(i as int) =~= outs);
                        assert forall|o2: Seq<Report>| #[trigger] agrees_on(o2, full, used) implies supervision_outcome(s0, sv, o2) == supervision_outcome(s0, sv, full) by {
                            let w2 = worker_reports(n as nat, o2);
                            assert(w2.take(i as int) =~= outs) by {
                                assert forall|j: int| 0 <= j < i implies w2[j] == outs[j] by {
                                    assert(used.contains(j));
                                    assert(full[j] == fullw[j]);
                                }
                            }
                            lemma_supervise_same(s0, workers, sup, fullw, w2, filler, supervisor_report(n as nat, o2), i as int);
                        }
                        assert forall|j: int| #[trigger] used.contains(j) implies 0 <= j < sv.len()
                            && runner.may_report(sv[j], full[j]) by {
                            assert(full[j] == fullw[j]);
                            assert(fullw[j] == outs[j]);
                        }
                        assert(supervision_explained(runner, s0, sv, full, used));
                    }
                    return Err(e);
                },
                Ok(()) => {},
            }
            let ghost after_gate = exec_state(*plan, *hitl, *governance);
            let outcome = runner.run(sub);
            let ghost o = outcome_view(outcome);
            proof {
                assert(outs.push(o).drop_last() =~= outs);
            }
            let outcome = match outcome {
                Ok(x) => x,
                Err(e) => {
                    proof {
                        let fullw = padded(outs.push(o), workers_end as nat);
                        lemma_padded(outs.push(o), workers_end as nat);
                        lemma_supervise_stop(s0, workers, sup, fullw, filler, i as int + 1);
                        assert(supervision_model(s0, sv, fullw, filler).0 == exec_state(*plan, *hitl, *governance));
                        let full = if has_supervisor { fullw.push(filler) } else { fullw };
                        assert(worker_reports(n as nat, full) =~= fullw);
                        assert(supervisor_report(n as nat, full) == filler);
                        let used = positions(i as int + 1);
                        assert(fullw.take(i as int) =~= outs);
                        assert(fullw[i as int] == o);
                        assert forall|o2: Seq<Report>| #[trigger] agrees_on(o2, full, used) implies supervision_outcome(s0, sv, o2) == supervision_outcome(s0, sv, full) by {
                            let w2 = worker_reports(n as nat, o2);
                            assert(w2.take(i as int) =~= outs) by {
                                assert forall|j: int| 0 <= j < i implies w2[j] == outs[j] by {
                                    assert(used.contains(j));
                                    assert(full[j] == fullw[j]);
                                }
                            }
                            assert(used.contains(i as int));
                            assert(full[i as int] == fullw[i as int]);
                            assert(w2[i as int] == o);
                            lemma_supervise_same(s0, workers, sup, fullw, w2, filler, supervisor_report(n as nat, o2), i as int);
                        }
                        assert forall|j: int| #[trigger] used.contains(j) implies 0 <= j < sv.len()
                            && runner.may_report(sv[j], full[j]) by {
                            assert(full[j] == fullw[j]);
                            assert(fullw[j] == outs.push(o)[j]);
                        }
                        assert(supervision_explained(runner, s0, sv, full, used));
                    }
                    return Err(e);
                },
            };
            let status = outcome.status;
            plan.set_status(sub.id.as_str(), status);
            if status != SubtaskStatus::Completed {
                if has_supervisor {
                    let supervisor = &subtasks[n - 1];
                    proof {
                        assert(sv[n - 1] == supervisor@);
                    }
                    let ghost s2 = exec_state(*plan, *hitl, *governance);
                    let sg = approval_gate(supervisor, plan, hitl, governance);
                    match sg {
                        Err(e) => {
                            proof {
                                let so: Report = Err(e@);
                                let fullw = padded(outs.push(o), workers_end as nat);
                                lemma_padded(outs.push(o), workers_end as nat);
                                assert(step_model(s2, supervisor@, so).0 == exec_state(*plan, *hitl, *governance));
                                lemma_supervise_independent(s0, workers.take(i as int), sup, outs, so, filler);
                                lemma_supervise_stop(s0, workers, sup, fullw, so, i as int + 1);
                                assert(supervision_model(s0, sv, fullw, so).0 == exec_state(*plan, *hitl, *governance));
                                let full = fullw.push(so);
                                assert(worker_reports(n as nat, full) =~= fullw);
                                assert(supervisor_report(n as nat, full) == so);
                                let used = positions(i as int + 1);
                                assert(fullw.take(i as int) =~= outs);
                                assert(fullw[i as int] == o);
                                assert forall|o2: Seq<Report>| #[trigger] agrees_on(o2, full, used) implies supervision_outcome(s0, sv, o2) == supervision_outcome(s0, sv, full) by {
                                    let w2 = worker_reports(n as nat, o2);
                                    assert(w2.take(i as int) =~= outs) by {
                                        assert forall|j: int| 0 <= j < i implies w2[j] == outs[j] by {
                                            assert(used.contains(j));
                                            assert(full[j] == fullw[j]);
                                        }
                                    }
                                    assert(used.contains(i as int));
                                    assert(full[i as int] == fullw[i as int]);
                                    assert(w2[i as int] == o);
                                    lemma_supervise_independent(s0, workers.take(i as int), sup, outs, filler, so);
                                    lemma_supervise_same(s0, workers, sup, fullw, w2, so, supervisor_report(n as nat, o2), i as int);
                                }
                                assert forall|j: int| #[trigger] used.contains(j) implies 0 <= j < sv.len()
                                    && runner.may_report(sv[j], full[j]) by {
                                    assert(full[j] == fullw[j]);
                                    assert(fullw[j] == outs.push(o)[j]);
                                }
                                assert(supervision_explained(runner, s0, sv, full, used));
                            }
                            return Err(e);
                        },
                        Ok(()) => {},
                    }
                    let sup_outcome = runner.run(supervisor);
                    let ghost so = outcome_view(sup_outcome);
                    let sr = apply_outcome(plan, governance, supervisor.id.as_str(), sup_outcome);
                    proof {
                        let fullw = padded(outs.push(o), workers_end as nat);
                        lemma_padded(outs.push(o), workers_end as nat);
                        assert(step_model(s2, supervisor@, so).0 == exec_state(*plan, *hitl, *governance));
                        lemma_supervise_independent(s0, workers.take(i as int), sup, outs, so, filler);
                        lemma_supervise_stop(s0, workers, sup, fullw, so, i as int + 1);
                        assert(supervision_model(s0, sv, fullw, so).0 == exec_state(*plan, *hitl, *governance));
                        let full = fullw.push(so);
                        assert(worker_reports(n as nat, full) =~= fullw);
                        assert(supervisor_report(n as nat, full) == so);
                        let used = positions(i as int + 1).insert(n - 1);
                        assert(fullw.take(i as int) =~= outs);
                        assert(fullw[i as int] == o);
                        assert forall|o2: Seq<Report>| #[trigger] agrees_on(o2, full, used) implies supervision_outcome(s0, sv, o2) == supervision_outcome(s0, sv, full) by {
                            let w2 = worker_reports(n as nat, o2);
                            assert(w2.take(i as int) =~= outs) by {
                                assert forall|j: int| 0 <= j < i implies w2[j] == outs[j] by {
                                    assert(used.contains(j));
                                    assert(full[j] == fullw[j]);
                                }
                            }
                            assert(used.contains(i as int));
                            assert(full[i as int] == fullw[i as int]);
                            assert(w2[i as int] == o);
                            assert(used.contains(n - 1));
                            assert(supervisor_report(n as nat, o2) == so);
                            lemma_supervise_independent(s0, workers.take(i as int), sup, outs, filler, so);
                            lemma_supervise_same(s0, workers, sup, fullw, w2, so, so, i as int);
                        }
                        assert forall|j: int| #[trigger] used.contains(j) implies 0 <= j < sv.len()
                            && runner.may_report(sv[j], full[j]) by {
                            if j < n - 1 {
                                assert(full[j] == fullw[j]);
                                assert(fullw[j] == outs.push(o)[j]);
                            }
                        }
                        assert(supervision_explained(runner, s0, sv, full, used));
                    }
                    return match sr {
                        Ok(_) => Ok(()),
                        Err(e) => Err(e),
                    };
                }
                proof {
                    let fullw = padded(outs.push(o), workers_end as nat);
                    lemma_padded(outs.push(o), workers_end as nat);
                    lemma_supervise_stop(s0, workers, sup, fullw, filler, i as int + 1);
                    assert(supervision_model(s0, sv, fullw, filler).0 == exec_state(*plan, *hitl, *governance));
                    let full = fullw;
                    assert(worker_reports(n as nat, full) =~= fullw);
                    let used = positions(i as int + 1);
                    assert(fullw.take(i as int) =~= outs);
                    assert(fullw[i as int] == o);
                    assert forall|o2: Seq<Report>| #[trigger] agrees_on(o2, full, used) implies supervision_outcome(s0, sv, o2) == supervision_outcome(s0, sv, full) by {
                        let w2 = worker_reports(n as nat, o2);
                        assert(w2.take(i as int) =~= outs) by {
                            assert forall|j: int| 0 <= j < i implies w2[j] == outs[j] by {
                                assert(used.contains(j));
                            }
                        }
                        assert(used.contains(i as int));
                        assert(w2[i as int] == o);
                        lemma_supervise_same(s0, workers, sup, fullw, w2, filler, supervisor_report(n as nat, o2), i as int);
                    }
                    assert forall|j: int| #[trigger] used.contains(j) implies 0 <= j < sv.len()
                        && runner.may_report(sv[j], full[j]) by {
                        assert(fullw[j] == outs.push(o)[j]);
                    }
                    assert(supervision_explained(runner, s0, sv, full, used));
                }
                return Ok(());
            }
            governance.record_success(sub.id.as_str());
            governance.record_subtask_completed(plan.id.as_str(), sub.id.as_str());
            proof {
                outs = outs.push(o);
            }
            i = i + 1;
        }
        proof {
            assert(workers.take(workers_end as int) =~= workers);
            assert(supervision_model(s0, sv, outs, filler).0 == exec_state(*plan, *hitl, *governance));
            let full = if has_supervisor { outs.push(filler) } else { outs };
            assert(worker_reports(n as nat, full) =~= outs);
            assert(supervisor_report(n as nat, full) == filler);
            let used = positions(workers_end as int);
            assert forall|o2: Seq<Report>| #[trigger] agrees_on(o2, full, used) implies supervision_outcome(s0, sv, o2) == supervision_outcome(s0, sv, full) by {
                let w2 = worker_reports(n as nat, o2);
                assert(w2 =~= outs) by {
                    assert forall|j: int| 0 <= j < workers_end implies w2[j] == outs[j] by {
                        assert(used.contains(j));
                        assert(full[j] == outs[j]);
                    }
                }
                lemma_supervise_independent(s0, workers, sup, outs, supervisor_report(n as nat, o2), filler);
            }
            assert forall|j: int| #[trigger] used.contains(j) implies 0 <= j < sv.len()
                && runner.may_report(sv[j], full[j]) by {
                assert(full[j] == outs[j]);
            }
            assert(supervision_explained(runner, s0, sv, full, used));
        }
        Ok(())
    }
}

impl PatternExecutor for SupervisionExecutor {
    fn execute(
        &self,
        subtasks: &[SubtaskSpec],
        plan: &mut ExecutionPlan,
        runner: &dyn TaskRunner,
        hitl: &mut HitlGovernor,
        governance: &mut Governance,
    ) -> (r: OrchestratorResult<()>)
        ensures
            exists|outs: Seq<Report>, used: Set<int>|
                #[trigger] supervision_explained(
                    runner,
                    exec_state(*old(plan), *old(hitl), *old(governance)),
                    specs_view(subtasks@),
                    outs,
                    used,
                ) && (exec_state(*final(plan), *final(hitl), *final(governance)), err_of(r))
                    == supervision_outcome(
                    exec_state(*old(plan), *old(hitl), *old(governance)),
                    specs_view(subtasks@),
                    outs,
                ),
    {
        self.run_with(subtasks, plan, runner, hitl, governance)
    }
}

/// While no worker has ended the run, the supervisor's report is not read.
proof fn lemma_supervise_independent(
    s: ExecState,
    workers: Seq<SubtaskSpecView>,
    sup: Option<SubtaskSpecView>,
    outs: Seq<Report>,
    so1: Report,
    so2: Report,
)
    requires
        supervise(s, workers, sup, outs, so2).1 is Continue,
    ensures
        supervise(s, workers, sup, outs, so1) == supervise(s, workers, sup, outs, so2),
    decreases workers.len(),
{
    if workers.len() > 0 {
        let (s1, f) = supervise(s, workers.drop_last(), sup, outs.drop_last(), so2);
        if f is Continue {
            lemma_supervise_independent(s, workers.drop_last(), sup, outs.drop_last(), so1, so2);
        } else {
            assert(false);
        }
    }
}

/// Supervision keeps the plan's id.
pub proof fn lemma_supervise_keeps_plan_id(
    s: ExecState,
    workers: Seq<SubtaskSpecView>,
    sup: Option<SubtaskSpecView>,
    outs: Seq<Report>,
    so: Report,
)
    ensures
        supervise(s, workers, sup, outs, so).0.plan.id == s.plan.id,
    decreases workers.len(),
{
    if workers.len() > 0 {
        lemma_supervise_keeps_plan_id(s, workers.drop_last(), sup, outs.drop_last(), so);
    }
}

} // verus!
