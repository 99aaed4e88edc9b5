//! Coordination patterns: how the subtasks of a plan are run, gated by
//! human approval and recorded by governance.

mod consensus;
pub use consensus::{consensus_model, ConsensusExecutor};
mod debate;
pub use debate::{debate_model, DebateExecutor};
mod map_reduce;
pub use map_reduce::{map_reduce_model, MapReduceExecutor};
mod parallel;
pub use parallel::{parallel_model, ParallelExecutor};
mod routing;
pub use routing::{routing_model, routing_outcome, RoutingExecutor};
mod sequential;
pub use sequential::{sequential_model, SequentialExecutor};
mod supervision;
pub use supervision::{supervision_model, supervision_outcome, worker_count, SupervisionExecutor};

use vstd::prelude::*;
use crate::error::{ErrorView, OrchestratorError, OrchestratorResult};
use crate::governance::{
    approval_requested, subtask_completed, subtask_failed, subtask_started, GovView, Governance,
};
use crate::hitl::{approval_key, request_outcome, resume_allowed, HitlGovernor};
use crate::models::plan::with_node_status;
use crate::models::task::specs_view;
use crate::models::{
    ApprovalStatus, ApprovalView, ExecutionPlan, PlanView, SubtaskSpec, SubtaskSpecView,
    SubtaskStatus,
};
use crate::text::{concat2, concat3};

verus! {

/// The ways the subtasks of a plan can be coordinated.
#[derive(Debug, Clone, Copy, PartialEq, Eq, Structural)]
#[non_exhaustive]
pub enum CoordinationPattern {
    Sequential,
    Parallel,
    MapReduce,
    Routing,
    Supervision,
    Debate,
    Consensus,
}

/// The stable name of a pattern.
pub open spec fn pattern_name(p: CoordinationPattern) -> Seq<char> {
    match p {
        CoordinationPattern::Sequential => "sequential"@,
        CoordinationPattern::Parallel => "parallel"@,
        CoordinationPattern::MapReduce => "map_reduce"@,
        CoordinationPattern::Routing => "routing"@,
        CoordinationPattern::Supervision => "supervision"@,
        CoordinationPattern::Debate => "debate"@,
        CoordinationPattern::Consensus => "consensus"@,
    }
}

impl CoordinationPattern {
    pub fn name(self) -> (r: &'static str)
        ensures
            r@ == pattern_name(self),
    {
        match self {
            CoordinationPattern::Sequential => "sequential",
            CoordinationPattern::Parallel => "parallel",
            CoordinationPattern::MapReduce => "map_reduce",
            CoordinationPattern::Routing => "routing",
            CoordinationPattern::Supervision => "supervision",
            CoordinationPattern::Debate => "debate",
            CoordinationPattern::Consensus => "consensus",
        }
    }
}

/// What a runner reports for one subtask.
#[derive(Debug)]
pub struct SubtaskOutcome {
    pub status: SubtaskStatus,
    pub output: Option<String>,
}

/// Runs subtasks; supplied by the user of the orchestrator.
pub trait TaskRunner: Send + Sync {
    /// The reports the runner may give for a subtask (unless a runner says
    /// otherwise, any).  Executors hand each subtask they run to `run` and
    /// apply exactly what comes back, so their contracts speak of the
    /// reports through this relation.
    open spec fn may_report(&self, subtask: SubtaskSpecView, report: Report) -> bool {
        true
    }

    /// Runs one subtask.
    fn run(&self, subtask: &SubtaskSpec) -> (r: OrchestratorResult<SubtaskOutcome>)
        ensures
            self.may_report(subtask@, outcome_view(r)),
    ;
}

/// Runs the subtasks of a plan in some coordination pattern.
pub trait PatternExecutor: Send + Sync {
    fn execute(
        &self,
        subtasks: &[SubtaskSpec],
        plan: &mut ExecutionPlan,
        runner: &dyn TaskRunner,
        hitl: &mut HitlGovernor,
        governance: &mut Governance,
    ) -> OrchestratorResult<()>;
}

/// A subtask waits for approval.
pub fn is_waiting(status: &SubtaskStatus) -> (r: bool)
    ensures
        r == (*status == SubtaskStatus::WaitingApproval),
{
    match status {
        SubtaskStatus::WaitingApproval => true,
        _ => false,
    }
}

/// Whether `subtask` may run: it may when it has no approval request or
/// its request is approved.
pub fn maybe_resume(subtask: &SubtaskSpec, hitl: &HitlGovernor) -> (r: OrchestratorResult<bool>)
    ensures
        r == Ok::<bool, OrchestratorError>(resume_allowed(hitl.approval_map(), subtask@.id)),
{
    let key = concat2("appr-", subtask.id.as_str());
    match hitl.get(key.as_str())? {
        Some(existing) => Ok(existing.status == ApprovalStatus::Approved),
        None => Ok(true),
    }
}

/// The executor for a pattern.
pub fn make_executor(pattern: CoordinationPattern) -> Box<dyn PatternExecutor> {
    match pattern {
        CoordinationPattern::Sequential => Box::new(SequentialExecutor),
        CoordinationPattern::Parallel => Box::new(ParallelExecutor),
        CoordinationPattern::MapReduce => Box::new(MapReduceExecutor),
        CoordinationPattern::Routing => Box::new(RoutingExecutor),
        CoordinationPattern::Supervision => Box::new(SupervisionExecutor),
        CoordinationPattern::Debate => Box::new(DebateExecutor),
        CoordinationPattern::Consensus => Box::new(ConsensusExecutor),
    }
}

/// What running `subs` in pattern `p` does, given the runner's reports
/// `outs`, one per subtask in order (for supervision, the supervisor's
/// report is the last).
pub open spec fn pattern_model(
    p: CoordinationPattern,
    s: ExecState,
    subs: Seq<SubtaskSpecView>,
    outs: Seq<Report>,
) -> (ExecState, Option<ErrorView>) {
    match p {
        CoordinationPattern::Sequential => sequential_model(s, subs, outs),
        CoordinationPattern::Parallel => parallel_model(s, subs, outs),
        CoordinationPattern::MapReduce => map_reduce_model(s, subs, outs),
        CoordinationPattern::Routing => routing_outcome(s, subs, outs),
        CoordinationPattern::Supervision => supervision_outcome(s, subs, outs),
        CoordinationPattern::Debate => debate_model(s, subs, outs),
        CoordinationPattern::Consensus => consensus_model(s, subs, outs),
    }
}

/// The reports `outs` explain a run in pattern `p`: those at `used` came
/// from `runner` for those subtasks, and no other report matters.
pub open spec fn pattern_explained<R: TaskRunner + ?Sized>(
    runner: &R,
    p: CoordinationPattern,
    s: ExecState,
    subs: Seq<SubtaskSpecView>,
    outs: Seq<Report>,
    used: Set<int>,
) -> bool {
    explained_by(runner, subs, outs, used, |o: Seq<Report>| pattern_model(p, s, subs, o))
}

/// A run is fixed by the runner: when the runner can give only the report
/// `reps[i]` for subtask `i`, a run explained by its reports ends exactly
/// as the pattern does with the reports `reps`.
pub proof fn law_outcome_follows_runner<R: TaskRunner + ?Sized>(
    runner: &R,
    p: CoordinationPattern,
    s: ExecState,
    subs: Seq<SubtaskSpecView>,
    outs: Seq<Report>,
    used: Set<int>,
    reps: Seq<Report>,
)
    requires
        pattern_explained(runner, p, s, subs, outs, used),
        reps.len() == subs.len(),
        forall|i: int, r: Report|
            0 <= i < subs.len() && #[trigger] runner.may_report(subs[i], r) ==> r == reps[i],
    ensures
        pattern_model(p, s, subs, outs) == pattern_model(p, s, subs, reps),
{
    assert(agrees_on(reps, outs, used));
}

/// A run explained by a pattern's own model, which is what the pattern does,
/// is explained as a run of the pattern.
proof fn lemma_run_as_pattern<R: TaskRunner + ?Sized>(
    runner: &R,
    p: CoordinationPattern,
    s: ExecState,
    subs: Seq<SubtaskSpecView>,
    f: spec_fn(Seq<Report>) -> (ExecState, Option<ErrorView>),
    end: (ExecState, Option<ErrorView>),
)
    requires
        exists|outs: Seq<Report>, used: Set<int>|
            #[trigger] explained_by(runner, subs, outs, used, f) && end == f(outs),
        forall|o: Seq<Report>| #[trigger] f(o) == pattern_model(p, s, subs, o),
    ensures
        exists|outs: Seq<Report>, used: Set<int>|
            #[trigger] pattern_explained(runner, p, s, subs, outs, used) && end == pattern_model(
                p,
                s,
                subs,
                outs,
            ),
{
    let (outs, used) = choose|outs: Seq<Report>, used: Set<int>|
        #[trigger] explained_by(runner, subs, outs, used, f) && end == f(outs);
    assert forall|o2: Seq<Report>| #[trigger] agrees_on(o2, outs, used) implies pattern_model(
        p,
        s,
        subs,
        o2,
    ) == pattern_model(p, s, subs, outs) by {
        assert(f(o2) == f(outs));
    }
    assert(pattern_explained(runner, p, s, subs, outs, used));
}

/// Runs `subtasks` with the executor of `pattern`; each subtask that runs
/// is handed to `runner`, and its report is what the run applies.
pub fn execute_pattern(
    pattern: CoordinationPattern,
    subtasks: &[SubtaskSpec],
    plan: &mut ExecutionPlan,
    runner: &dyn TaskRunner,
    hitl: &mut HitlGovernor,
    governance: &mut Governance,
) -> (r: OrchestratorResult<()>)
    ensures
        exists|outs: Seq<Report>, used: Set<int>|
            #[trigger] pattern_explained(
                runner,
                pattern,
                exec_state(*old(plan), *old(hitl), *old(governance)),
                specs_view(subtasks@),
                outs,
                used,
            ) && (exec_state(*final(plan), *final(hitl), *final(governance)), err_of(r))
                == pattern_model(
                pattern,
                exec_state(*old(plan), *old(hitl), *old(governance)),
                specs_view(subtasks@),
                outs,
            ),
{
    run_pattern(pattern, subtasks, plan, runner, hitl, governance)
}

/// `execute_pattern` for any runner type.
pub(crate) fn run_pattern<R: TaskRunner + ?Sized>(
    pattern: CoordinationPattern,
    subtasks: &[SubtaskSpec],
    plan: &mut ExecutionPlan,
    runner: &R,
    hitl: &mut HitlGovernor,
    governance: &mut Governance,
) -> (r: OrchestratorResult<()>)
    ensures
        exists|outs: Seq<Report>, used: Set<int>|
            #[trigger] pattern_explained(
                runner,
                pattern,
                exec_state(*old(plan), *old(hitl), *old(governance)),
                specs_view(subtasks@),
                outs,
                used,
            ) && (exec_state(*final(plan), *final(hitl), *final(governance)), err_of(r))
                == pattern_model(
                pattern,
                exec_state(*old(plan), *old(hitl), *old(governance)),
                specs_view(subtasks@),
                outs,
            ),
{
    let ghost s0 = exec_state(*plan, *hitl, *governance);
    let ghost sv = specs_view(subtasks@);
    let r = match pattern {
        CoordinationPattern::Sequential => {
            let r = SequentialExecutor.run_with(subtasks, plan, runner, hitl, governance);
            proof {
                lemma_run_as_pattern(
                    runner,
                    pattern,
                    s0,
                    sv,
                    |o: Seq<Report>| sequential_model(s0, sv, o),
                    (exec_state(*plan, *hitl, *governance), err_of(r)),
                );
            }
            r
        },
        CoordinationPattern::Parallel => {
            let r = ParallelExecutor.run_with(subtasks, plan, runner, hitl, governance);
            proof {
                lemma_run_as_pattern(
                    runner,
                    pattern,
                    s0,
                    sv,
                    |o: Seq<Report>| parallel_model(s0, sv, o),
                    (exec_state(*plan, *hitl, *governance), err_of(r)),
                );
            }
            r
        },
        CoordinationPattern::MapReduce => {
            let r = MapReduceExecutor.run_with(subtasks, plan, runner, hitl, governance);
            proof {
                lemma_run_as_pattern(
                    runner,
                    pattern,
                    s0,
                    sv,
                    |o: Seq<Report>| map_reduce_model(s0, sv, o),
                    (exec_state(*plan, *hitl, *governance), err_of(r)),
                );
            }
            r
        },
        CoordinationPattern::Routing => {
            let r = RoutingExecutor.run_with(subtasks, plan, runner, hitl, governance);
            proof {
                lemma_run_as_pattern(
                    runner,
                    pattern,
                    s0,
                    sv,
                    |o: Seq<Report>| routing_outcome(s0, sv, o),
                    (exec_state(*plan, *hitl, *governance), err_of(r)),
                );
            }
            r
        },
        CoordinationPattern::Supervision => {
            let r = SupervisionExecutor.run_with(subtasks, plan, runner, hitl, governance);
            proof {
                lemma_run_as_pattern(
                    runner,
                    pattern,
                    s0,
                    sv,
                    |o: Seq<Report>| supervision_outcome(s0, sv, o),
                    (exec_state(*plan, *hitl, *governance), err_of(r)),
                );
            }
            r
        },
        CoordinationPattern::Debate => {
            let r = DebateExecutor.run_with(subtasks, plan, runner, hitl, governance);
            proof {
                lemma_run_as_pattern(
                    runner,
                    pattern,
                    s0,
                    sv,
                    |o: Seq<Report>| debate_model(s0, sv, o),
                    (exec_state(*plan, *hitl, *governance), err_of(r)),
                );
            }
            r
        },
        CoordinationPattern::Consensus => {
            let r = ConsensusExecutor.run_with(subtasks, plan, runner, hitl, governance);
            proof {
                lemma_run_as_pattern(
                    runner,
                    pattern,
                    s0,
                    sv,
                    |o: Seq<Report>| consensus_model(s0, sv, o),
                    (exec_state(*plan, *hitl, *governance), err_of(r)),
                );
            }
            r
        },
    };
    r
}

// ---------------------------------------------------------------------
// The model of execution.
// ---------------------------------------------------------------------

/// What an execution changes: the plan, the approval requests and
/// governance.
pub struct ExecState {
    pub plan: PlanView,
    pub approvals: Map<Seq<char>, ApprovalView>,
    pub gov: GovView,
}

pub open spec fn exec_state(plan: ExecutionPlan, hitl: HitlGovernor, gov: Governance) -> ExecState {
    ExecState { plan: plan@, approvals: hitl.approval_map(), gov: gov@ }
}

/// A runner's report as the model sees it: the status, or the error.
pub open spec fn outcome_view(r: OrchestratorResult<SubtaskOutcome>) -> Result<SubtaskStatus, ErrorView> {
    match r {
        Ok(o) => Ok(o.status),
        Err(e) => Err(e@),
    }
}

/// The error of a result, if it is one.
pub open spec fn err_of<T>(r: OrchestratorResult<T>) -> Option<ErrorView> {
    match r {
        Ok(_) => None,
        Err(e) => Some(e@),
    }
}

/// A runner's report as the model sees it.
pub type Report = Result<SubtaskStatus, ErrorView>;

/// `outs` lengthened to `n` reports with filler that no step reads.
pub open spec fn padded(outs: Seq<Report>, n: nat) -> Seq<Report> {
    if outs.len() >= n {
        outs
    } else {
        outs + Seq::new((n - outs.len()) as nat, |j: int| Err(ErrorView::Internal(Seq::empty())))
    }
}

pub proof fn lemma_padded(outs: Seq<Report>, n: nat)
    requires
        outs.len() <= n,
    ensures
        padded(outs, n).len() == n,
        padded(outs, n).take(outs.len() as int) == outs,
{
    assert(padded(outs, n).take(outs.len() as int) =~= outs);
}

/// How a run goes on after a step: on to the next subtask, stopped with
/// success, or failed with an error.
pub enum Flow {
    Continue,
    Stop,
    Fail(ErrorView),
}

/// The error a flow ends in, if any.
pub open spec fn flow_error(f: Flow) -> Option<ErrorView> {
    match f {
        Flow::Fail(e) => Some(e),
        _ => None,
    }
}

/// The message of the error for a subtask that waits for approval.
pub open spec fn awaiting_message(subtask_id: Seq<char>) -> Seq<char> {
    "subtask "@ + subtask_id + " awaiting approval"@
}

/// The approval gate before a subtask runs.  A subtask that needs a new or
/// still pending approval, or whose request is not approved, is marked
/// waiting and stops the run with an approval error; one whose request was
/// rejected, expired or escalated stops it with that error; any other
/// subtask is recorded as started.
pub open spec fn gate_model(s: ExecState, sub: SubtaskSpecView) -> (ExecState, Option<ErrorView>) {
    let (m, r) = request_outcome(s.approvals, s.plan.id, sub);
    match r {
        Err(e) => (ExecState { approvals: m, ..s }, Some(e)),
        Ok(Some(req)) => (
            ExecState {
                plan: with_node_status(s.plan, sub.id, SubtaskStatus::WaitingApproval),
                approvals: m,
                gov: approval_requested(s.gov, s.plan.id, sub.id),
            },
            Some(ErrorView::Approval(awaiting_message(req.subtask_id))),
        ),
        Ok(None) => if resume_allowed(m, sub.id) {
            (ExecState { approvals: m, gov: subtask_started(s.gov, s.plan.id, sub.id), ..s }, None)
        } else {
            (
                ExecState {
                    plan: with_node_status(s.plan, sub.id, SubtaskStatus::WaitingApproval),
                    approvals: m,
                    ..s
                },
                Some(ErrorView::Approval(awaiting_message(sub.id))),
            )
        },
    }
}

/// A subtask that needs a human and whose request is not approved never
/// gets through: the run stops with an error and governance records no
/// start for it.  Unless its request was refused (rejected, expired or
/// escalated), the subtask is marked as waiting for approval.
pub proof fn law_gate_blocks_unapproved(s: ExecState, sub: SubtaskSpecView)
    requires
        sub.needs_hitl(),
        !(s.approvals.contains_key(approval_key(sub.id)) && s.approvals[approval_key(sub.id)].status
            == ApprovalStatus::Approved),
    ensures
        gate_model(s, sub).1 is Some,
        gate_model(s, sub).0.gov == s.gov || gate_model(s, sub).0.gov == approval_requested(
            s.gov,
            s.plan.id,
            sub.id,
        ),
        request_outcome(s.approvals, s.plan.id, sub).1 is Ok ==> gate_model(s, sub).0.plan
            == with_node_status(s.plan, sub.id, SubtaskStatus::WaitingApproval),
{
}

/// A subtask whose request is approved, or which needs no human and has no
/// request, gets through: nothing changes but the recorded start.
pub proof fn law_gate_passes_approved(s: ExecState, sub: SubtaskSpecView)
    requires
        (s.approvals.contains_key(approval_key(sub.id)) && s.approvals[approval_key(sub.id)].status
            == ApprovalStatus::Approved) || (!sub.needs_hitl() && !s.approvals.contains_key(
            approval_key(sub.id),
        )),
    ensures
        gate_model(s, sub) == (
            ExecState { gov: subtask_started(s.gov, s.plan.id, sub.id), ..s },
            None::<ErrorView>,
        ),
{
}

/// Governance after a subtask ended with `status`: completions and
/// failures are recorded, other statuses are not.
pub open spec fn record_status(
    g: GovView,
    plan_id: Seq<char>,
    subtask_id: Seq<char>,
    status: SubtaskStatus,
) -> GovView {
    match status {
        SubtaskStatus::Completed => subtask_completed(g, plan_id, subtask_id),
        SubtaskStatus::Failed => subtask_failed(g, plan_id, subtask_id, Some("runner failed"@)),
        _ => g,
    }
}

/// Applying a runner's report: an error stops the run unchanged; a status
/// is set on the subtask's node and recorded.
pub open spec fn outcome_model(
    s: ExecState,
    subtask_id: Seq<char>,
    o: Result<SubtaskStatus, ErrorView>,
) -> (ExecState, Option<ErrorView>) {
    match o {
        Err(e) => (s, Some(e)),
        Ok(status) => (
            ExecState {
                plan: with_node_status(s.plan, subtask_id, status),
                gov: record_status(s.gov, s.plan.id, subtask_id, status),
                ..s
            },
            None,
        ),
    }
}

/// One subtask run on its own: the approval check, then the runner's report.
pub open spec fn step_model(
    s: ExecState,
    sub: SubtaskSpecView,
    o: Result<SubtaskStatus, ErrorView>,
) -> (ExecState, Option<ErrorView>) {
    let (s1, g) = gate_model(s, sub);
    if g is Some {
        (s1, g)
    } else {
        outcome_model(s1, sub.id, o)
    }
}

/// The gates of `subs` in order, stopping at the first that stops the run.
pub open spec fn gates_model(s: ExecState, subs: Seq<SubtaskSpecView>) -> (ExecState, Option<ErrorView>)
    decreases subs.len(),
{
    if subs.len() == 0 {
        (s, None)
    } else {
        let (s1, e) = gates_model(s, subs.drop_last());
        if e is Some {
            (s1, e)
        } else {
            gate_model(s1, subs.last())
        }
    }
}

/// The reports for subtasks `ids`, applied in order, stopping at the first
/// error.
pub open spec fn outcomes_model(
    s: ExecState,
    ids: Seq<Seq<char>>,
    outs: Seq<Result<SubtaskStatus, ErrorView>>,
) -> (ExecState, Option<ErrorView>)
    decreases ids.len(),
{
    if ids.len() == 0 {
        (s, None)
    } else {
        let (s1, e) = outcomes_model(s, ids.drop_last(), outs.drop_last());
        if e is Some {
            (s1, e)
        } else {
            outcome_model(s1, ids.last(), outs.last())
        }
    }
}

pub open spec fn ids_of(subs: Seq<SubtaskSpecView>) -> Seq<Seq<char>> {
    subs.map_values(|s: SubtaskSpecView| s.id)
}

/// A batch: every gate first, then all subtasks run together and their
/// reports are applied in subtask order.
pub open spec fn batch_model(
    s: ExecState,
    subs: Seq<SubtaskSpecView>,
    outs: Seq<Result<SubtaskStatus, ErrorView>>,
) -> (ExecState, Option<ErrorView>) {
    let (s1, e) = gates_model(s, subs);
    if e is Some {
        (s1, e)
    } else {
        outcomes_model(s1, ids_of(subs), outs)
    }
}

/// The gates keep the plan's id.
pub proof fn lemma_gates_keep_plan_id(s: ExecState, subs: Seq<SubtaskSpecView>)
    ensures
        gates_model(s, subs).0.plan.id == s.plan.id,
    decreases subs.len(),
{
    if subs.len() > 0 {
        lemma_gates_keep_plan_id(s, subs.drop_last());
    }
}

/// Applying reports keeps the plan's id.
pub proof fn lemma_outcomes_keep_plan_id(s: ExecState, ids: Seq<Seq<char>>, outs: Seq<Report>)
    ensures
        outcomes_model(s, ids, outs).0.plan.id == s.plan.id,
    decreases ids.len(),
{
    if ids.len() > 0 {
        lemma_outcomes_keep_plan_id(s, ids.drop_last(), outs.drop_last());
    }
}

/// A batch keeps the plan's id.
pub proof fn lemma_batch_keeps_plan_id(s: ExecState, subs: Seq<SubtaskSpecView>, outs: Seq<Report>)
    ensures
        batch_model(s, subs, outs).0.plan.id == s.plan.id,
{
    lemma_gates_keep_plan_id(s, subs);
    lemma_outcomes_keep_plan_id(gates_model(s, subs).0, ids_of(subs), outs);
}

/// Every pattern keeps the plan's id.
pub proof fn lemma_pattern_keeps_plan_id(
    p: CoordinationPattern,
    s: ExecState,
    subs: Seq<SubtaskSpecView>,
    outs: Seq<Report>,
)
    ensures
        pattern_model(p, s, subs, outs).0.plan.id == s.plan.id,
{
    match p {
        CoordinationPattern::Sequential => sequential::lemma_sequential_keeps_plan_id(s, subs, outs),
        CoordinationPattern::Parallel => lemma_batch_keeps_plan_id(s, subs, outs),
        CoordinationPattern::MapReduce | CoordinationPattern::Debate => {
            if subs.len() > 0 {
                lemma_batch_keeps_plan_id(s, subs.drop_last(), outs.drop_last());
            }
        },
        CoordinationPattern::Routing => routing::lemma_routing_keeps_plan_id(s, subs, outs),
        CoordinationPattern::Supervision => {
            let n = subs.len();
            let w = supervision::worker_reports(n, outs);
            let so = supervision::supervisor_report(n, outs);
            if n > 1 {
                supervision::lemma_supervise_keeps_plan_id(s, subs.drop_last(), Some(subs.last()), w, so);
            } else {
                supervision::lemma_supervise_keeps_plan_id(s, subs, None, w, so);
            }
        },
        CoordinationPattern::Consensus => lemma_batch_keeps_plan_id(s, subs, outs),
    }
}

// ---------------------------------------------------------------------
// How the runner's reports enter a run.
// ---------------------------------------------------------------------

/// `o2` agrees with `outs` at every position in `used`.
pub open spec fn agrees_on(o2: Seq<Report>, outs: Seq<Report>, used: Set<int>) -> bool {
    &&& o2.len() == outs.len()
    &&& forall|i: int| #[trigger] used.contains(i) ==> o2[i] == outs[i]
}

/// Every subtask at a position in `used` was handed to `runner`, and `outs`
/// holds at that position the report that came back.
pub open spec fn runner_reported<R: TaskRunner + ?Sized>(
    runner: &R,
    subs: Seq<SubtaskSpecView>,
    outs: Seq<Report>,
    used: Set<int>,
) -> bool {
    &&& outs.len() == subs.len()
    &&& forall|i: int|
        #[trigger] used.contains(i) ==> 0 <= i < subs.len() && runner.may_report(subs[i], outs[i])
}

/// The outcome `f` gives depends on no report outside `used`.
pub open spec fn reads_only(
    f: spec_fn(Seq<Report>) -> (ExecState, Option<ErrorView>),
    outs: Seq<Report>,
    used: Set<int>,
) -> bool {
    forall|o2: Seq<Report>| #[trigger] agrees_on(o2, outs, used) ==> f(o2) == f(outs)
}

/// The reports `outs` explain a run whose outcome is `f(outs)`: those at
/// the positions in `used` are what `runner` gave for those subtasks, and
/// no other report matters to the outcome.
pub open spec fn explained_by<R: TaskRunner + ?Sized>(
    runner: &R,
    subs: Seq<SubtaskSpecView>,
    outs: Seq<Report>,
    used: Set<int>,
    f: spec_fn(Seq<Report>) -> (ExecState, Option<ErrorView>),
) -> bool {
    runner_reported(runner, subs, outs, used) && reads_only(f, outs, used)
}

/// The positions `0..n`.
pub open spec fn positions(n: int) -> Set<int> {
    Set::new(|i: int| 0 <= i < n)
}

/// Agreeing on every position means being equal.
pub proof fn lemma_agrees_everywhere(o2: Seq<Report>, outs: Seq<Report>)
    requires
        agrees_on(o2, outs, positions(outs.len() as int)),
    ensures
        o2 == outs,
{
    assert forall|i: int| 0 <= i < outs.len() implies o2[i] == outs[i] by {
        assert(positions(outs.len() as int).contains(i));
    }
    assert(o2 =~= outs);
}

// ---------------------------------------------------------------------
// Building blocks shared by the executors.
// ---------------------------------------------------------------------

/// The approval gate before `sub` runs.
pub(crate) fn approval_gate(
    sub: &SubtaskSpec,
    plan: &mut ExecutionPlan,
    hitl: &mut HitlGovernor,
    governance: &mut Governance,
) -> (r: OrchestratorResult<()>)
    ensures
        (exec_state(*final(plan), *final(hitl), *final(governance)), err_of(r)) == gate_model(
            exec_state(*old(plan), *old(hitl), *old(governance)),
            sub@,
        ),
{
    let requested = hitl.maybe_request_approval(&plan.id, sub)?;
    match requested {
        Some(req) => {
            governance.record_approval_requested(plan.id.as_str(), sub.id.as_str());
            plan.set_status(sub.id.as_str(), SubtaskStatus::WaitingApproval);
            return Err(
                OrchestratorError::Approval(
                    concat3("subtask ", req.subtask_id.as_str(), " awaiting approval"),
                ),
            );
        },
        None => {},
    }
    if !maybe_resume(sub, hitl)? {
        plan.set_status(sub.id.as_str(), SubtaskStatus::WaitingApproval);
        return Err(
            OrchestratorError::Approval(concat3("subtask ", sub.id.as_str(), " awaiting approval")),
        );
    }
    governance.record_subtask_started(plan.id.as_str(), sub.id.as_str());
    Ok(())
}

/// Applies a runner's report for subtask `subtask_id`, returning its status.
pub(crate) fn apply_outcome(
    plan: &mut ExecutionPlan,
    governance: &mut Governance,
    subtask_id: &str,
    outcome: OrchestratorResult<SubtaskOutcome>,
) -> (r: OrchestratorResult<SubtaskStatus>)
    ensures
        match outcome_view(outcome) {
            Err(e) => (r matches Err(x) && x@ == e) && final(plan)@ == old(plan)@ && final(governance)@
                == old(governance)@,
            Ok(st) => r == Ok::<SubtaskStatus, OrchestratorError>(st) && final(plan)@ == with_node_status(
                old(plan)@,
                subtask_id@,
                st,
            ) && final(governance)@ == record_status(
                old(governance)@,
                old(plan)@.id,
                subtask_id@,
                st,
            ),
        },
{
    let outcome = outcome?;
    let status = outcome.status;
    plan.set_status(subtask_id, status);
    match status {
        SubtaskStatus::Completed => governance.record_subtask_completed(plan.id.as_str(), subtask_id),
        SubtaskStatus::Failed => governance.record_subtask_failed(
            plan.id.as_str(),
            subtask_id,
            Some("runner failed".to_string()),
        ),
        _ => {},
    }
    Ok(status)
}

/// Runs one subtask and pairs its report with the subtask's id.
fn run_one<R: TaskRunner + ?Sized>(runner: &R, spec: &SubtaskSpec) -> (r: (String, OrchestratorResult<SubtaskOutcome>))
    ensures
        r.0@ == spec.id@,
        runner.may_report(spec@, outcome_view(r.1)),
{
    (spec.id.clone(), runner.run(spec))
}

/// Hands every subtask of `specs` to the runner, in order, and collects the
/// reports, each paired with its subtask's id.
fn run_all<R: TaskRunner + ?Sized>(runner: &R, specs: &Vec<SubtaskSpec>) -> (r: Vec<(String, OrchestratorResult<SubtaskOutcome>)>)
    ensures
        r@.len() == specs@.len(),
        forall|i: int| 0 <= i < specs@.len() ==> (#[trigger] r@[i]).0@ == specs@[i].id@,
        forall|i: int|
            0 <= i < specs@.len() ==> runner.may_report(specs@[i]@, outcome_view((#[trigger] r@[i]).1)),
{
    let mut out: Vec<(String, OrchestratorResult<SubtaskOutcome>)> = Vec::new();
    let mut i: usize = 0;
    while i < specs.len()
        invariant
            i <= specs@.len(),
            out@.len() == i,
            forall|j: int| 0 <= j < i ==> (#[trigger] out@[j]).0@ == specs@[j].id@,
            forall|j: int| 0 <= j < i ==> runner.may_report(specs@[j]@, outcome_view((#[trigger] out@[j]).1)),
        decreases specs@.len() - i,
    {
        let p = run_one(runner, &specs[i]);
        assert(specs[i as int]@ == specs@[i as int]@);
        out.push(p);
        assert(out@[i as int] == p);
        i = i + 1;
    }
    out
}

/// The gates of the first `end` subtasks of `subs` in order; on success,
/// copies of those subtasks.
pub(crate) fn gate_all(
    subs: &[SubtaskSpec],
    end: usize,
    plan: &mut ExecutionPlan,
    hitl: &mut HitlGovernor,
    governance: &mut Governance,
) -> (r: OrchestratorResult<Vec<SubtaskSpec>>)
    requires
        end <= subs@.len(),
    ensures
        (exec_state(*final(plan), *final(hitl), *final(governance)), err_of(r)) == gates_model(
            exec_state(*old(plan), *old(hitl), *old(governance)),
            specs_view(subs@).take(end as int),
        ),
        r matches Ok(v) ==> specs_view(v@) == specs_view(subs@).take(end as int),
{
    let ghost s0 = exec_state(*plan, *hitl, *governance);
    let ghost sv = specs_view(subs@).take(end as int);
    let mut passed: Vec<SubtaskSpec> = Vec::new();
    let mut i: usize = 0;
    while i < end
        invariant
            end <= subs@.len(),
            i <= end,
            sv == specs_view(subs@).take(end as int),
            s0 == exec_state(*old(plan), *old(hitl), *old(governance)),
            (exec_state(*plan, *hitl, *governance), None::<ErrorView>) == gates_model(s0, sv.take(i as int)),
            specs_view(passed@) == sv.take(i as int),
        decreases end - i,
    {
        proof {
            assert(sv.take(i as int + 1).drop_last() =~= sv.take(i as int));
            assert(sv.take(i as int + 1).last() == subs@[i as int]@);
        }
        let ghost before = exec_state(*plan, *hitl, *governance);
        let r = approval_gate(&subs[i], plan, hitl, governance);
        proof {
            assert(gates_model(s0, sv.take(i as int + 1)) == gate_model(before, subs@[i as int]@));
        }
        match r {
            Err(e) => {
                proof {
                    assert(gates_model(s0, sv.take(i as int + 1)).1 is Some);
                    lemma_gates_stop(s0, sv, i as int + 1);
                    assert(sv.take(sv.len() as int) =~= sv);
                }
                return Err(e);
            },
            Ok(()) => {},
        }
        passed.push(subs[i].clone());
        proof {
            assert(specs_view(passed@) =~= sv.take(i as int + 1));
        }
        i = i + 1;
    }
    proof {
        assert(sv.take(sv.len() as int) =~= sv);
    }
    Ok(passed)
}

/// Once the gates of a prefix stop the run, the later gates change nothing.
pub proof fn lemma_gates_stop(s: ExecState, subs: Seq<SubtaskSpecView>, k: int)
    requires
        0 <= k <= subs.len(),
        gates_model(s, subs.take(k)).1 is Some,
    ensures
        gates_model(s, subs) == gates_model(s, subs.take(k)),
    decreases subs.len(),
{
    if subs.len() == k {
        assert(subs.take(k) =~= subs);
    } else {
        assert(subs.drop_last().take(k) =~= subs.take(k));
        lemma_gates_stop(s, subs.drop_last(), k);
    }
}

/// Once the reports of a prefix stop the run, the later reports change
/// nothing.
pub proof fn lemma_outcomes_stop(
    s: ExecState,
    ids: Seq<Seq<char>>,
    outs: Seq<Result<SubtaskStatus, ErrorView>>,
    k: int,
)
    requires
        0 <= k <= ids.len(),
        outs.len() == ids.len(),
        outcomes_model(s, ids.take(k), outs.take(k)).1 is Some,
    ensures
        outcomes_model(s, ids, outs) == outcomes_model(s, ids.take(k), outs.take(k)),
    decreases ids.len(),
{
    if ids.len() == k {
        assert(ids.take(k) =~= ids);
        assert(outs.take(k) =~= outs);
    } else {
        assert(ids.drop_last().take(k) =~= ids.take(k));
        assert(outs.drop_last().take(k) =~= outs.take(k));
        lemma_outcomes_stop(s, ids.drop_last(), outs.drop_last(), k);
    }
}

/// Runs the subtasks that passed their gates as one batch and applies the
/// reports in order.  Returns the statuses on success, and the reports as
/// the model sees them.
pub(crate) fn run_batch<R: TaskRunner + ?Sized>(
    passed: &Vec<SubtaskSpec>,
    plan: &mut ExecutionPlan,
    runner: &R,
    governance: &mut Governance,
    Ghost(approvals): Ghost<Map<Seq<char>, ApprovalView>>,
) -> (res: (OrchestratorResult<Vec<SubtaskStatus>>, Ghost<Seq<Result<SubtaskStatus, ErrorView>>>))
    ensures
        res.1@.len() == passed@.len(),
        (
            ExecState { plan: final(plan)@, approvals, gov: final(governance)@ },
            err_of(res.0),
        ) == outcomes_model(
            ExecState { plan: old(plan)@, approvals, gov: old(governance)@ },
            ids_of(specs_view(passed@)),
            res.1@,
        ),
        res.0 matches Ok(v) ==> v@.len() == passed@.len() && forall|i: int|
            0 <= i < v@.len() ==> res.1@[i] == Ok::<SubtaskStatus, ErrorView>(#[trigger] v@[i]),
        forall|i: int|
            0 <= i < passed@.len() ==> runner.may_report(passed@[i]@, #[trigger] res.1@[i]),
{
    let ghost ids = ids_of(specs_view(passed@));
    let ghost s0 = ExecState { plan: plan@, approvals, gov: governance@ };
    let mut results = run_all(runner, passed);
    let ghost all = results@.map_values(
        |p: (String, OrchestratorResult<SubtaskOutcome>)| outcome_view(p.1),
    );
    proof {
        assert forall|j: int| 0 <= j < passed@.len() implies runner.may_report(passed@[j]@, #[trigger] all[j]) by {
            assert(all[j] == outcome_view(results@[j].1));
            assert(runner.may_report(passed@[j]@, outcome_view(results@[j].1)));
        }
    }
    let mut statuses: Vec<SubtaskStatus> = Vec::new();
    let mut i: usize = 0;
    let n = results.len();
    while i < n
        invariant
            n == passed@.len(),
            i <= n,
            s0 == (ExecState { plan: old(plan)@, approvals, gov: old(governance)@ }),
            results@.len() == n - i,
            all.len() == n,
            ids == ids_of(specs_view(passed@)),
            forall|j: int| 0 <= j < results@.len() ==> (#[trigger] results@[j]).0@ == ids[i + j],
            forall|j: int|
                0 <= j < results@.len() ==> all[i + j] == outcome_view((#[trigger] results@[j]).1),
            forall|j: int| 0 <= j < n ==> runner.may_report(passed@[j]@, #[trigger] all[j]),
            (ExecState { plan: plan@, approvals, gov: governance@ }, None::<ErrorView>)
                == outcomes_model(s0, ids.take(i as int), all.take(i as int)),
            statuses@.len() == i,
            forall|j: int| 0 <= j < i ==> all[j] == Ok::<SubtaskStatus, ErrorView>(#[trigger] statuses@[j]),
        decreases n - i,
    {
        let (id, outcome) = results.remove(0);
        proof {
            assert(ids.take(i as int + 1).drop_last() =~= ids.take(i as int));
            assert(all.take(i as int + 1).drop_last() =~= all.take(i as int));
            assert(ids.take(i as int + 1).last() == id@);
            assert(all.take(i as int + 1).last() == outcome_view(outcome));
        }
        let ghost before = ExecState { plan: plan@, approvals, gov: governance@ };
        let ghost ov = outcome_view(outcome);
        let r = apply_outcome(plan, governance, id.as_str(), outcome);
        proof {
            assert(outcomes_model(s0, ids.take(i as int + 1), all.take(i as int + 1)) == outcome_model(before, id@, ov));
        }
        match r {
            Err(e) => {
                proof {
                    assert(outcomes_model(s0, ids.take(i as int + 1), all.take(i as int + 1)).1 is Some);
                    lemma_outcomes_stop(s0, ids, all, i as int + 1);
                    assert(ids.take(n as int) =~= ids);
                    assert(all.take(n as int) =~= all);
                }
                return (Err(e), Ghost(all));
            },
            Ok(st) => {
                statuses.push(st);
            },
        }
        i = i + 1;
    }
    proof {
        assert(ids.take(n as int) =~= ids);
        assert(all.take(n as int) =~= all);
    }
    (Ok(statuses), Ghost(all))
}

} // verus!
