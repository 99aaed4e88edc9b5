//! The orchestrator service: analyze a task, plan it, pick a pattern, run it
//! under approval gating, and resume it after approvals.

use vstd::prelude::*;
use crate::analyzer::{analysis_outcome, specs_result_view, TaskAnalyzer};
use crate::composer::{pattern_for, SwarmComposer};
use crate::error::{ErrorView, OrchestratorError, OrchestratorResult};
use crate::governance::{audit_event, counted, zero_metrics, Counter, GovView, Governance};
use crate::hitl::{approval_key, decided_status, fresh_approval, HitlGovernor};
use crate::models::plan::{first_node, lemma_with_node_status, with_node_status, with_plan_status};
use crate::models::task::specs_view;
use crate::models::{
    ApprovalDecision, ApprovalStatus, ApprovalView, AuditEventKind, ExecutionPlan, PlanNode,
    PlanNodeView, PlanStatus, PlanView, SubtaskSpec, SubtaskSpecView, SubtaskStatus,
};
use crate::patterns::{
    err_of, exec_state, pattern_explained, pattern_model, run_pattern, sequential_model,
    step_model, CoordinationPattern, ExecState, Report, TaskRunner,
};
use crate::storage::{approvals_with_status, ApprovalStore, MemoryApprovalStore, MemoryPlanStore, PlanStore};

verus! {

/// The id every plan of the service gets.
pub open spec fn service_plan_id() -> Seq<char> {
    "plan-1"@
}

/// A new plan for `task` with one pending node per subtask.
pub open spec fn fresh_plan(task: Seq<char>, subs: Seq<SubtaskSpecView>, status: PlanStatus) -> PlanView {
    PlanView {
        id: service_plan_id(),
        name: task,
        status,
        nodes: subs.map_values(
            |s: SubtaskSpecView| PlanNodeView { subtask_id: s.id, status: SubtaskStatus::Pending },
        ),
    }
}

/// The plan status after a run: completed on success, waiting on an
/// approval error, failed on any other error.
pub open spec fn final_status(e: Option<ErrorView>) -> PlanStatus {
    match e {
        None => PlanStatus::Completed,
        Some(ErrorView::Approval(_)) => PlanStatus::WaitingApproval,
        Some(_) => PlanStatus::Failed,
    }
}

/// Governance of a run after the plan was recorded as started.
pub open spec fn started_gov(plan_id: Seq<char>) -> GovView {
    counted(
        GovView { events: Seq::empty(), metrics: zero_metrics(), sla_deadline_ms: None },
        audit_event(plan_id, None, AuditEventKind::PlanStarted, None),
        Counter::PlansStarted,
    )
}

/// A run of `plan` over `subs` in `pattern`, from the approvals `m`: the
/// plan afterwards (with its final status), the approvals afterwards, and
/// the error, if any.
pub open spec fn run_outcome(
    pattern: CoordinationPattern,
    plan: PlanView,
    m: Map<Seq<char>, ApprovalView>,
    subs: Seq<SubtaskSpecView>,
    outs: Seq<Report>,
) -> (PlanView, Map<Seq<char>, ApprovalView>, Option<ErrorView>) {
    let (s1, e) = pattern_model(
        pattern,
        ExecState { plan, approvals: m, gov: started_gov(plan.id) },
        subs,
        outs,
    );
    (with_plan_status(s1.plan, final_status(e)), s1.approvals, e)
}

/// The reports `outs` explain a run of `plan` over `subs` in `pattern` from
/// the approvals `m`: those at `used` came from `runner` for those
/// subtasks, and no other report matters.
pub open spec fn run_explained<R: TaskRunner + ?Sized>(
    runner: &R,
    pattern: CoordinationPattern,
    plan: PlanView,
    m: Map<Seq<char>, ApprovalView>,
    subs: Seq<SubtaskSpecView>,
    outs: Seq<Report>,
    used: Set<int>,
) -> bool {
    pattern_explained(
        runner,
        pattern,
        ExecState { plan, approvals: m, gov: started_gov(plan.id) },
        subs,
        outs,
        used,
    )
}

/// A one-step plan whose subtask needs a human stops the first run waiting
/// for approval; once its request is approved, running it again with a
/// completing runner completes the plan and the subtask.
pub proof fn law_approval_then_resume_completes(
    plan: PlanView,
    m: Map<Seq<char>, ApprovalView>,
    sub: SubtaskSpecView,
)
    requires
        sub.needs_hitl(),
        !m.contains_key(approval_key(sub.id)),
        first_node(plan.nodes, sub.id) >= 0,
    ensures
        ({
            let done = Ok::<SubtaskStatus, ErrorView>(SubtaskStatus::Completed);
            let (p1, m1, e1) = run_outcome(
                CoordinationPattern::Sequential,
                plan,
                m,
                seq![sub],
                seq![done],
            );
            let m2 = approvals_with_status(m1, approval_key(sub.id), ApprovalStatus::Approved);
            let (p2, m3, e2) = run_outcome(
                CoordinationPattern::Sequential,
                p1,
                m2,
                seq![sub],
                seq![done],
            );
            &&& e1 is Some && e1->0 is Approval
            &&& p1.status == PlanStatus::WaitingApproval
            &&& p1.nodes[first_node(plan.nodes, sub.id)].status == SubtaskStatus::WaitingApproval
            &&& e2 is None
            &&& p2.status == PlanStatus::Completed
            &&& p2.nodes[first_node(plan.nodes, sub.id)].status == SubtaskStatus::Completed
            &&& m3 == m2
        }),
{
    let s = seq![sub];
    assert(s.drop_last() =~= Seq::<SubtaskSpecView>::empty());
    let done = Ok::<SubtaskStatus, ErrorView>(SubtaskStatus::Completed);
    let o = seq![done];
    assert(o.drop_last() =~= Seq::<Report>::empty());
    assert(s.last() == sub);
    assert(o.last() == done);
    let k = approval_key(sub.id);
    let s0 = ExecState { plan, approvals: m, gov: started_gov(plan.id) };
    let w = with_node_status(plan, sub.id, SubtaskStatus::WaitingApproval);
    lemma_with_node_status(plan, sub.id, SubtaskStatus::WaitingApproval, sub.id);
    assert(sequential_model(s0, s.drop_last(), o.drop_last()) == (s0, None::<ErrorView>));
    assert(sequential_model(s0, s, o) == step_model(s0, sub, done));
    let (p1, m1, e1) = run_outcome(CoordinationPattern::Sequential, plan, m, s, o);
    assert(m1 == m.insert(k, fresh_approval(plan.id, sub.id)));
    assert(p1 == with_plan_status(w, PlanStatus::WaitingApproval));
    let m2 = approvals_with_status(m1, k, ApprovalStatus::Approved);
    assert(m2.contains_key(k) && m2[k].status == ApprovalStatus::Approved);
    let c = with_node_status(p1, sub.id, SubtaskStatus::Completed);
    lemma_with_node_status(p1, sub.id, SubtaskStatus::Completed, sub.id);
    let t0 = ExecState { plan: p1, approvals: m2, gov: started_gov(p1.id) };
    assert(sequential_model(t0, s.drop_last(), o.drop_last()) == (t0, None::<ErrorView>));
    assert(sequential_model(t0, s, o) == step_model(t0, sub, done));
    let (p2, m3, e2) = run_outcome(CoordinationPattern::Sequential, p1, m2, s, o);
    assert(p2 == with_plan_status(c, PlanStatus::Completed));
}

/// Analyzes, plans and runs tasks, keeping plans and approval requests.
pub struct OrchestratorService {
    analyzer: TaskAnalyzer,
    composer: SwarmComposer,
    plan_store: MemoryPlanStore,
    hitl: HitlGovernor,
}

impl OrchestratorService {
    /// The stored plans by id.
    pub closed spec fn plans(&self) -> Map<Seq<char>, PlanView> {
        self.plan_store.plans()
    }

    /// The approval requests by id.
    pub closed spec fn approvals(&self) -> Map<Seq<char>, ApprovalView> {
        self.hitl.approval_map()
    }

    /// A service with no plans and no approval requests.
    pub fn new() -> (r: Self)
        ensures
            r.plans() == Map::<Seq<char>, PlanView>::empty(),
            r.approvals() == Map::<Seq<char>, ApprovalView>::empty(),
    {
        OrchestratorService {
            analyzer: TaskAnalyzer::new(),
            composer: SwarmComposer::new(),
            plan_store: MemoryPlanStore::new(),
            hitl: HitlGovernor::new(),
        }
    }

    /// The plan store.
    pub fn plan_store(&self) -> (r: &MemoryPlanStore)
        ensures
            r.plans() == self.plans(),
    {
        &self.plan_store
    }

    /// The approval store.
    pub fn approval_store(&self) -> (r: &MemoryApprovalStore)
        ensures
            r.approvals() == self.approvals(),
    {
        self.hitl.approval_store()
    }

    /// Applies a human decision to the approval requests.
    pub fn apply_approval(&mut self, decision: ApprovalDecision) -> (r: OrchestratorResult<ApprovalStatus>)
        ensures
            decision@.approval_id.len() == 0 ==> (r matches Err(e) && e@
                == ErrorView::InvalidInput("approval id is empty"@)) && final(self).approvals()
                == old(self).approvals(),
            decision@.approval_id.len() > 0 ==> r == Ok::<ApprovalStatus, OrchestratorError>(
                decided_status(decision.approved),
            ) && final(self).approvals() == approvals_with_status(
                old(self).approvals(),
                decision@.approval_id,
                decided_status(decision.approved),
            ),
            final(self).plans() == old(self).plans(),
    {
        self.hitl.apply(decision)
    }

    /// The subtasks of `task`.
    pub fn analyze_task(&self, task: &str) -> (r: OrchestratorResult<Vec<SubtaskSpec>>)
        ensures
            specs_result_view(r) == analysis_outcome(task@),
    {
        self.analyzer.analyze_offline(task)
    }

    /// A pending plan for `task`, with one pending node per subtask.
    pub fn plan(&self, task: &str) -> (r: OrchestratorResult<ExecutionPlan>)
        ensures
            match analysis_outcome(task@) {
                Err(e) => r matches Err(x) && x@ == e,
                Ok(subs) => r matches Ok(p) && p@ == fresh_plan(task@, subs, PlanStatus::Pending),
            },
    {
        let specs = self.analyze_task(task)?;
        Ok(build_plan(task, &specs, PlanStatus::Pending))
    }

    /// The coordination pattern for `specs`.
    pub fn pick_pattern(&self, specs: &[SubtaskSpec]) -> (r: OrchestratorResult<CoordinationPattern>)
        ensures
            r == Ok::<CoordinationPattern, OrchestratorError>(pattern_for(specs_view(specs@))),
    {
        self.composer.pick_pattern(specs)
    }

    /// Analyzes `task`, picks a pattern and runs a new running plan
    /// `plan-1` with `runner`.  The plan is stored whatever the outcome;
    /// a subtask awaiting approval leaves it waiting with an approval error.
    pub fn execute(&mut self, task: &str, runner: &dyn TaskRunner) -> (r: OrchestratorResult<ExecutionPlan>)
        ensures
            match analysis_outcome(task@) {
                Err(e) => (r matches Err(x) && x@ == e) && final(self).plans() == old(self).plans()
                    && final(self).approvals() == old(self).approvals(),
                Ok(subs) => exists|outs: Seq<Report>, used: Set<int>|
                    #[trigger] run_explained(
                        runner,
                        pattern_for(subs),
                        fresh_plan(task@, subs, PlanStatus::Running),
                        old(self).approvals(),
                        subs,
                        outs,
                        used,
                    ) && ({
                        let (p, m, e) = run_outcome(
                            pattern_for(subs),
                            fresh_plan(task@, subs, PlanStatus::Running),
                            old(self).approvals(),
                            subs,
                            outs,
                        );
                        &&& final(self).approvals() == m
                        &&& final(self).plans() == old(self).plans().insert(service_plan_id(), p)
                        &&& err_of(r) == e
                        &&& r matches Ok(x) ==> x@ == p
                    }),
            },
    {
        let specs = self.analyze_task(task)?;
        let pattern = self.composer.pick_pattern(&specs)?;
        let mut plan = build_plan(task, &specs, PlanStatus::Running);
        let ghost p0 = plan@;
        let ghost m0 = self.approvals();
        let r = self.run_plan(&specs, pattern, &mut plan, runner);
        proof {
            let subs = specs_view(specs@);
            let (outs, used) = choose|outs: Seq<Report>, used: Set<int>|
                #[trigger] run_explained(runner, pattern, p0, m0, subs, outs, used) && ({
                    let (p, m, e) = run_outcome(pattern, p0, m0, subs, outs);
                    &&& plan@ == p
                    &&& self.approvals() == m
                    &&& self.plans() == old(self).plans().insert(p.id, p)
                    &&& err_of(r) == e
                    &&& r matches Ok(x) ==> x@ == p
                });
            crate::patterns::lemma_pattern_keeps_plan_id(pattern, ExecState { plan: p0, approvals: m0, gov: started_gov(p0.id) }, subs, outs);
        }
        r
    }

    /// Runs `plan` again over `specs`, e.g. after approvals were applied.
    pub fn resume(
        &mut self,
        plan: &mut ExecutionPlan,
        specs: &[SubtaskSpec],
        runner: &dyn TaskRunner,
    ) -> (r: OrchestratorResult<ExecutionPlan>)
        ensures
            exists|outs: Seq<Report>, used: Set<int>|
                #[trigger] run_explained(
                    runner,
                    pattern_for(specs_view(specs@)),
                    old(plan)@,
                    old(self).approvals(),
                    specs_view(specs@),
                    outs,
                    used,
                ) && ({
                    let (p, m, e) = run_outcome(
                        pattern_for(specs_view(specs@)),
                        old(plan)@,
                        old(self).approvals(),
                        specs_view(specs@),
                        outs,
                    );
                    &&& final(plan)@ == p
                    &&& final(self).approvals() == m
                    &&& final(self).plans() == old(self).plans().insert(p.id, p)
                    &&& err_of(r) == e
                    &&& r matches Ok(x) ==> x@ == p
                }),
    {
        let pattern = match self.composer.pick_pattern(specs) {
            Ok(p) => p,
            Err(e) => {
                return Err(e);
            },
        };
        self.run_plan(specs, pattern, plan, runner)
    }

    fn run_plan<R: TaskRunner + ?Sized>(
        &mut self,
        specs: &[SubtaskSpec],
        pattern: CoordinationPattern,
        plan: &mut ExecutionPlan,
        runner: &R,
    ) -> (r: OrchestratorResult<ExecutionPlan>)
        ensures
            exists|outs: Seq<Report>, used: Set<int>|
                #[trigger] run_explained(
                    runner,
                    pattern,
                    old(plan)@,
                    old(self).approvals(),
                    specs_view(specs@),
                    outs,
                    used,
                ) && ({
                    let (p, m, e) = run_outcome(
                        pattern,
                        old(plan)@,
                        old(self).approvals(),
                        specs_view(specs@),
                        outs,
                    );
                    &&& final(plan)@ == p
                    &&& final(self).approvals() == m
                    &&& final(self).plans() == old(self).plans().insert(p.id, p)
                    &&& err_of(r) == e
                    &&& r matches Ok(x) ==> x@ == p
                }),
    {
        let ghost p0 = plan@;
        let ghost m0 = self.hitl.approval_map();
        let ghost sv = specs_view(specs@);
        let mut governance = Governance::new();
        governance.record_plan_started(plan.id.as_str());
        let ghost s0 = exec_state(*plan, self.hitl, governance);
        proof {
            assert(s0 == (ExecState { plan: p0, approvals: m0, gov: started_gov(p0.id) }));
        }
        let result = run_pattern(pattern, specs, plan, runner, &mut self.hitl, &mut governance);
        let ghost s1 = exec_state(*plan, self.hitl, governance);
        let ghost (outs, used) = choose|outs: Seq<Report>, used: Set<int>|
            #[trigger] pattern_explained(runner, pattern, s0, sv, outs, used) && (s1, err_of(result)) == pattern_model(pattern, s0, sv, outs);
        proof {
            assert(run_explained(runner, pattern, p0, m0, sv, outs, used));
        }
        let ghost p1 = plan@;
        match result {
            Ok(()) => {
                plan.status = PlanStatus::Completed;
                governance.record_plan_completed(plan.id.as_str());
                proof {
                    assert(plan@ == with_plan_status(p1, PlanStatus::Completed));
                    assert(run_outcome(pattern, p0, m0, sv, outs) == (plan@, self.hitl.approval_map(), None::<ErrorView>));
                }
                let stored = self.plan_store.insert(plan.clone());
                proof {
                    assert(stored is Ok);
                    assert(self.plans() == old(self).plans().insert(plan@.id, plan@));
                    assert(self.approvals() == self.hitl.approval_map());
                }
                stored?;
                let out = plan.clone();
                proof {
                    let ghost rr: OrchestratorResult<ExecutionPlan> = Ok(out);
                    assert(err_of(rr) == None::<ErrorView>);
                    assert(p0 == old(plan)@);
                    assert(m0 == old(self).approvals());
                    assert({
                        let (p, m, e) = run_outcome(pattern, old(plan)@, old(self).approvals(), specs_view(specs@), outs);
                        &&& plan@ == p
                        &&& self.approvals() == m
                        &&& self.plans() == old(self).plans().insert(p.id, p)
                        &&& err_of(rr) == e
                        &&& rr matches Ok(x) ==> x@ == p
                    });
                }
                Ok(out)
            },
            Err(err) => {
                if err.is_approval() {
                    plan.status = PlanStatus::WaitingApproval;
                    proof {
                        assert(plan@ == with_plan_status(p1, PlanStatus::WaitingApproval));
                        assert(run_outcome(pattern, p0, m0, sv, outs) == (plan@, self.hitl.approval_map(), Some(err@)));
                    }
                    self.plan_store.insert(plan.clone())?;
                    Err(err)
                } else {
                    plan.status = PlanStatus::Failed;
                    governance.record_plan_failed(plan.id.as_str(), Some(err.to_string()));
                    proof {
                        assert(plan@ == with_plan_status(p1, PlanStatus::Failed));
                        assert(run_outcome(pattern, p0, m0, sv, outs) == (plan@, self.hitl.approval_map(), Some(err@)));
                    }
                    self.plan_store.insert(plan.clone())?;
                    Err(err)
                }
            },
        }
    }
}

/// A plan `plan-1` named after `task` with one pending node per subtask.
fn build_plan(task: &str, specs: &Vec<SubtaskSpec>, status: PlanStatus) -> (r: ExecutionPlan)
    ensures
        r@ == fresh_plan(task@, specs_view(specs@), status),
{
    let mut nodes: Vec<PlanNode> = Vec::new();
    let mut i: usize = 0;
    while i < specs.len()
        invariant
            i <= specs@.len(),
            nodes@.len() == i,
            forall|j: int|
                0 <= j < i ==> (#[trigger] nodes@[j])@ == (PlanNodeView {
                    subtask_id: specs@[j]@.id,
                    status: SubtaskStatus::Pending,
                }),
        decreases specs@.len() - i,
    {
        nodes.push(PlanNode { subtask_id: specs[i].id.clone(), status: SubtaskStatus::Pending });
        i = i + 1;
    }
    let r = ExecutionPlan { id: "plan-1".to_string(), name: task.to_string(), status, nodes };
    assert(r@.nodes =~= fresh_plan(task@, specs_view(specs@), status).nodes);
    r
}

/// The plan after a run has the status its outcome calls for: completed
/// when the run succeeds, waiting for approval when it stops on an approval
/// error, and failed when it ends with any other error.
pub proof fn law_run_status_follows_outcome(
    pattern: CoordinationPattern,
    plan: PlanView,
    m: Map<Seq<char>, ApprovalView>,
    subs: Seq<SubtaskSpecView>,
    outs: Seq<Report>,
)
    ensures
        ({
            let (p, _, e) = run_outcome(pattern, plan, m, subs, outs);
            &&& e is None ==> p.status == PlanStatus::Completed
            &&& (e matches Some(x) && x is Approval) ==> p.status == PlanStatus::WaitingApproval
            &&& (e matches Some(x) && !(x is Approval)) ==> p.status == PlanStatus::Failed
        }),
{
}

} // verus!
