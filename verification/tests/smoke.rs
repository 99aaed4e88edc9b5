use mofa_orchestrator::api::OrchestratorService;
use mofa_orchestrator::error::OrchestratorError;
use mofa_orchestrator::governance::{GovernanceMetrics, GovernanceMetricsSnapshot};
use mofa_orchestrator::models::plan::PlanStatus;
use mofa_orchestrator::models::{ApprovalDecision, SubtaskSpec, SubtaskStatus};
use mofa_orchestrator::patterns::{CoordinationPattern, SubtaskOutcome, TaskRunner};
use mofa_orchestrator::storage::{ApprovalStore, PlanStore};

#[test]
fn analyzer_offline_produces_single_step() {
    let svc = OrchestratorService::new();
    let specs = svc.analyze_task("demo task").unwrap();
    assert_eq!(specs.len(), 1);
    assert_eq!(specs[0].id, "step-1");
}

#[test]
fn pick_pattern_defaults_to_sequential() {
    let svc = OrchestratorService::new();
    let specs = svc.analyze_task("demo task").unwrap();
    let pattern = svc.pick_pattern(&specs).unwrap();
    assert!(matches!(pattern, CoordinationPattern::Sequential));
}

struct NoopRunner;

impl TaskRunner for NoopRunner {
    fn run(&self, _subtask: &SubtaskSpec) -> Result<SubtaskOutcome, OrchestratorError> {
        Ok(SubtaskOutcome {
            status: SubtaskStatus::Completed,
            output: None,
        })
    }
}

#[test]
fn execute_sets_waiting_on_hitl_required() {
    let mut svc = OrchestratorService::new();
    let runner = NoopRunner;
    let err = svc.execute("high risk task", &runner).unwrap_err();
    match err {
        OrchestratorError::Approval(_) => {}
        other => panic!("expected approval error, got {:?}", other),
    }
    let plan = svc
        .plan_store()
        .get(&"plan-1".to_string())
        .unwrap()
        .unwrap();
    assert_eq!(plan.status, PlanStatus::WaitingApproval);
    assert_eq!(plan.nodes[0].status, SubtaskStatus::WaitingApproval);

    let pending = svc.approval_store().list_pending().unwrap();
    assert_eq!(pending.len(), 1);
    let approval_id = pending[0].id.clone();
    svc.apply_approval(ApprovalDecision {
        approval_id: approval_id.clone(),
        approved: true,
        reason: None,
    })
    .unwrap();

    let specs = svc.analyze_task("high risk task").unwrap();
    let mut plan = svc
        .plan_store()
        .get(&"plan-1".to_string())
        .unwrap()
        .unwrap();
    let resumed = svc.resume(&mut plan, &specs, &runner).unwrap();
    assert_eq!(resumed.status, PlanStatus::Completed);
    assert_eq!(resumed.nodes[0].status, SubtaskStatus::Completed);

    let metrics = GovernanceMetrics::default();
    let snapshot = metrics.snapshot();
    let empty = GovernanceMetricsSnapshot::default();
    assert_eq!(snapshot, empty);
}

#[test]
fn plan_lists_one_pending_node_per_sentence() {
    let svc = OrchestratorService::new();
    let plan = svc.plan("collect requirements. write draft.").unwrap();
    assert_eq!(plan.id, "plan-1");
    assert_eq!(plan.name, "collect requirements. write draft.");
    assert_eq!(plan.status, PlanStatus::Pending);
    assert_eq!(plan.nodes.len(), 2);
    assert_eq!(plan.nodes[1].subtask_id, "step-2");
    assert_eq!(plan.nodes[1].status, SubtaskStatus::Pending);
    assert!(matches!(svc.plan("  "), Err(OrchestratorError::InvalidInput(_))));
}

#[test]
fn rejected_approval_keeps_the_plan_waiting() {
    let mut svc = OrchestratorService::new();
    let runner = NoopRunner;
    assert!(svc.execute("do it", &runner).is_err());
    svc.apply_approval(ApprovalDecision {
        approval_id: "appr-step-1".into(),
        approved: false,
        reason: None,
    })
    .unwrap();
    let specs = svc.analyze_task("do it").unwrap();
    let mut plan = svc.plan_store().get(&"plan-1".to_string()).unwrap().unwrap();
    match svc.resume(&mut plan, &specs, &runner) {
        Err(OrchestratorError::Approval(m)) => {
            assert_eq!(m, "subtask step-1 approval not in approvable state")
        }
        other => panic!("unexpected {:?}", other),
    }
    let stored = svc.plan_store().get(&"plan-1".to_string()).unwrap().unwrap();
    assert_eq!(stored.status, PlanStatus::WaitingApproval);
}

#[test]
fn execute_of_blank_task_stores_nothing() {
    let mut svc = OrchestratorService::new();
    assert!(matches!(
        svc.execute(" ", &NoopRunner),
        Err(OrchestratorError::InvalidInput(_))
    ));
    assert!(svc.plan_store().get(&"plan-1".to_string()).unwrap().is_none());
}

#[test]
fn apply_approval_refuses_empty_id() {
    let mut svc = OrchestratorService::new();
    assert!(matches!(
        svc.apply_approval(ApprovalDecision {
            approval_id: "".into(),
            approved: true,
            reason: None
        }),
        Err(OrchestratorError::InvalidInput(_))
    ));
}
