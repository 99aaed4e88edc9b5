use mofa_orchestrator::error::OrchestratorError;
use mofa_orchestrator::hitl::HitlGovernor;
use mofa_orchestrator::models::{
    ApprovalDecision, ApprovalRequest, ApprovalStatus, RiskLevel, SubtaskSpec,
};

fn risky_subtask() -> SubtaskSpec {
    SubtaskSpec {
        id: "step-risky".into(),
        description: "risky".into(),
        capabilities: vec![],
        complexity: 0.5f64.to_bits(),
        deps: vec![],
        risk_level: Some(RiskLevel::High),
        estimated_duration_secs: None,
    }
}

#[test]
fn hitl_creates_pending_request() {
    let mut gov = HitlGovernor::new();
    let result = gov.maybe_request_approval(&"plan-1".to_string(), &risky_subtask());
    assert!(matches!(result, Ok(Some(_))));
    let pending = gov.pending().unwrap();
    assert_eq!(pending.len(), 1);
    assert_eq!(pending[0].status, ApprovalStatus::Pending);
}

#[test]
fn hitl_apply_updates_status() {
    let mut gov = HitlGovernor::new();
    let _ = gov.maybe_request_approval(&"plan-1".to_string(), &risky_subtask());
    let pending = gov.pending().unwrap();
    let id = &pending[0].id;
    let status = gov
        .apply(ApprovalDecision {
            approval_id: id.clone(),
            approved: true,
            reason: None,
        })
        .unwrap();
    assert_eq!(status, ApprovalStatus::Approved);
    let pending_after = gov.pending().unwrap();
    assert!(pending_after.is_empty());
}

#[test]
fn hitl_escalates_expired() {
    let mut gov = HitlGovernor::new();
    let _ = gov.maybe_request_approval(&"plan-1".to_string(), &risky_subtask());
    let pending = gov.pending().unwrap();
    let id = &pending[0].id;
    let expired = ApprovalRequest {
        id: id.clone(),
        plan_id: "plan-1".into(),
        subtask_id: "step-risky".into(),
        rationale: "Approval required".into(),
        status: ApprovalStatus::Pending,
        expires_at_ms: Some(0),
        escalation_ms: Some(0),
        escalation_level: None,
    };
    gov.request(expired).unwrap();
    gov.escalate_expired(1).unwrap();
    let pending_after = gov.pending().unwrap();
    assert!(pending_after.is_empty());
}

#[test]
fn new_request_has_the_documented_shape() {
    let mut gov = HitlGovernor::new();
    let req = gov
        .maybe_request_approval(&"plan-1".to_string(), &risky_subtask())
        .unwrap()
        .unwrap();
    assert_eq!(req.id, "appr-step-risky");
    assert_eq!(req.plan_id, "plan-1");
    assert_eq!(req.subtask_id, "step-risky");
    assert_eq!(req.rationale, "Approval required for step-risky");
    assert_eq!(req.expires_at_ms, None);
}

#[test]
fn asking_twice_reuses_the_request() {
    let mut gov = HitlGovernor::new();
    let first = gov
        .maybe_request_approval(&"plan-1".to_string(), &risky_subtask())
        .unwrap()
        .unwrap();
    let second = gov
        .maybe_request_approval(&"plan-1".to_string(), &risky_subtask())
        .unwrap()
        .unwrap();
    assert_eq!(first.id, second.id);
    assert_eq!(gov.pending().unwrap().len(), 1);
}

#[test]
fn low_risk_needs_no_approval() {
    let mut gov = HitlGovernor::new();
    let mut sub = risky_subtask();
    sub.risk_level = Some(RiskLevel::Medium);
    assert!(gov.maybe_request_approval(&"p".to_string(), &sub).unwrap().is_none());
    sub.risk_level = None;
    assert!(gov.maybe_request_approval(&"p".to_string(), &sub).unwrap().is_none());
    assert!(gov.pending().unwrap().is_empty());
}

#[test]
fn decisions_settle_later_requests() {
    let mut gov = HitlGovernor::new();
    let sub = risky_subtask();
    gov.maybe_request_approval(&"p".to_string(), &sub).unwrap();
    gov.apply(ApprovalDecision {
        approval_id: "appr-step-risky".into(),
        approved: true,
        reason: None,
    })
    .unwrap();
    assert!(gov.maybe_request_approval(&"p".to_string(), &sub).unwrap().is_none());
    let status = gov
        .apply(ApprovalDecision {
            approval_id: "appr-step-risky".into(),
            approved: false,
            reason: Some("changed mind".into()),
        })
        .unwrap();
    assert_eq!(status, ApprovalStatus::Rejected);
    match gov.maybe_request_approval(&"p".to_string(), &sub) {
        Err(OrchestratorError::Approval(m)) => {
            assert_eq!(m, "subtask step-risky approval not in approvable state")
        }
        other => panic!("unexpected {:?}", other),
    }
}

#[test]
fn empty_ids_are_refused() {
    let mut gov = HitlGovernor::new();
    let mut req = ApprovalRequest {
        id: "".into(),
        plan_id: "p".into(),
        subtask_id: "s".into(),
        rationale: "r".into(),
        status: ApprovalStatus::Pending,
        expires_at_ms: None,
        escalation_ms: None,
        escalation_level: None,
    };
    match gov.request(req.clone()) {
        Err(OrchestratorError::InvalidInput(m)) => assert_eq!(m, "approval id is empty"),
        other => panic!("unexpected {:?}", other),
    }
    match gov.apply(ApprovalDecision {
        approval_id: "".into(),
        approved: true,
        reason: None,
    }) {
        Err(OrchestratorError::InvalidInput(m)) => assert_eq!(m, "approval id is empty"),
        other => panic!("unexpected {:?}", other),
    }
    req.id = "x".into();
    assert_eq!(gov.request(req).unwrap().id, "x");
    assert_eq!(gov.get("x").unwrap().unwrap().subtask_id, "s");
    assert!(gov.get("y").unwrap().is_none());
}

#[test]
fn escalation_spares_requests_not_yet_due() {
    let mut gov = HitlGovernor::new();
    for (id, expiry) in [("a", Some(5u64)), ("b", Some(10)), ("c", None)] {
        gov.request(ApprovalRequest {
            id: id.into(),
            plan_id: "p".into(),
            subtask_id: id.into(),
            rationale: "r".into(),
            status: ApprovalStatus::Pending,
            expires_at_ms: expiry,
            escalation_ms: None,
            escalation_level: None,
        })
        .unwrap();
    }
    gov.escalate_expired(5).unwrap();
    assert_eq!(gov.get("a").unwrap().unwrap().status, ApprovalStatus::Escalated);
    assert_eq!(gov.get("b").unwrap().unwrap().status, ApprovalStatus::Pending);
    assert_eq!(gov.get("c").unwrap().unwrap().status, ApprovalStatus::Pending);
    assert_eq!(gov.pending().unwrap().len(), 2);
}

use mofa_orchestrator::governance::Clock;
use mofa_orchestrator::hitl::HitlNotifier;
use std::sync::{Arc, Mutex};

#[derive(Default)]
struct TestNotifier {
    seen: Mutex<Vec<String>>,
}

impl HitlNotifier for TestNotifier {
    fn notify(&self, req: &ApprovalRequest) {
        self.seen.lock().unwrap().push(req.id.clone());
    }
}

struct FixedClock(u64);

impl Clock for FixedClock {
    fn now_millis(&self) -> u64 {
        self.0
    }
}

#[test]
fn notifier_hears_only_new_requests() {
    let notifier = Arc::new(TestNotifier::default());
    let mut gov = HitlGovernor::new()
        .with_notifier(notifier.clone())
        .with_clock(Arc::new(FixedClock(77)));
    assert_eq!(gov.now_ms(), 77);
    gov.maybe_request_approval(&"plan-1".to_string(), &risky_subtask())
        .unwrap();
    gov.maybe_request_approval(&"plan-1".to_string(), &risky_subtask())
        .unwrap();
    assert_eq!(*notifier.seen.lock().unwrap(), vec!["appr-step-risky".to_string()]);
}

use mofa_orchestrator::hitl::WaitAction;

#[test]
fn wait_step_follows_the_request() {
    let mut gov = HitlGovernor::new();
    assert_eq!(gov.wait_step("appr-step-risky", false).unwrap(), WaitAction::KeepWaiting);
    gov.maybe_request_approval(&"p".to_string(), &risky_subtask()).unwrap();
    assert_eq!(gov.wait_step("appr-step-risky", false).unwrap(), WaitAction::KeepWaiting);
    gov.apply(ApprovalDecision {
        approval_id: "appr-step-risky".into(),
        approved: true,
        reason: None,
    })
    .unwrap();
    assert_eq!(
        gov.wait_step("appr-step-risky", false).unwrap(),
        WaitAction::Decided(ApprovalStatus::Approved)
    );
    match gov.wait_step("appr-step-risky", true) {
        Err(OrchestratorError::Approval(m)) => assert_eq!(m, "approval wait timed out"),
        other => panic!("unexpected {:?}", other),
    }
}

use mofa_orchestrator::error::OrchestratorResult;
use mofa_orchestrator::storage::{ApprovalStore, MemoryApprovalStore};

/// A store that is always out of service.
struct DownStore;

impl ApprovalStore for DownStore {
    /// Only the verifier reads a store's contents through this function.
    fn approvals(&self) -> vstd::map::Map<vstd::seq::Seq<char>, mofa_orchestrator::models::ApprovalView> {
        unreachable!()
    }

    fn insert(&mut self, _req: ApprovalRequest) -> OrchestratorResult<()> {
        Err(OrchestratorError::Internal("store down".into()))
    }

    fn get(&self, _id: &String) -> OrchestratorResult<Option<ApprovalRequest>> {
        Err(OrchestratorError::Internal("store down".into()))
    }

    fn update_status(&mut self, _id: &String, _status: ApprovalStatus) -> OrchestratorResult<()> {
        Err(OrchestratorError::Internal("store down".into()))
    }

    fn list_pending(&self) -> OrchestratorResult<Vec<ApprovalRequest>> {
        Err(OrchestratorError::Internal("store down".into()))
    }
}

#[test]
fn store_errors_reach_the_caller() {
    let notifier = Arc::new(TestNotifier::default());
    let mut gov = HitlGovernor::with_store(DownStore).with_notifier(notifier.clone());
    let err = gov
        .maybe_request_approval(&"plan-1".to_string(), &risky_subtask())
        .unwrap_err();
    assert!(matches!(err, OrchestratorError::Internal(ref m) if m == "store down"));
    assert!(notifier.seen.lock().unwrap().is_empty());
    assert!(gov.pending().is_err());
    assert!(gov.escalate_expired(10).is_err());
    assert!(gov.get("appr-step-risky").is_err());
}

#[test]
fn governor_over_a_given_store_keeps_it() {
    let mut store = MemoryApprovalStore::new();
    store
        .insert(ApprovalRequest {
            id: "appr-x".into(),
            plan_id: "p".into(),
            subtask_id: "x".into(),
            rationale: "r".into(),
            status: ApprovalStatus::Pending,
            expires_at_ms: Some(5),
            escalation_ms: None,
            escalation_level: None,
        })
        .unwrap();
    let mut gov = HitlGovernor::with_store(store);
    gov.escalate_expired(5).unwrap();
    let store = gov.into_store();
    assert_eq!(store.get(&"appr-x".to_string()).unwrap().unwrap().status, ApprovalStatus::Escalated);
}

use mofa_orchestrator::hitl::{decide_existing, due_ids, wait_decision};

fn request_with(id: &str, status: ApprovalStatus, expires_at_ms: Option<u64>) -> ApprovalRequest {
    ApprovalRequest {
        id: id.into(),
        plan_id: "p".into(),
        subtask_id: "s".into(),
        rationale: "r".into(),
        status,
        expires_at_ms,
        escalation_ms: None,
        escalation_level: None,
    }
}

#[test]
fn low_risk_subtask_skips_a_failing_store() {
    let mut gov = HitlGovernor::with_store(DownStore);
    let mut sub = risky_subtask();
    sub.risk_level = Some(RiskLevel::Low);
    assert!(gov.maybe_request_approval(&"p".to_string(), &sub).unwrap().is_none());
    sub.risk_level = None;
    assert!(gov.maybe_request_approval(&"p".to_string(), &sub).unwrap().is_none());
}

#[test]
fn decide_existing_follows_the_stored_status() {
    let sub = risky_subtask();
    assert!(decide_existing(None, &sub).is_none());
    let pending = request_with("appr-step-risky", ApprovalStatus::Pending, None);
    let reused = decide_existing(Some(pending), &sub).unwrap().unwrap().unwrap();
    assert_eq!(reused.id, "appr-step-risky");
    let approved = request_with("appr-step-risky", ApprovalStatus::Approved, None);
    assert!(decide_existing(Some(approved), &sub).unwrap().unwrap().is_none());
    let rejected = request_with("appr-step-risky", ApprovalStatus::Rejected, None);
    match decide_existing(Some(rejected), &sub).unwrap() {
        Err(OrchestratorError::Approval(m)) => {
            assert_eq!(m, "subtask step-risky approval not in approvable state")
        }
        _ => panic!("expected an approval error"),
    }
}

#[test]
fn wait_decision_ends_on_a_decided_request() {
    assert_eq!(wait_decision(None), WaitAction::KeepWaiting);
    let pending = request_with("a", ApprovalStatus::Pending, None);
    assert_eq!(wait_decision(Some(pending)), WaitAction::KeepWaiting);
    let escalated = request_with("a", ApprovalStatus::Escalated, None);
    assert_eq!(wait_decision(Some(escalated)), WaitAction::Decided(ApprovalStatus::Escalated));
}

#[test]
fn due_ids_keeps_order_and_reached_expiries() {
    let pending = vec![
        request_with("a", ApprovalStatus::Pending, Some(5)),
        request_with("b", ApprovalStatus::Pending, None),
        request_with("c", ApprovalStatus::Pending, Some(10)),
        request_with("d", ApprovalStatus::Pending, Some(11)),
    ];
    assert_eq!(due_ids(&pending, 10), vec!["a".to_string(), "c".to_string()]);
    assert!(due_ids(&pending, 4).is_empty());
}
