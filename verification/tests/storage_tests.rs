use mofa_orchestrator::models::plan::{ExecutionPlan, PlanId, PlanNode, PlanStatus};
use mofa_orchestrator::models::{ApprovalRequest, ApprovalStatus, AuditEntry, AuditEventKind, SubtaskStatus};
use mofa_orchestrator::storage::{
    ApprovalStore, AuditStore, MemoryApprovalStore, MemoryAuditStore, MemoryPlanStore, PlanStore,
};

fn request(id: &str, status: ApprovalStatus) -> ApprovalRequest {
    ApprovalRequest {
        id: id.into(),
        plan_id: "p1".into(),
        subtask_id: "s1".into(),
        rationale: "need".into(),
        status,
        expires_at_ms: None,
        escalation_ms: None,
        escalation_level: None,
    }
}

#[test]
fn memory_plan_store_roundtrip() {
    let mut store = MemoryPlanStore::default();
    let plan = ExecutionPlan {
        id: PlanId::from("p1"),
        name: "demo".into(),
        status: PlanStatus::Pending,
        nodes: vec![PlanNode {
            subtask_id: "s1".into(),
            status: SubtaskStatus::Pending,
        }],
    };
    store.insert(plan.clone()).unwrap();
    let fetched = store.get(&PlanId::from("p1")).unwrap().unwrap();
    assert_eq!(fetched.name, "demo");
    store
        .update_status(&PlanId::from("p1"), PlanStatus::Completed)
        .unwrap();
    let updated = store.get(&PlanId::from("p1")).unwrap().unwrap();
    assert_eq!(updated.status, PlanStatus::Completed);
}

#[test]
fn memory_approval_store_roundtrip() {
    let mut store = MemoryApprovalStore::default();
    let req = request("a1", ApprovalStatus::Pending);
    store.insert(req.clone()).unwrap();
    let fetched = store.get(&"a1".into()).unwrap().unwrap();
    assert_eq!(fetched.plan_id, "p1");
    store
        .update_status(&"a1".into(), ApprovalStatus::Approved)
        .unwrap();
    let pending = store.list_pending().unwrap();
    assert!(pending.is_empty());
}

#[test]
fn insert_replaces_and_missing_update_is_a_no_op() {
    let mut store = MemoryApprovalStore::new();
    store.insert(request("a1", ApprovalStatus::Approved)).unwrap();
    store.insert(request("a1", ApprovalStatus::Pending)).unwrap();
    store.insert(request("a2", ApprovalStatus::Pending)).unwrap();
    store.insert(request("a3", ApprovalStatus::Rejected)).unwrap();
    store.update_status(&"nope".into(), ApprovalStatus::Approved).unwrap();
    assert!(store.get(&"nope".into()).unwrap().is_none());
    let mut ids: Vec<String> = store.list_pending().unwrap().into_iter().map(|r| r.id).collect();
    ids.sort();
    assert_eq!(ids, vec!["a1".to_string(), "a2".to_string()]);
    let a3 = store.get(&"a3".into()).unwrap().unwrap();
    assert_eq!(a3.status, ApprovalStatus::Rejected);
    assert_eq!(a3.rationale, "need");
}

#[test]
fn plan_store_get_of_unknown_id_is_none() {
    let mut store = MemoryPlanStore::new();
    assert!(store.get(&"p9".to_string()).unwrap().is_none());
    store.update_status(&"p9".to_string(), PlanStatus::Failed).unwrap();
    assert!(store.get(&"p9".to_string()).unwrap().is_none());
}

#[test]
fn audit_store_keeps_order() {
    let mut store = MemoryAuditStore::new();
    for (i, kind) in [AuditEventKind::PlanStarted, AuditEventKind::PlanCompleted].into_iter().enumerate() {
        store
            .append(AuditEntry {
                ts_ms: i as u64,
                plan_id: "p".into(),
                subtask_id: None,
                event: kind,
                detail: None,
            })
            .unwrap();
    }
    let all = store.all().unwrap();
    assert_eq!(all.len(), 2);
    assert_eq!(all[0].event, AuditEventKind::PlanStarted);
    assert_eq!(all[1].ts_ms, 1);
}
