use mofa_orchestrator::governance::{Governance, GovernanceMetrics, GovernanceMetricsSnapshot};
use mofa_orchestrator::models::AuditEventKind;

#[test]
fn governance_metrics_increment_and_snapshot() {
    let mut gov = Governance::new();
    gov.record_plan_started("plan-1");
    gov.record_subtask_started("plan-1", "step-1");
    gov.record_subtask_completed("plan-1", "step-1");
    gov.record_approval_requested("plan-1", "step-1");
    gov.record_approval_resolved("plan-1", "step-1", None);
    gov.record_plan_completed("plan-1");

    let snapshot = gov.metrics_snapshot();
    assert_eq!(
        snapshot,
        GovernanceMetricsSnapshot {
            approvals_requested: 1,
            approvals_resolved: 1,
            approvals_escalated: 0,
            subtasks_started: 1,
            subtasks_completed: 1,
            subtasks_failed: 0,
            plans_started: 1,
            plans_completed: 1,
            plans_failed: 0,
        }
    );
    assert_eq!(gov.entries().len(), 6);
}

#[test]
fn failures_are_counted_and_audited_in_order() {
    let mut gov = Governance::new();
    gov.record_subtask_failed("p", "s", Some("boom".to_string()));
    gov.record_plan_failed("p", None);
    gov.record_subtask_failed("p", "t", None);
    let snap = gov.metrics_snapshot();
    assert_eq!(snap.subtasks_failed, 2);
    assert_eq!(snap.plans_failed, 1);
    assert_eq!(snap.subtasks_started, 0);
    let entries = gov.entries();
    assert_eq!(entries.len(), 3);
    assert_eq!(entries[0].event, AuditEventKind::SubtaskFailed);
    assert_eq!(entries[0].detail, Some("boom".to_string()));
    assert_eq!(entries[0].subtask_id, Some("s".to_string()));
    assert_eq!(entries[1].event, AuditEventKind::PlanFailed);
    assert_eq!(entries[1].subtask_id, None);
    assert_eq!(entries[2].subtask_id, Some("t".to_string()));
}

#[test]
fn fresh_metrics_are_zero() {
    let metrics = GovernanceMetrics::default();
    assert_eq!(metrics.snapshot(), GovernanceMetricsSnapshot::default());
    let gov = Governance::new();
    assert_eq!(gov.metrics_snapshot(), GovernanceMetricsSnapshot::default());
    assert_eq!(gov.metrics_handle().snapshot(), GovernanceMetricsSnapshot::default());
    assert!(gov.entries().is_empty());
}

#[test]
fn sla_deadline_is_kept() {
    let mut gov = Governance::new();
    assert_eq!(gov.sla_deadline(), None);
    gov.set_sla_deadline(42);
    assert_eq!(gov.sla_deadline(), Some(42));
}

struct FixedClock(u64);

impl mofa_orchestrator::governance::Clock for FixedClock {
    fn now_millis(&self) -> u64 {
        self.0
    }
}

#[test]
fn injected_clock_stamps_entries() {
    let mut gov = Governance::with_clock(Box::new(FixedClock(42)));
    assert_eq!(gov.now_ms(), 42);
    assert!(gov.entries().is_empty());
    assert_eq!(gov.sla_deadline(), None);
    assert_eq!(gov.metrics_snapshot(), GovernanceMetricsSnapshot::default());
    gov.record_plan_started("p");
    gov.record_subtask_started("p", "s");
    assert!(gov.entries().iter().all(|e| e.ts_ms == 42));
}
