use vstd::prelude::*;
use crate::text::{clone_opt_string, opt_string_view};

verus! {

/// Kinds of events kept in the audit trail.
#[derive(Debug, Clone, Copy, PartialEq, Eq, Structural)]
#[non_exhaustive]
pub enum AuditEventKind {
    PlanCreated,
    PlanStarted,
    PlanCompleted,
    PlanFailed,
    SubtaskStarted,
    SubtaskCompleted,
    SubtaskFailed,
    ApprovalRequested,
    ApprovalResolved,
    SlaBreached,
}

/// One audit-trail entry, stamped with the clock's time in milliseconds.
#[derive(Debug)]
pub struct AuditEntry {
    pub ts_ms: u64,
    pub plan_id: String,
    pub subtask_id: Option<String>,
    pub event: AuditEventKind,
    pub detail: Option<String>,
}

pub struct AuditEntryView {
    pub ts_ms: u64,
    pub plan_id: Seq<char>,
    pub subtask_id: Option<Seq<char>>,
    pub event: AuditEventKind,
    pub detail: Option<Seq<char>>,
}

/// What an audit entry records, without its time stamp.
pub struct AuditEventView {
    pub plan_id: Seq<char>,
    pub subtask_id: Option<Seq<char>>,
    pub event: AuditEventKind,
    pub detail: Option<Seq<char>>,
}

impl View for AuditEntry {
    type V = AuditEntryView;

    open spec fn view(&self) -> AuditEntryView {
        AuditEntryView {
            ts_ms: self.ts_ms,
            plan_id: self.plan_id@,
            subtask_id: opt_string_view(self.subtask_id),
            event: self.event,
            detail: opt_string_view(self.detail),
        }
    }
}

impl AuditEntryView {
    pub open spec fn event_view(self) -> AuditEventView {
        AuditEventView {
            plan_id: self.plan_id,
            subtask_id: self.subtask_id,
            event: self.event,
            detail: self.detail,
        }
    }
}

impl Clone for AuditEntry {
    fn clone(&self) -> (r: Self)
        ensures
            r@ == self@,
    {
        AuditEntry {
            ts_ms: self.ts_ms,
            plan_id: self.plan_id.clone(),
            subtask_id: clone_opt_string(&self.subtask_id),
            event: self.event,
            detail: clone_opt_string(&self.detail),
        }
    }
}

} // verus!
