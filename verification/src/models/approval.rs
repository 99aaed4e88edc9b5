use vstd::prelude::*;
use crate::text::opt_string_view;

verus! {

pub type ApprovalId = String;

/// Where an approval request stands.
#[derive(Debug, Clone, Copy, PartialEq, Eq, Structural)]
#[non_exhaustive]
pub enum ApprovalStatus {
    Pending,
    Approved,
    Rejected,
    Expired,
    Escalated,
}

/// A request for a human decision on one subtask.
#[derive(Debug)]
pub struct ApprovalRequest {
    pub id: ApprovalId,
    pub plan_id: String,
    pub subtask_id: String,
    pub rationale: String,
    pub status: ApprovalStatus,
    pub expires_at_ms: Option<u64>,
    pub escalation_ms: Option<u64>,
    pub escalation_level: Option<u32>,
}

#[verifier::ext_equal]
pub struct ApprovalView {
    pub id: Seq<char>,
    pub plan_id: Seq<char>,
    pub subtask_id: Seq<char>,
    pub rationale: Seq<char>,
    pub status: ApprovalStatus,
    pub expires_at_ms: Option<u64>,
    pub escalation_ms: Option<u64>,
    pub escalation_level: Option<u32>,
}

impl View for ApprovalRequest {
    type V = ApprovalView;

    open spec fn view(&self) -> ApprovalView {
        ApprovalView {
            id: self.id@,
            plan_id: self.plan_id@,
            subtask_id: self.subtask_id@,
            rationale: self.rationale@,
            status: self.status,
            expires_at_ms: self.expires_at_ms,
            escalation_ms: self.escalation_ms,
            escalation_level: self.escalation_level,
        }
    }
}

impl ApprovalView {
    /// The same request with another status.
    pub open spec fn with_status(self, status: ApprovalStatus) -> ApprovalView {
        ApprovalView { status, ..self }
    }
}

impl Clone for ApprovalRequest {
    fn clone(&self) -> (r: Self)
        ensures
            r@ == self@,
    {
        ApprovalRequest {
            id: self.id.clone(),
            plan_id: self.plan_id.clone(),
            subtask_id: self.subtask_id.clone(),
            rationale: self.rationale.clone(),
            status: self.status,
            expires_at_ms: self.expires_at_ms,
            escalation_ms: self.escalation_ms,
            escalation_level: self.escalation_level,
        }
    }
}

/// A human decision on an approval request.
#[derive(Debug)]
pub struct ApprovalDecision {
    pub approval_id: ApprovalId,
    pub approved: bool,
    pub reason: Option<String>,
}

pub struct ApprovalDecisionView {
    pub approval_id: Seq<char>,
    pub approved: bool,
    pub reason: Option<Seq<char>>,
}

impl View for ApprovalDecision {
    type V = ApprovalDecisionView;

    open spec fn view(&self) -> ApprovalDecisionView {
        ApprovalDecisionView {
            approval_id: self.approval_id@,
            approved: self.approved,
            reason: opt_string_view(self.reason),
        }
    }
}

} // verus!
