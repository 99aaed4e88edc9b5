//! Data model of the orchestrator: tasks, plans, approvals, audit entries,
//! capabilities and plugin manifests.

pub mod approval;
pub mod audit;
pub mod plan;
pub mod plugin_manifest;
pub mod registry;
pub mod task;

pub use approval::{ApprovalDecision, ApprovalId, ApprovalRequest, ApprovalStatus, ApprovalView};
pub use audit::{AuditEntry, AuditEntryView, AuditEventKind, AuditEventView};
pub use plan::{ExecutionPlan, PlanId, PlanNode, PlanNodeView, PlanStatus, PlanView};
pub use plugin_manifest::{PluginDependency, PluginId, PluginManifest, Signature};
pub use registry::{CapabilityDescriptor, CapabilityId};
pub use task::{
    Dependency, DependencyKind, RiskLevel, Subtask, SubtaskId, SubtaskSpec, SubtaskSpecView,
    SubtaskStatus,
};
