use vstd::prelude::*;
use crate::text::{clone_strings, strings_view};

verus! {

pub type SubtaskId = String;

/// How risky a subtask is; high and critical risk need human approval.
#[derive(Debug, Clone, Copy, PartialEq, Eq, Structural)]
#[non_exhaustive]
pub enum RiskLevel {
    Low,
    Medium,
    High,
    Critical,
}

impl RiskLevel {
    /// High and critical risk need a human in the loop.
    pub open spec fn needs_hitl(self) -> bool {
        self is High || self is Critical
    }

    pub fn requires_hitl(self) -> (r: bool)
        ensures
            r == self.needs_hitl(),
    {
        match self {
            RiskLevel::High | RiskLevel::Critical => true,
            _ => false,
        }
    }
}

/// Progress of one subtask.
#[derive(Debug, Clone, Copy, PartialEq, Eq, Structural)]
#[non_exhaustive]
pub enum SubtaskStatus {
    Pending,
    Running,
    Completed,
    Failed,
    Skipped,
    WaitingApproval,
}

/// A unit of work produced by the analyzer.  `complexity` holds the IEEE-754
/// bit pattern of the estimated complexity (an `f64`).
#[derive(Debug)]
pub struct SubtaskSpec {
    pub id: SubtaskId,
    pub description: String,
    pub capabilities: Vec<String>,
    pub complexity: u64,
    pub deps: Vec<SubtaskId>,
    pub risk_level: Option<RiskLevel>,
    pub estimated_duration_secs: Option<u64>,
}

pub struct SubtaskSpecView {
    pub id: Seq<char>,
    pub description: Seq<char>,
    pub capabilities: Seq<Seq<char>>,
    pub complexity: u64,
    pub deps: Seq<Seq<char>>,
    pub risk_level: Option<RiskLevel>,
    pub estimated_duration_secs: Option<u64>,
}

impl View for SubtaskSpec {
    type V = SubtaskSpecView;

    open spec fn view(&self) -> SubtaskSpecView {
        SubtaskSpecView {
            id: self.id@,
            description: self.description@,
            capabilities: strings_view(self.capabilities@),
            complexity: self.complexity,
            deps: strings_view(self.deps@),
            risk_level: self.risk_level,
            estimated_duration_secs: self.estimated_duration_secs,
        }
    }
}

impl SubtaskSpecView {
    /// The subtask must be approved by a human before it runs.
    pub open spec fn needs_hitl(self) -> bool {
        match self.risk_level {
            Some(r) => r.needs_hitl(),
            None => false,
        }
    }
}

impl Clone for SubtaskSpec {
    fn clone(&self) -> (r: Self)
        ensures
            r@ == self@,
    {
        SubtaskSpec {
            id: self.id.clone(),
            description: self.description.clone(),
            capabilities: clone_strings(&self.capabilities),
            complexity: self.complexity,
            deps: clone_strings(&self.deps),
            risk_level: self.risk_level,
            estimated_duration_secs: self.estimated_duration_secs,
        }
    }
}

/// The views of a sequence of subtask specs.
pub open spec fn specs_view(v: Seq<SubtaskSpec>) -> Seq<SubtaskSpecView> {
    v.map_values(|s: SubtaskSpec| s@)
}

/// A subtask with its run-time state.  `complexity` holds the IEEE-754 bit
/// pattern of an `f64`.
#[derive(Debug)]
pub struct Subtask {
    pub id: SubtaskId,
    pub description: String,
    pub capabilities: Vec<String>,
    pub complexity: u64,
    pub status: SubtaskStatus,
    pub risk_level: RiskLevel,
    pub estimated_duration_secs: Option<u64>,
    pub hitl_required: bool,
}

/// Bit pattern of the `f64` value `0.5`, the default complexity.
pub const DEFAULT_COMPLEXITY_BITS: u64 = 0x3FE0_0000_0000_0000u64;

impl Subtask {
    /// A pending, medium-risk subtask with default complexity and no
    /// capabilities.
    pub fn new(id: &str, description: &str) -> (r: Self)
        ensures
            r.id@ == id@,
            r.description@ == description@,
            r.capabilities@.len() == 0,
            r.complexity == DEFAULT_COMPLEXITY_BITS,
            r.status == SubtaskStatus::Pending,
            r.risk_level == RiskLevel::Medium,
            r.estimated_duration_secs is None,
            !r.hitl_required,
    {
        Subtask {
            id: id.to_string(),
            description: description.to_string(),
            capabilities: Vec::new(),
            complexity: DEFAULT_COMPLEXITY_BITS,
            status: SubtaskStatus::Pending,
            risk_level: RiskLevel::Medium,
            estimated_duration_secs: None,
            hitl_required: false,
        }
    }
}

/// An ordering edge between two subtasks.
#[derive(Debug)]
pub struct Dependency {
    pub from: SubtaskId,
    pub to: SubtaskId,
    pub kind: DependencyKind,
}

#[derive(Debug, Clone, Copy, PartialEq, Eq, Structural)]
#[non_exhaustive]
pub enum DependencyKind {
    Sequential,
}

} // verus!
