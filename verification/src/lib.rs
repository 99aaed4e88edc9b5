//! Cognitive swarm orchestrator: task analysis, capability matching,
//! coordination patterns, human-in-the-loop approvals, governance and
//! marketplace checks, with their behaviour stated as Verus contracts.

pub mod error;
pub mod text;
pub mod models;
pub mod storage;
pub mod governance;
pub mod hitl;
pub mod patterns;
pub mod analyzer;
pub mod composer;
pub mod registry;
pub mod api;
pub mod marketplace;

pub use error::OrchestratorError;
