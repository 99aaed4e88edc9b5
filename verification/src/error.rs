use vstd::prelude::*;
use crate::text::concat2;

verus! {

/// Errors raised by the orchestrator; each variant carries a detail message.
#[derive(Debug)]
#[non_exhaustive]
pub enum OrchestratorError {
    InvalidInput(String),
    NotFound(String),
    Dependency(String),
    Capability(String),
    Pattern(String),
    Approval(String),
    Sla(String),
    Marketplace(String),
    Registry(String),
    Serialization(String),
    Crypto(String),
    Internal(String),
}

pub type OrchestratorResult<T> = Result<T, OrchestratorError>;

/// The mathematical value of an error: its variant and its message.
pub enum ErrorView {
    InvalidInput(Seq<char>),
    NotFound(Seq<char>),
    Dependency(Seq<char>),
    Capability(Seq<char>),
    Pattern(Seq<char>),
    Approval(Seq<char>),
    Sla(Seq<char>),
    Marketplace(Seq<char>),
    Registry(Seq<char>),
    Serialization(Seq<char>),
    Crypto(Seq<char>),
    Internal(Seq<char>),
}

impl View for OrchestratorError {
    type V = ErrorView;

    open spec fn view(&self) -> ErrorView {
        match self {
            OrchestratorError::InvalidInput(m) => ErrorView::InvalidInput(m@),
            OrchestratorError::NotFound(m) => ErrorView::NotFound(m@),
            OrchestratorError::Dependency(m) => ErrorView::Dependency(m@),
            OrchestratorError::Capability(m) => ErrorView::Capability(m@),
            OrchestratorError::Pattern(m) => ErrorView::Pattern(m@),
            OrchestratorError::Approval(m) => ErrorView::Approval(m@),
            OrchestratorError::Sla(m) => ErrorView::Sla(m@),
            OrchestratorError::Marketplace(m) => ErrorView::Marketplace(m@),
            OrchestratorError::Registry(m) => ErrorView::Registry(m@),
            OrchestratorError::Serialization(m) => ErrorView::Serialization(m@),
            OrchestratorError::Crypto(m) => ErrorView::Crypto(m@),
            OrchestratorError::Internal(m) => ErrorView::Internal(m@),
        }
    }
}

/// The human-readable rendering of an error: a fixed prefix per variant
/// followed by the detail message.
pub open spec fn error_text(e: ErrorView) -> Seq<char> {
    match e {
        ErrorView::InvalidInput(m) => "Invalid input: "@ + m,
        ErrorView::NotFound(m) => "Not found: "@ + m,
        ErrorView::Dependency(m) => "Dependency error: "@ + m,
        ErrorView::Capability(m) => "Capability resolution failed: "@ + m,
        ErrorView::Pattern(m) => "Pattern execution failed: "@ + m,
        ErrorView::Approval(m) => "Approval error: "@ + m,
        ErrorView::Sla(m) => "SLA violation: "@ + m,
        ErrorView::Marketplace(m) => "Marketplace error: "@ + m,
        ErrorView::Registry(m) => "Registry error: "@ + m,
        ErrorView::Serialization(m) => "Serialization error: "@ + m,
        ErrorView::Crypto(m) => "Crypto error: "@ + m,
        ErrorView::Internal(m) => "Internal error: "@ + m,
    }
}

impl OrchestratorError {
    /// Renders the error as text, as its `Display` form reads.
    pub fn to_string(&self) -> (r: String)
        ensures
            r@ == error_text(self@),
    {
        match self {
            OrchestratorError::InvalidInput(m) => concat2("Invalid input: ", m.as_str()),
            OrchestratorError::NotFound(m) => concat2("Not found: ", m.as_str()),
            OrchestratorError::Dependency(m) => concat2("Dependency error: ", m.as_str()),
            OrchestratorError::Capability(m) => concat2("Capability resolution failed: ", m.as_str()),
            OrchestratorError::Pattern(m) => concat2("Pattern execution failed: ", m.as_str()),
            OrchestratorError::Approval(m) => concat2("Approval error: ", m.as_str()),
            OrchestratorError::Sla(m) => concat2("SLA violation: ", m.as_str()),
            OrchestratorError::Marketplace(m) => concat2("Marketplace error: ", m.as_str()),
            OrchestratorError::Registry(m) => concat2("Registry error: ", m.as_str()),
            OrchestratorError::Serialization(m) => concat2("Serialization error: ", m.as_str()),
            OrchestratorError::Crypto(m) => concat2("Crypto error: ", m.as_str()),
            OrchestratorError::Internal(m) => concat2("Internal error: ", m.as_str()),
        }
    }

    /// Whether the error is an approval error.
    pub fn is_approval(&self) -> (r: bool)
        ensures
            r == (self@ is Approval),
    {
        match self {
            OrchestratorError::Approval(_) => true,
            _ => false,
        }
    }
}

} // verus!
