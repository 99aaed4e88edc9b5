use mofa_orchestrator::error::OrchestratorError;

#[test]
fn error_text_has_variant_prefix() {
    let cases = vec![
        (OrchestratorError::InvalidInput("x".into()), "Invalid input: x"),
        (OrchestratorError::NotFound("x".into()), "Not found: x"),
        (OrchestratorError::Dependency("x".into()), "Dependency error: x"),
        (OrchestratorError::Capability("x".into()), "Capability resolution failed: x"),
        (OrchestratorError::Pattern("x".into()), "Pattern execution failed: x"),
        (OrchestratorError::Approval("x".into()), "Approval error: x"),
        (OrchestratorError::Sla("x".into()), "SLA violation: x"),
        (OrchestratorError::Marketplace("x".into()), "Marketplace error: x"),
        (OrchestratorError::Registry("x".into()), "Registry error: x"),
        (OrchestratorError::Serialization("x".into()), "Serialization error: x"),
        (OrchestratorError::Crypto("x".into()), "Crypto error: x"),
        (OrchestratorError::Internal("x".into()), "Internal error: x"),
    ];
    for (e, text) in cases {
        assert_eq!(e.to_string(), text);
    }
    assert!(OrchestratorError::Approval("a".into()).is_approval());
    assert!(!OrchestratorError::Internal("a".into()).is_approval());
}
