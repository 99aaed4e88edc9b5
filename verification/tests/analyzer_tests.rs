use mofa_orchestrator::analyzer::{subtasks_from_sentences, TaskAnalyzer};
use mofa_orchestrator::error::OrchestratorError;
use mofa_orchestrator::models::RiskLevel;

#[test]
fn analyzer_rejects_empty() {
    let analyzer = TaskAnalyzer::new();
    let err = analyzer.analyze_offline("   ").unwrap_err();
    assert!(matches!(err, OrchestratorError::InvalidInput(_)));
}

#[test]
fn analyzer_splits_sentences_and_sets_risk() {
    let analyzer = TaskAnalyzer::new();
    let specs = analyzer
        .analyze_offline("First sentence. Second sentence!")
        .unwrap();
    assert_eq!(specs.len(), 2);
    assert_eq!(specs[0].id, "step-1");
    assert!(specs[0].deps.is_empty());
    assert_eq!(specs[1].deps, vec!["step-1".to_string()]);
    assert!(matches!(specs[0].risk_level, Some(RiskLevel::Critical)));
    assert!(matches!(specs[1].risk_level, Some(RiskLevel::Low)));
}

#[test]
fn analyzer_empty_message_is_exact() {
    let err = TaskAnalyzer::new().analyze_offline("").unwrap_err();
    match err {
        OrchestratorError::InvalidInput(m) => assert_eq!(m, "task is empty"),
        other => panic!("unexpected error {:?}", other),
    }
}

#[test]
fn analyzer_builds_a_chain_of_trimmed_sentences() {
    let specs = TaskAnalyzer::new()
        .analyze_offline("  collect requirements.   write draft!  review it?  ")
        .unwrap();
    assert_eq!(specs.len(), 3);
    assert_eq!(specs[0].description, "collect requirements");
    assert_eq!(specs[1].description, "write draft");
    assert_eq!(specs[2].description, "review it");
    assert_eq!(specs[2].id, "step-3");
    assert_eq!(specs[2].deps, vec!["step-2".to_string()]);
    assert!(matches!(specs[2].risk_level, Some(RiskLevel::Low)));
    assert_eq!(specs[0].complexity, 0.5f64.to_bits());
    assert!(specs[0].capabilities.is_empty());
    assert_eq!(specs[0].estimated_duration_secs, None);
}

#[test]
fn sentences_without_content_produce_no_subtasks() {
    let pieces = vec!["  ".to_string(), "\t".to_string()];
    let err = subtasks_from_sentences(&pieces).unwrap_err();
    match err {
        OrchestratorError::InvalidInput(m) => assert_eq!(m, "no subtasks produced"),
        other => panic!("unexpected error {:?}", other),
    }
}

#[test]
fn blank_pieces_are_skipped_and_numbering_stays_dense() {
    let pieces = vec![
        " a ".to_string(),
        "   ".to_string(),
        "b".to_string(),
        "".to_string(),
        "c".to_string(),
        "d".to_string(),
        "e".to_string(),
        "f".to_string(),
        "g".to_string(),
        "h".to_string(),
        "i".to_string(),
        "j".to_string(),
    ];
    let specs = subtasks_from_sentences(&pieces).unwrap();
    assert_eq!(specs.len(), 10);
    assert_eq!(specs[0].description, "a");
    assert_eq!(specs[1].id, "step-2");
    assert_eq!(specs[1].description, "b");
    assert_eq!(specs[9].id, "step-10");
    assert_eq!(specs[9].deps, vec!["step-9".to_string()]);
}
