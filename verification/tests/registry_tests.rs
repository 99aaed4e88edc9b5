use mofa_orchestrator::error::OrchestratorError;
use mofa_orchestrator::models::CapabilityDescriptor;
use mofa_orchestrator::registry::CapabilityRegistry;
use mofa_orchestrator::text::decimal_string;

fn cap(id: &str, name: &str, description: &str, tags: &[&str]) -> CapabilityDescriptor {
    CapabilityDescriptor {
        id: id.into(),
        name: name.into(),
        description: description.into(),
        tags: tags.iter().map(|t| t.to_string()).collect(),
        embeddings: None,
        trust_score: None,
        availability: None,
    }
}

#[test]
fn publish_then_get_finds_first_with_id() {
    let mut reg = CapabilityRegistry::new();
    reg.publish(cap("cap-a", "PDF Extract", "extract text", &["pdf", "extract"]))
        .unwrap();
    reg.publish(cap("cap-b", "Image Tagger", "tags images", &["vision"]))
        .unwrap();
    reg.publish(cap("cap-a", "Other", "later", &[])).unwrap();
    assert_eq!(reg.entries().len(), 3);
    assert_eq!(reg.get(&"cap-a".to_string()).unwrap().name, "PDF Extract");
    assert_eq!(reg.get(&"cap-b".to_string()).unwrap().name, "Image Tagger");
    assert!(reg.get(&"cap-z".to_string()).is_none());
}

#[test]
fn publish_refuses_empty_id() {
    let mut reg = CapabilityRegistry::new();
    match reg.publish(cap("", "n", "d", &[])) {
        Err(OrchestratorError::InvalidInput(m)) => assert_eq!(m, "capability id is empty"),
        other => panic!("unexpected {:?}", other),
    }
    assert!(reg.entries().is_empty());
}

#[test]
fn keyword_score_counts_name_description_and_tags() {
    let reg = CapabilityRegistry::new();
    let d = cap("cap-a", "PDF Extract", "extract text", &["pdf", "Extract"]);
    assert_eq!(reg.keyword_score_halves("extract", &d), 4);
    assert_eq!(reg.keyword_score_halves("text", &d), 1);
    assert_eq!(reg.keyword_score_halves("pdf", &d), 3);
    assert_eq!(reg.keyword_score_halves("vision", &d), 0);
}

#[test]
fn decimal_rendering() {
    assert_eq!(decimal_string(0), "0");
    assert_eq!(decimal_string(7), "7");
    assert_eq!(decimal_string(1234), "1234");
}
