use mofa_orchestrator::composer::SwarmComposer;
use mofa_orchestrator::models::{CapabilityDescriptor, SubtaskSpec};
use mofa_orchestrator::patterns::CoordinationPattern;

fn spec(id: &str, deps: Vec<String>) -> SubtaskSpec {
    SubtaskSpec {
        id: id.into(),
        description: "d".into(),
        capabilities: vec![],
        complexity: 0.5f64.to_bits(),
        deps,
        risk_level: None,
        estimated_duration_secs: None,
    }
}

#[test]
fn pick_pattern_prefers_parallel_without_deps() {
    let composer = SwarmComposer::new();
    let one = vec![spec("s1", vec![])];
    let two = vec![
        one[0].clone(),
        SubtaskSpec {
            deps: vec![],
            ..one[0].clone()
        },
    ];
    assert!(matches!(
        composer.pick_pattern(&one).unwrap(),
        CoordinationPattern::Sequential
    ));
    assert!(matches!(
        composer.pick_pattern(&two).unwrap(),
        CoordinationPattern::Parallel
    ));
}

#[test]
fn pick_pattern_with_dependencies_is_sequential() {
    let composer = SwarmComposer::new();
    let specs = vec![spec("s1", vec![]), spec("s2", vec!["s1".into()])];
    assert!(matches!(
        composer.pick_pattern(&specs).unwrap(),
        CoordinationPattern::Sequential
    ));
    let empty: Vec<SubtaskSpec> = vec![];
    assert!(matches!(
        composer.pick_pattern(&empty).unwrap(),
        CoordinationPattern::Sequential
    ));
}

fn cap(id: &str, tags: &[&str]) -> CapabilityDescriptor {
    CapabilityDescriptor {
        id: id.into(),
        name: id.into(),
        description: format!("{id} capability"),
        tags: tags.iter().map(|t| t.to_string()).collect(),
        embeddings: None,
        trust_score: Some(0.8f32.to_bits()),
        availability: Some(0.5f32.to_bits()),
    }
}

#[test]
fn needs_are_matched_against_tags_ignoring_case() {
    let composer = SwarmComposer::new();
    let needs = composer.lowercase_needs(&["Write".to_string(), "READ".to_string()]);
    assert_eq!(needs, vec!["write".to_string(), "read".to_string()]);
    let writer = cap("a", &["WRITE"]);
    let reader = cap("b", &["read", "Write"]);
    assert!(composer.meets_need("write", &writer));
    assert!(!composer.meets_need("read", &writer));
    assert_eq!(composer.count_needs_met(&needs, &writer), 1);
    assert_eq!(composer.count_needs_met(&needs, &reader), 2);
}
