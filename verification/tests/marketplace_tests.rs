use base64::Engine;
use ed25519_dalek::{Signer, SigningKey};
use mofa_orchestrator::error::OrchestratorError;
use mofa_orchestrator::marketplace::{Resolver, SignatureVerifier};
use mofa_orchestrator::models::{PluginDependency, PluginManifest, Signature};

fn empty_object() -> serde_json::Value {
    serde_json::Value::Object(serde_json::Map::new())
}

fn manifest_with_deps(deps: Vec<PluginDependency>) -> PluginManifest {
    PluginManifest {
        id: "m1".into(),
        version: "0.1.0".into(),
        dependencies: deps,
        content_hash: "hash".into(),
        signature: None,
        metadata: serde_json::Value::Null,
    }
}

fn dep(id: &str, req: &str) -> PluginDependency {
    PluginDependency {
        id: id.into(),
        version_req: req.into(),
    }
}

#[test]
fn resolver_rejects_duplicate_dep_ids() {
    let resolver = Resolver::default();
    let manifest = manifest_with_deps(vec![dep("a", "^1.0.0"), dep("a", "^1.0.0")]);
    let err = resolver.resolve(&manifest).unwrap_err();
    assert!(matches!(err, OrchestratorError::Dependency(_)));
}

#[test]
fn mod_signature_verifier_rejects_missing_signature() {
    let verifier = SignatureVerifier::default();
    let manifest = manifest_with_deps(vec![]);
    let pk_bytes = [0u8; 32];
    let key = ed25519_dalek::VerifyingKey::from_bytes(&pk_bytes)
        .unwrap_or_else(|_| ed25519_dalek::VerifyingKey::from_bytes(&[1u8; 32]).unwrap());
    let err = verifier.verify(&manifest, &key.to_bytes()).unwrap_err();
    assert!(matches!(err, OrchestratorError::Crypto(_)));
}

#[test]
fn resolver_validates_versions() {
    let manifest = PluginManifest {
        id: "plugin-a".into(),
        version: "1.2.3".into(),
        dependencies: vec![dep("dep", ">=1.0")],
        content_hash: "abc".into(),
        signature: None,
        metadata: empty_object(),
    };
    let resolver = Resolver::default();
    let deps = resolver.resolve(&manifest).unwrap();
    assert_eq!(deps.len(), 1);
}

#[test]
fn resolver_rejects_duplicate_deps() {
    let manifest = PluginManifest {
        id: "plugin-a".into(),
        version: "1.2.3".into(),
        dependencies: vec![dep("dep", ">=1.0"), dep("dep", ">=1.0")],
        content_hash: "abc".into(),
        signature: None,
        metadata: empty_object(),
    };
    let resolver = Resolver::default();
    let err = resolver.resolve(&manifest).unwrap_err();
    assert!(matches!(err, OrchestratorError::Dependency(_)));
}

#[test]
fn marketplace_tests_signature_verifier_rejects_missing_signature() {
    let verifier = SignatureVerifier::default();
    let manifest = PluginManifest {
        id: "plugin-a".into(),
        version: "1.0.0".into(),
        dependencies: vec![],
        content_hash: "abc".into(),
        signature: None,
        metadata: empty_object(),
    };
    let key = SigningKey::from_bytes(&[1u8; 32]);
    let public = key.verifying_key();
    let err = verifier.verify(&manifest, &public.to_bytes()).unwrap_err();
    assert!(matches!(err, OrchestratorError::Crypto(_)));
}

fn signed_manifest(key: &SigningKey, content_hash: &str, signed: &[u8]) -> PluginManifest {
    let sig = key.sign(signed);
    let sig_b64 = base64::prelude::BASE64_STANDARD.encode(sig.to_bytes());
    PluginManifest {
        id: "plugin-a".into(),
        version: "1.0.0".into(),
        dependencies: vec![],
        content_hash: content_hash.into(),
        signature: Some(Signature {
            public_key_id: "test-key".into(),
            signature_b64: sig_b64,
        }),
        metadata: empty_object(),
    }
}

#[test]
fn signature_verifier_accepts_valid_signature() {
    let key = SigningKey::from_bytes(&[2u8; 32]);
    let public = key.verifying_key();
    let manifest = signed_manifest(&key, "abc", "abc".as_bytes());
    let verifier = SignatureVerifier::default();
    verifier.verify(&manifest, &public.to_bytes()).unwrap();
}

#[test]
fn missing_signature_message_is_exact() {
    let err = SignatureVerifier::default()
        .verify(&manifest_with_deps(vec![]), &[3u8; 32])
        .unwrap_err();
    assert_eq!(err.to_string(), "Crypto error: missing signature");
}

#[test]
fn signature_over_other_content_is_refused() {
    let key = SigningKey::from_bytes(&[2u8; 32]);
    let manifest = signed_manifest(&key, "abc", "abd".as_bytes());
    match SignatureVerifier::default().verify(&manifest, &key.verifying_key().to_bytes()) {
        Err(OrchestratorError::Crypto(m)) => {
            assert!(m.starts_with("signature verification failed: "), "{m}")
        }
        other => panic!("unexpected {:?}", other),
    }
}

#[test]
fn signature_under_other_key_is_refused() {
    let key = SigningKey::from_bytes(&[2u8; 32]);
    let other = SigningKey::from_bytes(&[4u8; 32]);
    let manifest = signed_manifest(&key, "abc", "abc".as_bytes());
    let err = SignatureVerifier::default()
        .verify(&manifest, &other.verifying_key().to_bytes())
        .unwrap_err();
    assert!(matches!(err, OrchestratorError::Crypto(_)));
}

#[test]
fn bad_base64_and_bad_length_are_refused() {
    let key = SigningKey::from_bytes(&[2u8; 32]);
    let mut manifest = signed_manifest(&key, "abc", "abc".as_bytes());
    manifest.signature.as_mut().unwrap().signature_b64 = "not base64!".into();
    match SignatureVerifier::default().verify(&manifest, &key.verifying_key().to_bytes()) {
        Err(OrchestratorError::Crypto(m)) => assert!(m.starts_with("invalid signature b64: "), "{m}"),
        other => panic!("unexpected {:?}", other),
    }
    manifest.signature.as_mut().unwrap().signature_b64 =
        base64::prelude::BASE64_STANDARD.encode([7u8; 63]);
    match SignatureVerifier::default().verify(&manifest, &key.verifying_key().to_bytes()) {
        Err(OrchestratorError::Crypto(m)) => assert_eq!(m, "signature length invalid"),
        other => panic!("unexpected {:?}", other),
    }
}

#[test]
fn signature_bytes_and_check_result_map_outcomes() {
    let bytes: Vec<u8> = (0u8..64).collect();
    let arr = SignatureVerifier::signature_bytes(Ok(bytes.clone())).unwrap();
    assert_eq!(arr.to_vec(), bytes);
    match SignatureVerifier::signature_bytes(Ok(vec![1, 2, 3])) {
        Err(OrchestratorError::Crypto(m)) => assert_eq!(m, "signature length invalid"),
        other => panic!("unexpected {:?}", other),
    }
    match SignatureVerifier::signature_bytes(Err("bad".into())) {
        Err(OrchestratorError::Crypto(m)) => assert_eq!(m, "invalid signature b64: bad"),
        other => panic!("unexpected {:?}", other),
    }
    assert!(SignatureVerifier::check_result(Ok(())).is_ok());
    match SignatureVerifier::check_result(Err("nope".into())) {
        Err(OrchestratorError::Crypto(m)) => assert_eq!(m, "signature verification failed: nope"),
        other => panic!("unexpected {:?}", other),
    }
}

#[test]
fn invalid_versions_are_marketplace_errors() {
    let mut manifest = manifest_with_deps(vec![dep("a", "^1.0.0")]);
    manifest.version = "one".into();
    match Resolver::default().resolve(&manifest) {
        Err(OrchestratorError::Marketplace(m)) => assert!(m.starts_with("invalid version: "), "{m}"),
        other => panic!("unexpected {:?}", other),
    }
    let manifest = manifest_with_deps(vec![dep("a", "^1.0.0"), dep("b", "not a req")]);
    match Resolver::default().resolve(&manifest) {
        Err(OrchestratorError::Marketplace(m)) => {
            assert!(m.starts_with("invalid dep version req: "), "{m}")
        }
        other => panic!("unexpected {:?}", other),
    }
}

#[test]
fn first_problem_in_order_wins() {
    let resolver = Resolver::default();
    // The bad requirement comes before the repeated id.
    let manifest = manifest_with_deps(vec![dep("a", "!!"), dep("a", "^1")]);
    assert!(matches!(resolver.resolve(&manifest), Err(OrchestratorError::Marketplace(_))));
    // The repeated id comes before the bad requirement.
    let manifest = manifest_with_deps(vec![dep("a", "^1"), dep("a", "!!")]);
    match resolver.resolve(&manifest) {
        Err(OrchestratorError::Dependency(m)) => assert_eq!(m, "duplicate dependency id: a"),
        other => panic!("unexpected {:?}", other),
    }
}

#[test]
fn resolve_with_uses_the_given_parse_outcomes() {
    let resolver = Resolver::default();
    let manifest = manifest_with_deps(vec![dep("a", "x"), dep("b", "y")]);
    let ok = resolver
        .resolve_with(&manifest, None, &vec![None, None])
        .unwrap();
    assert_eq!(ok.len(), 2);
    assert_eq!(ok[1].id, "b");
    assert_eq!(ok[1].version_req, "y");
    match resolver.resolve_with(&manifest, Some("bad".into()), &vec![None, None]) {
        Err(OrchestratorError::Marketplace(m)) => assert_eq!(m, "invalid version: bad"),
        other => panic!("unexpected {:?}", other),
    }
    match resolver.resolve_with(&manifest, None, &vec![None, Some("oops".into())]) {
        Err(OrchestratorError::Marketplace(m)) => assert_eq!(m, "invalid dep version req: oops"),
        other => panic!("unexpected {:?}", other),
    }
}
