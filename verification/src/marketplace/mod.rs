//! Marketplace checks on plugin manifests: SemVer validation with duplicate
//! detection, and ed25519 signature verification over the content hash.

use vstd::prelude::*;
use base64::Engine;
use crate::error::{ErrorView, OrchestratorError, OrchestratorResult};
use crate::models::plugin_manifest::{deps_view, PluginDependencyView};
use crate::models::{PluginDependency, PluginManifest};
use crate::text::{concat2, opt_string_view};

verus! {

/// The rendered error of `semver::Version::parse` on `text`, or `None`
/// when it parses.
pub uninterp spec fn semver_version_error(text: Seq<char>) -> Option<Seq<char>>;

/// The rendered error of `semver::VersionReq::parse` on `text`, or `None`
/// when it parses.
pub uninterp spec fn semver_req_error(text: Seq<char>) -> Option<Seq<char>>;

/// What decoding `text` (its UTF-8 bytes) with the standard base64
/// alphabet and padding gives: the bytes, or the rendered decode error.
pub uninterp spec fn base64_standard_decode(text: Seq<char>) -> Result<Seq<u8>, Seq<char>>;

/// What ed25519 strict verification says of `signature` over the UTF-8
/// bytes of `message` under the key whose compressed form is `public_key`:
/// `None` when the signature is accepted, else the rendered error (also
/// when `public_key` does not decompress to a curve point).
pub uninterp spec fn ed25519_strict_check(
    public_key: Seq<u8>,
    message: Seq<char>,
    signature: Seq<u8>,
) -> Option<Seq<char>>;

/// Parses `text` with `semver::Version::parse`; the contract says only
/// that the outcome is the named one.
#[verifier::external_body]
fn version_parse_error(text: &str) -> (r: Option<String>)
    ensures
        opt_string_view(r) == semver_version_error(text@),
{
    semver::Version::parse(text).err().map(|e| e.to_string())
}

/// Parses `text` with `semver::VersionReq::parse`; the contract says only
/// that the outcome is the named one.
#[verifier::external_body]
fn version_req_parse_error(text: &str) -> (r: Option<String>)
    ensures
        opt_string_view(r) == semver_req_error(text@),
{
    semver::VersionReq::parse(text).err().map(|e| e.to_string())
}

/// Decodes `text` with `base64::prelude::BASE64_STANDARD.decode_vec` into
/// an empty buffer; the contract says only that the outcome is the named
/// one.
#[verifier::external_body]
fn decode_base64_standard(text: &str) -> (r: Result<Vec<u8>, String>)
    ensures
        match r {
            Ok(v) => base64_standard_decode(text@) == Ok::<Seq<u8>, Seq<char>>(v@),
            Err(m) => base64_standard_decode(text@) == Err::<Seq<u8>, Seq<char>>(m@),
        },
{
    let mut buf = Vec::new();
    base64::prelude::BASE64_STANDARD.decode_vec(text, &mut buf).map_err(|e| e.to_string())?;
    Ok(buf)
}

/// Builds an `ed25519_dalek::VerifyingKey` from `public_key` with
/// `VerifyingKey::from_bytes` and checks `signature` over the bytes of
/// `message` with `VerifyingKey::verify_strict`; the contract says only that
/// the outcome is the named one.
#[verifier::external_body]
fn ed25519_verify_strict(public_key: &[u8; 32], message: &str, signature: &[u8; 64]) -> (r:
    Result<(), String>)
    ensures
        match r {
            Ok(()) => ed25519_strict_check(public_key@, message@, signature@) is None,
            Err(m) => ed25519_strict_check(public_key@, message@, signature@) == Some(m@),
        },
{
    let key = ed25519_dalek::VerifyingKey::from_bytes(public_key).map_err(|e| e.to_string())?;
    let sig = ed25519_dalek::Signature::from_bytes(signature);
    key.verify_strict(message.as_bytes(), &sig).map_err(|e| e.to_string())
}

/// Dependency `i` repeats the id of an earlier one.
pub open spec fn repeats_earlier_id(deps: Seq<PluginDependencyView>, i: int) -> bool {
    exists|j: int| 0 <= j < i && #[trigger] deps[j].id == deps[i].id
}

/// What is wrong with dependency `i`, given the parse error of its version
/// requirement: a repeated id first, then an unparsable requirement.
pub open spec fn dependency_problem(
    deps: Seq<PluginDependencyView>,
    i: int,
    req_error: Option<Seq<char>>,
) -> Option<ErrorView> {
    if repeats_earlier_id(deps, i) {
        Some(ErrorView::Dependency("duplicate dependency id: "@ + deps[i].id))
    } else {
        match req_error {
            Some(e) => Some(ErrorView::Marketplace("invalid dep version req: "@ + e)),
            None => None,
        }
    }
}

/// Dependency `k` has a problem and none before it has one.
pub open spec fn first_problem_at(
    deps: Seq<PluginDependencyView>,
    req_errors: Seq<Option<Seq<char>>>,
    k: int,
) -> bool {
    &&& 0 <= k < deps.len()
    &&& dependency_problem(deps, k, req_errors[k]) is Some
    &&& forall|i: int| 0 <= i < k ==> #[trigger] dependency_problem(deps, i, req_errors[i]) is None
}

/// The outcome of resolving dependencies `deps` of a manifest whose version
/// parses with `version_error` and whose requirements parse with
/// `req_errors`: the first problem met, walking the dependencies in order,
/// or the dependencies themselves.
pub open spec fn resolution(
    version_error: Option<Seq<char>>,
    deps: Seq<PluginDependencyView>,
    req_errors: Seq<Option<Seq<char>>>,
) -> Result<Seq<PluginDependencyView>, ErrorView> {
    match version_error {
        Some(e) => Err(ErrorView::Marketplace("invalid version: "@ + e)),
        None => if exists|k: int| #[trigger] first_problem_at(deps, req_errors, k) {
            let k = choose|k: int| #[trigger] first_problem_at(deps, req_errors, k);
            Err(dependency_problem(deps, k, req_errors[k]).unwrap())
        } else {
            Ok(deps)
        },
    }
}

/// At most one dependency is the first with a problem.
pub proof fn lemma_first_problem_unique(
    deps: Seq<PluginDependencyView>,
    req_errors: Seq<Option<Seq<char>>>,
    k: int,
    m: int,
)
    requires
        first_problem_at(deps, req_errors, k),
        first_problem_at(deps, req_errors, m),
    ensures
        k == m,
{
    if k < m {
        assert(dependency_problem(deps, k, req_errors[k]) is None);
    } else if m < k {
        assert(dependency_problem(deps, m, req_errors[m]) is None);
    }
}

/// A successful resolution hands back the dependencies unchanged, and only
/// when the version parses, every requirement parses and no id occurs
/// twice; so a manifest listing an id twice is always refused.
pub proof fn law_resolution_accepts_only_clean(
    version_error: Option<Seq<char>>,
    deps: Seq<PluginDependencyView>,
    req_errors: Seq<Option<Seq<char>>>,
)
    requires
        req_errors.len() == deps.len(),
    ensures
        resolution(version_error, deps, req_errors) is Ok <==> {
            &&& version_error is None
            &&& forall|i: int| 0 <= i < deps.len() ==> #[trigger] req_errors[i] is None
            &&& forall|i: int, j: int| 0 <= i < j < deps.len() ==> deps[i].id != deps[j].id
        },
        resolution(version_error, deps, req_errors) matches Ok(r) ==> r == deps,
{
    if version_error is None {
        if exists|k: int| #[trigger] first_problem_at(deps, req_errors, k) {
            let k = choose|k: int| #[trigger] first_problem_at(deps, req_errors, k);
            if repeats_earlier_id(deps, k) {
                let j = choose|j: int| 0 <= j < k && #[trigger] deps[j].id == deps[k].id;
                assert(deps[j].id == deps[k].id);
            } else {
                assert(req_errors[k] is Some);
            }
        } else {
            assert forall|i: int| 0 <= i < deps.len() implies #[trigger] req_errors[i] is None by {
                if req_errors[i] is Some {
                    lemma_some_problem_has_first(deps, req_errors, i);
                }
            }
            assert forall|i: int, j: int| 0 <= i < j < deps.len() implies deps[i].id != deps[j].id by {
                if deps[i].id == deps[j].id {
                    assert(repeats_earlier_id(deps, j));
                    lemma_some_problem_has_first(deps, req_errors, j);
                }
            }
        }
    }
}

/// When some dependency has a problem, a first one has.
proof fn lemma_some_problem_has_first(
    deps: Seq<PluginDependencyView>,
    req_errors: Seq<Option<Seq<char>>>,
    n: int,
)
    requires
        0 <= n < deps.len(),
        dependency_problem(deps, n, req_errors[n]) is Some,
    ensures
        exists|k: int| #[trigger] first_problem_at(deps, req_errors, k),
    decreases n,
{
    if forall|i: int| 0 <= i < n ==> #[trigger] dependency_problem(deps, i, req_errors[i]) is None {
        assert(first_problem_at(deps, req_errors, n));
    } else {
        let i = choose|i: int| 0 <= i < n && !(#[trigger] dependency_problem(deps, i, req_errors[i]) is None);
        lemma_some_problem_has_first(deps, req_errors, i);
    }
}

/// The parse errors of every dependency's version requirement.
pub open spec fn req_errors_of(deps: Seq<PluginDependencyView>) -> Seq<Option<Seq<char>>> {
    deps.map_values(|d: PluginDependencyView| semver_req_error(d.version_req))
}

/// The views of a vector of optional strings.
pub open spec fn opt_strings_view(v: Seq<Option<String>>) -> Seq<Option<Seq<char>>> {
    v.map_values(|o: Option<String>| opt_string_view(o))
}

/// The view of a resolution result.
pub open spec fn resolved_view(r: OrchestratorResult<Vec<PluginDependency>>) -> Result<
    Seq<PluginDependencyView>,
    ErrorView,
> {
    match r {
        Ok(v) => Ok(deps_view(v@)),
        Err(e) => Err(e@),
    }
}

/// Resolves a manifest's dependencies.
#[derive(Debug, Clone, Copy)]
pub struct Resolver;

impl Default for Resolver {
    fn default() -> (r: Self)
        ensures
            r == Resolver,
    {
        Resolver
    }
}

/// Copies a list of dependencies.
fn clone_deps(v: &Vec<PluginDependency>) -> (r: Vec<PluginDependency>)
    ensures
        deps_view(r@) == deps_view(v@),
{
    let mut out: Vec<PluginDependency> = Vec::new();
    let mut i: usize = 0;
    while i < v.len()
        invariant
            i <= v.len(),
            out@.len() == i,
            forall|j: int| 0 <= j < i ==> #[trigger] out@[j]@ == v@[j]@,
        decreases v.len() - i,
    {
        out.push(v[i].clone());
        i = i + 1;
    }
    assert(deps_view(out@) =~= deps_view(v@));
    out
}

/// Whether dependency `i` repeats the id of an earlier one.
fn repeats_earlier(deps: &Vec<PluginDependency>, i: usize) -> (r: bool)
    requires
        i < deps.len(),
    ensures
        r == repeats_earlier_id(deps_view(deps@), i as int),
{
    let ghost dv = deps_view(deps@);
    let mut j: usize = 0;
    while j < i
        invariant
            i < deps.len(),
            j <= i,
            dv == deps_view(deps@),
            forall|k: int| 0 <= k < j ==> dv[k].id != dv[i as int].id,
        decreases i - j,
    {
        if crate::text::str_eq(deps[j].id.as_str(), deps[i].id.as_str()) {
            assert(dv[j as int].id == dv[i as int].id);
            return true;
        }
        j = j + 1;
    }
    false
}

impl Resolver {
    /// Resolves `manifest` given the outcome of parsing its version
    /// (`version_error`) and each dependency's requirement (`req_errors`,
    /// one per dependency): the manifest's version must parse, and walking
    /// the dependencies in order, the first whose id repeats an earlier
    /// one is a `Dependency` error, the first whose requirement does not
    /// parse is a `Marketplace` error; otherwise the dependencies come back.
    pub fn resolve_with(
        &self,
        manifest: &PluginManifest,
        version_error: Option<String>,
        req_errors: &Vec<Option<String>>,
    ) -> (r: OrchestratorResult<Vec<PluginDependency>>)
        requires
            req_errors@.len() == manifest.dependencies@.len(),
        ensures
            resolved_view(r) == resolution(
                opt_string_view(version_error),
                deps_view(manifest.dependencies@),
                opt_strings_view(req_errors@),
            ),
    {
        let ghost deps = deps_view(manifest.dependencies@);
        let ghost errs = opt_strings_view(req_errors@);
        match &version_error {
            Some(e) => {
                return Err(OrchestratorError::Marketplace(concat2("invalid version: ", e.as_str())));
            },
            None => {},
        }
        let mut i: usize = 0;
        while i < manifest.dependencies.len()
            invariant
                i <= manifest.dependencies@.len(),
                req_errors@.len() == manifest.dependencies@.len(),
                version_error is None,
                deps == deps_view(manifest.dependencies@),
                errs == opt_strings_view(req_errors@),
                forall|k: int| 0 <= k < i ==> #[trigger] dependency_problem(deps, k, errs[k]) is None,
            decreases manifest.dependencies@.len() - i,
        {
            let dep = &manifest.dependencies[i];
            if repeats_earlier(&manifest.dependencies, i) {
                let r = OrchestratorError::Dependency(
                    concat2("duplicate dependency id: ", dep.id.as_str()),
                );
                proof {
                    assert(first_problem_at(deps, errs, i as int));
                    let k = choose|k: int| #[trigger] first_problem_at(deps, errs, k);
                    lemma_first_problem_unique(deps, errs, k, i as int);
                    assert(deps[i as int] == dep@);
                }
                return Err(r);
            }
            match &req_errors[i] {
                Some(e) => {
                    let r = OrchestratorError::Marketplace(
                        concat2("invalid dep version req: ", e.as_str()),
                    );
                    proof {
                        assert(errs[i as int] == Some(e@));
                        assert(first_problem_at(deps, errs, i as int));
                        let k = choose|k: int| #[trigger] first_problem_at(deps, errs, k);
                        lemma_first_problem_unique(deps, errs, k, i as int);
                    }
                    return Err(r);
                },
                None => {
                    assert(errs[i as int] is None);
                },
            }
            i = i + 1;
        }
        Ok(clone_deps(&manifest.dependencies))
    }

    /// Checks the manifest's version and each dependency's version
    /// requirement with `semver`, and rejects a dependency id that occurs
    /// twice; on success the dependencies come back unchanged.
    pub fn resolve(&self, manifest: &PluginManifest) -> (r: OrchestratorResult<Vec<PluginDependency>>)
        ensures
            resolved_view(r) == resolution(
                semver_version_error(manifest.version@),
                deps_view(manifest.dependencies@),
                req_errors_of(deps_view(manifest.dependencies@)),
            ),
    {
        let version_error = version_parse_error(manifest.version.as_str());
        let mut req_errors: Vec<Option<String>> = Vec::new();
        let mut i: usize = 0;
        while i < manifest.dependencies.len()
            invariant
                i <= manifest.dependencies@.len(),
                req_errors@.len() == i,
                forall|k: int|
                    0 <= k < i ==> opt_string_view(#[trigger] req_errors@[k]) == semver_req_error(
                        manifest.dependencies@[k].version_req@,
                    ),
            decreases manifest.dependencies@.len() - i,
        {
            req_errors.push(version_req_parse_error(manifest.dependencies[i].version_req.as_str()));
            i = i + 1;
        }
        assert(opt_strings_view(req_errors@) =~= req_errors_of(deps_view(manifest.dependencies@)));
        self.resolve_with(manifest, version_error, &req_errors)
    }
}

/// The outcome of verifying a manifest's signature: `signature_b64` is its
/// base64 signature, if any, `content_hash` the signed text and
/// `public_key` the publisher's key.
pub open spec fn verification(
    signature_b64: Option<Seq<char>>,
    content_hash: Seq<char>,
    public_key: Seq<u8>,
) -> Result<(), ErrorView> {
    match signature_b64 {
        None => Err(ErrorView::Crypto("missing signature"@)),
        Some(b64) => match base64_standard_decode(b64) {
            Err(e) => Err(ErrorView::Crypto("invalid signature b64: "@ + e)),
            Ok(bytes) => if bytes.len() != 64 {
                Err(ErrorView::Crypto("signature length invalid"@))
            } else {
                match ed25519_strict_check(public_key, content_hash, bytes) {
                    None => Ok(()),
                    Some(e) => Err(ErrorView::Crypto("signature verification failed: "@ + e)),
                }
            },
        },
    }
}

/// A signature is accepted only when it is present, decodes from base64 to
/// exactly 64 bytes, and those bytes pass strict ed25519 verification of
/// the content hash under the key.
pub proof fn law_verification_accepts_only_valid(
    signature_b64: Option<Seq<char>>,
    content_hash: Seq<char>,
    public_key: Seq<u8>,
)
    ensures
        verification(signature_b64, content_hash, public_key) is Ok <==> (signature_b64 matches Some(
            b64,
        ) && base64_standard_decode(b64) matches Ok(bytes) && bytes.len() == 64
            && ed25519_strict_check(public_key, content_hash, bytes) is None),
        verification(signature_b64, content_hash, public_key) matches Err(e) ==> e is Crypto,
{
}

/// The base64 signature text of a manifest, if it carries one.
pub open spec fn signature_text(manifest: PluginManifest) -> Option<Seq<char>> {
    match manifest.signature {
        Some(s) => Some(s.signature_b64@),
        None => None,
    }
}

/// The view of a unit result.
pub open spec fn unit_result_view(r: OrchestratorResult<()>) -> Result<(), ErrorView> {
    match r {
        Ok(()) => Ok(()),
        Err(e) => Err(e@),
    }
}

/// Checks manifest signatures.
#[derive(Debug, Clone, Copy)]
pub struct SignatureVerifier;

impl Default for SignatureVerifier {
    fn default() -> (r: Self)
        ensures
            r == SignatureVerifier,
    {
        SignatureVerifier
    }
}

impl SignatureVerifier {
    /// Turns the outcome of decoding a base64 signature into the 64
    /// signature bytes: a decode error or any other length is a `Crypto`
    /// error.
    pub fn signature_bytes(decoded: Result<Vec<u8>, String>) -> (r: OrchestratorResult<[u8; 64]>)
        ensures
            match decoded {
                Err(e) => r matches Err(err) && err@ == ErrorView::Crypto(
                    "invalid signature b64: "@ + e@,
                ),
                Ok(v) => if v@.len() != 64 {
                    r matches Err(err) && err@ == ErrorView::Crypto("signature length invalid"@)
                } else {
                    r matches Ok(a) && a@ == v@
                },
            },
    {
        match decoded {
            Err(e) => Err(OrchestratorError::Crypto(concat2("invalid signature b64: ", e.as_str()))),
            Ok(v) => {
                if v.len() != 64 {
                    return Err(OrchestratorError::Crypto("signature length invalid".to_string()));
                }
                let mut a = [0u8; 64];
                let mut i: usize = 0;
                while i < 64
                    invariant
                        i <= 64,
                        v@.len() == 64,
                        forall|k: int| 0 <= k < i ==> a@[k] == v@[k],
                    decreases 64 - i,
                {
                    a[i] = v[i];
                    i = i + 1;
                }
                assert(a@ =~= v@);
                Ok(a)
            },
        }
    }

    /// Turns the outcome of a strict ed25519 check into the verifier's
    /// result: a refusal is a `Crypto` error carrying its reason.
    pub fn check_result(check: Result<(), String>) -> (r: OrchestratorResult<()>)
        ensures
            match check {
                Ok(()) => r is Ok,
                Err(e) => r matches Err(err) && err@ == ErrorView::Crypto(
                    "signature verification failed: "@ + e@,
                ),
            },
    {
        match check {
            Ok(()) => Ok(()),
            Err(e) => Err(
                OrchestratorError::Crypto(concat2("signature verification failed: ", e.as_str())),
            ),
        }
    }

    /// Verifies the manifest's signature over its content hash with the
    /// publisher's ed25519 key, given as its 32 compressed bytes: the
    /// signature must be present, be valid base64 of exactly 64 bytes, and
    /// pass strict verification.
    pub fn verify(&self, manifest: &PluginManifest, public_key: &[u8; 32]) -> (r: OrchestratorResult<()>)
        ensures
            unit_result_view(r) == verification(
                signature_text(*manifest),
                manifest.content_hash@,
                public_key@,
            ),
    {
        let sig = match &manifest.signature {
            Some(s) => s,
            None => {
                return Err(OrchestratorError::Crypto("missing signature".to_string()));
            },
        };
        let decoded = decode_base64_standard(sig.signature_b64.as_str());
        let bytes = match Self::signature_bytes(decoded) {
            Ok(a) => a,
            Err(e) => {
                return Err(e);
            },
        };
        let check = ed25519_verify_strict(public_key, manifest.content_hash.as_str(), &bytes);
        Self::check_result(check)
    }
}

/// Scores a plugin's trustworthiness from its downloads, audits and rating;
/// the score itself is computed in floating point outside this library.
#[derive(Debug, Clone, Copy)]
pub struct TrustScorer;

impl Default for TrustScorer {
    fn default() -> (r: Self)
        ensures
            r == TrustScorer,
    {
        TrustScorer
    }
}

} // verus!
