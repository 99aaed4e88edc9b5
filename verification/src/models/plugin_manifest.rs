use vstd::prelude::*;

verus! {

pub type PluginId = String;

/// A dependency on another plugin, with a SemVer requirement.
#[derive(Debug)]
pub struct PluginDependency {
    pub id: PluginId,
    pub version_req: String,
}

pub struct PluginDependencyView {
    pub id: Seq<char>,
    pub version_req: Seq<char>,
}

impl View for PluginDependency {
    type V = PluginDependencyView;

    open spec fn view(&self) -> PluginDependencyView {
        PluginDependencyView { id: self.id@, version_req: self.version_req@ }
    }
}

impl Clone for PluginDependency {
    fn clone(&self) -> (r: Self)
        ensures
            r@ == self@,
    {
        PluginDependency { id: self.id.clone(), version_req: self.version_req.clone() }
    }
}

pub open spec fn deps_view(v: Seq<PluginDependency>) -> Seq<PluginDependencyView> {
    v.map_values(|d: PluginDependency| d@)
}

/// A publisher's signature over a manifest's content hash.
#[derive(Debug)]
pub struct Signature {
    pub public_key_id: String,
    pub signature_b64: String,
}

#[verifier::external_type_specification]
#[verifier::external_body]
pub struct ExJsonValue(serde_json::Value);

/// Plugin metadata published to the marketplace.
#[derive(Debug)]
pub struct PluginManifest {
    pub id: PluginId,
    pub version: String,
    pub dependencies: Vec<PluginDependency>,
    pub content_hash: String,
    pub signature: Option<Signature>,
    pub metadata: serde_json::Value,
}

} // verus!
