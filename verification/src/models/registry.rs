use vstd::prelude::*;
use crate::text::strings_view;

verus! {

pub type CapabilityId = String;

/// A capability offered by an agent or tool.  The floating-point attributes
/// are held as IEEE-754 bit patterns of `f32` values.
#[derive(Debug)]
pub struct CapabilityDescriptor {
    pub id: CapabilityId,
    pub name: String,
    pub description: String,
    pub tags: Vec<String>,
    pub embeddings: Option<Vec<u32>>,
    pub trust_score: Option<u32>,
    pub availability: Option<u32>,
}

pub struct CapabilityView {
    pub id: Seq<char>,
    pub name: Seq<char>,
    pub description: Seq<char>,
    pub tags: Seq<Seq<char>>,
    pub embeddings: Option<Seq<u32>>,
    pub trust_score: Option<u32>,
    pub availability: Option<u32>,
}

impl View for CapabilityDescriptor {
    type V = CapabilityView;

    open spec fn view(&self) -> CapabilityView {
        CapabilityView {
            id: self.id@,
            name: self.name@,
            description: self.description@,
            tags: strings_view(self.tags@),
            embeddings: match self.embeddings {
                Some(e) => Some(e@),
                None => None,
            },
            trust_score: self.trust_score,
            availability: self.availability,
        }
    }
}

} // verus!
