//! The capability registry: published capabilities, lookup by id and the
//! keyword part of search scoring.

use vstd::prelude::*;
use crate::error::{ErrorView, OrchestratorError, OrchestratorResult};
use crate::models::registry::CapabilityView;
use crate::models::{CapabilityDescriptor, CapabilityId};
use crate::text::{ascii_lower, is_substring, str_contains, str_eq};

verus! {

pub open spec fn capabilities_view(v: Seq<CapabilityDescriptor>) -> Seq<CapabilityView> {
    v.map_values(|c: CapabilityDescriptor| c@)
}

/// `i` is the first position of a capability with id `id`.
pub open spec fn is_first_capability(entries: Seq<CapabilityView>, id: Seq<char>, i: int) -> bool {
    &&& 0 <= i < entries.len()
    &&& entries[i].id == id
    &&& forall|j: int| 0 <= j < i ==> entries[j].id != id
}

/// Publishing keeps what was published before, in order; a capability
/// whose id was not yet taken is what a lookup of that id finds afterwards,
/// and a lookup of an id that was taken still finds the earlier capability.
pub proof fn law_publish_then_lookup(entries: Seq<CapabilityView>, d: CapabilityView)
    ensures
        entries.push(d).take(entries.len() as int) == entries,
        (forall|j: int| 0 <= j < entries.len() ==> entries[j].id != d.id) ==> is_first_capability(
            entries.push(d),
            d.id,
            entries.len() as int,
        ) && entries.push(d)[entries.len() as int] == d,
        forall|id: Seq<char>, i: int|
            #[trigger] is_first_capability(entries, id, i) ==> is_first_capability(entries.push(d), id, i),
{
    assert(entries.push(d).take(entries.len() as int) =~= entries);
}

/// The keyword score of a capability for a query (already lower-cased), in
/// halves of a point: two when its lower-cased name contains the query, one
/// more when its lower-cased description does, one more when a tag equals
/// the query ignoring ASCII case.
pub open spec fn keyword_halves(q: Seq<char>, d: CapabilityView) -> nat {
    (if is_substring(q, ascii_lower(d.name)) {
        2nat
    } else {
        0nat
    }) + (if is_substring(q, ascii_lower(d.description)) {
        1nat
    } else {
        0nat
    }) + (if exists|t: int| 0 <= t < d.tags.len() && ascii_lower(#[trigger] d.tags[t]) == ascii_lower(q) {
        1nat
    } else {
        0nat
    })
}

/// Published capabilities, in publishing order.
#[derive(Debug)]
pub struct CapabilityRegistry {
    entries: Vec<CapabilityDescriptor>,
}

impl View for CapabilityRegistry {
    type V = Seq<CapabilityView>;

    closed spec fn view(&self) -> Seq<CapabilityView> {
        capabilities_view(self.entries@)
    }
}

impl CapabilityRegistry {
    /// An empty registry.
    pub fn new() -> (r: Self)
        ensures
            r@ == Seq::<CapabilityView>::empty(),
    {
        let r = CapabilityRegistry { entries: Vec::new() };
        assert(r@ =~= Seq::<CapabilityView>::empty());
        r
    }

    /// Publishes a capability; one with an empty id is refused.
    pub fn publish(&mut self, desc: CapabilityDescriptor) -> (r: OrchestratorResult<()>)
        ensures
            desc@.id.len() == 0 ==> (r matches Err(e) && e@ == ErrorView::InvalidInput(
                "capability id is empty"@,
            )) && final(self)@ == old(self)@,
            desc@.id.len() > 0 ==> r is Ok && final(self)@ == old(self)@.push(desc@),
    {
        if desc.id.as_str().is_empty() {
            return Err(OrchestratorError::InvalidInput("capability id is empty".to_string()));
        }
        self.entries.push(desc);
        assert(self@ =~= old(self)@.push(desc@));
        Ok(())
    }

    /// The first published capability with id `id`, if any.
    pub fn get(&self, id: &CapabilityId) -> (r: Option<&CapabilityDescriptor>)
        ensures
            match r {
                Some(d) => exists|i: int| is_first_capability(self@, id@, i) && d@ == self@[i],
                None => forall|i: int| 0 <= i < self@.len() ==> self@[i].id != id@,
            },
    {
        let mut i: usize = 0;
        while i < self.entries.len()
            invariant
                i <= self.entries@.len(),
                forall|j: int| 0 <= j < i ==> self@[j].id != id@,
            decreases self.entries@.len() - i,
        {
            if str_eq(self.entries[i].id.as_str(), id.as_str()) {
                proof {
                    assert(is_first_capability(self@, id@, i as int));
                }
                return Some(&self.entries[i]);
            }
            i = i + 1;
        }
        None
    }

    /// The published capabilities, in publishing order.
    pub fn entries(&self) -> (r: &[CapabilityDescriptor])
        ensures
            capabilities_view(r@) == self@,
    {
        self.entries.as_slice()
    }

    /// The keyword score of `d` for the lower-cased query `q`, in halves of
    /// a point.
    pub fn keyword_score_halves(&self, q: &str, d: &CapabilityDescriptor) -> (r: u8)
        ensures
            r == keyword_halves(q@, d@),
    {
        let mut halves: u8 = 0;
        let name = d.name.as_str().to_ascii_lowercase();
        if str_contains(name.as_str(), q) {
            halves = halves + 2;
        }
        let description = d.description.as_str().to_ascii_lowercase();
        if str_contains(description.as_str(), q) {
            halves = halves + 1;
        }
        let tag_hit = any_tag_matches(d, q);
        if tag_hit {
            halves = halves + 1;
        }
        halves
    }
}

/// Whether some tag of `d` equals `q` ignoring ASCII case.
fn any_tag_matches(d: &CapabilityDescriptor, q: &str) -> (r: bool)
    ensures
        r == exists|t: int| 0 <= t < d@.tags.len() && ascii_lower(#[trigger] d@.tags[t]) == ascii_lower(q@),
{
    let mut t: usize = 0;
    while t < d.tags.len()
        invariant
            t <= d.tags@.len(),
            forall|j: int| 0 <= j < t ==> ascii_lower((#[trigger] d.tags@[j])@) != ascii_lower(q@),
        decreases d.tags@.len() - t,
    {
        if d.tags[t].as_str().eq_ignore_ascii_case(q) {
            proof {
                assert(d@.tags[t as int] == d.tags@[t as int]@);
            }
            return true;
        }
        t = t + 1;
    }
    proof {
        assert forall|j: int| 0 <= j < d@.tags.len() implies ascii_lower(#[trigger] d@.tags[j]) != ascii_lower(q@) by {
            assert(d@.tags[j] == d.tags@[j]@);
        }
    }
    false
}

impl Default for CapabilityRegistry {
    fn default() -> (r: Self)
        ensures
            r@ == Seq::<CapabilityView>::empty(),
    {
        CapabilityRegistry::new()
    }
}

} // verus!
