//! The swarm composer: which capabilities fit a subtask's needs, and which
//! coordination pattern fits a list of subtasks.

use vstd::prelude::*;
use crate::error::{OrchestratorError, OrchestratorResult};
use crate::models::registry::CapabilityView;
use crate::models::task::specs_view;
use crate::models::{CapabilityDescriptor, SubtaskSpec, SubtaskSpecView};
use crate::patterns::CoordinationPattern;
use crate::text::{ascii_lower, is_substring, str_contains, strings_view};

verus! {

/// The pattern for a list of subtasks: sequential when any subtask has a
/// dependency, parallel for several independent subtasks, sequential
/// otherwise.
pub open spec fn pattern_for(subs: Seq<SubtaskSpecView>) -> CoordinationPattern {
    if exists|i: int| 0 <= i < subs.len() && (#[trigger] subs[i]).deps.len() > 0 {
        CoordinationPattern::Sequential
    } else if subs.len() > 1 {
        CoordinationPattern::Parallel
    } else {
        CoordinationPattern::Sequential
    }
}

/// A need (already lower-cased) is met by a capability when one of its tags
/// equals the need ignoring ASCII case, or its lower-cased description
/// contains the need.
pub open spec fn need_met(need: Seq<char>, cap: CapabilityView) -> bool {
    (exists|t: int| 0 <= t < cap.tags.len() && ascii_lower(#[trigger] cap.tags[t]) == ascii_lower(need))
        || is_substring(need, ascii_lower(cap.description))
}

/// How many of `needs` (already lower-cased) `cap` meets.
pub open spec fn needs_met(needs: Seq<Seq<char>>, cap: CapabilityView) -> nat
    decreases needs.len(),
{
    if needs.len() == 0 {
        0
    } else {
        needs_met(needs.drop_last(), cap) + if need_met(needs.last(), cap) {
            1nat
        } else {
            0nat
        }
    }
}

/// Matches capabilities to needs and picks coordination patterns.
#[derive(Debug, Default)]
pub struct SwarmComposer;

impl SwarmComposer {
    pub fn new() -> Self {
        SwarmComposer
    }

    /// Sequential when any subtask has a dependency, parallel for several
    /// independent subtasks, sequential otherwise.
    pub fn pick_pattern(&self, subtasks: &[SubtaskSpec]) -> (r: OrchestratorResult<CoordinationPattern>)
        ensures
            r == Ok::<CoordinationPattern, OrchestratorError>(pattern_for(specs_view(subtasks@))),
    {
        let ghost sv = specs_view(subtasks@);
        let mut i: usize = 0;
        while i < subtasks.len()
            invariant
                i <= subtasks@.len(),
                sv == specs_view(subtasks@),
                forall|j: int| 0 <= j < i ==> (#[trigger] sv[j]).deps.len() == 0,
            decreases subtasks@.len() - i,
        {
            if subtasks[i].deps.len() > 0 {
                proof {
                    assert(sv[i as int].deps.len() > 0);
                }
                return Ok(CoordinationPattern::Sequential);
            }
            i = i + 1;
        }
        if subtasks.len() > 1 {
            return Ok(CoordinationPattern::Parallel);
        }
        Ok(CoordinationPattern::Sequential)
    }

    /// The needs, lower-cased in ASCII.
    pub fn lowercase_needs(&self, needs: &[String]) -> (r: Vec<String>)
        ensures
            strings_view(r@) == strings_view(needs@).map_values(|n: Seq<char>| ascii_lower(n)),
    {
        let mut out: Vec<String> = Vec::new();
        let mut i: usize = 0;
        while i < needs.len()
            invariant
                i <= needs@.len(),
                out@.len() == i,
                forall|j: int| 0 <= j < i ==> (#[trigger] out@[j])@ == ascii_lower(needs@[j]@),
            decreases needs@.len() - i,
        {
            out.push(needs[i].as_str().to_ascii_lowercase());
            i = i + 1;
        }
        assert(strings_view(out@) =~= strings_view(needs@).map_values(|n: Seq<char>| ascii_lower(n)));
        out
    }

    /// Whether `cap` meets one need (already lower-cased).
    pub fn meets_need(&self, need_lower: &str, cap: &CapabilityDescriptor) -> (r: bool)
        ensures
            r == need_met(need_lower@, cap@),
    {
        let mut t: usize = 0;
        while t < cap.tags.len()
            invariant
                t <= cap.tags@.len(),
                forall|j: int| 0 <= j < t ==> ascii_lower((#[trigger] cap.tags@[j])@) != ascii_lower(need_lower@),
            decreases cap.tags@.len() - t,
        {
            if cap.tags[t].as_str().eq_ignore_ascii_case(need_lower) {
                proof {
                    assert(cap@.tags[t as int] == cap.tags@[t as int]@);
                }
                return true;
            }
            t = t + 1;
        }
        proof {
            assert forall|j: int| 0 <= j < cap@.tags.len() implies ascii_lower(#[trigger] cap@.tags[j]) != ascii_lower(need_lower@) by {
                assert(cap@.tags[j] == cap.tags@[j]@);
            }
        }
        let description = cap.description.as_str().to_ascii_lowercase();
        str_contains(description.as_str(), need_lower)
    }

    /// How many of the needs (already lower-cased) `cap` meets.  Each met
    /// need adds the keyword weight once to the capability's score.
    pub fn count_needs_met(&self, needs_lower: &[String], cap: &CapabilityDescriptor) -> (r: usize)
        ensures
            r == needs_met(strings_view(needs_lower@), cap@),
    {
        let ghost nv = strings_view(needs_lower@);
        let mut count: usize = 0;
        let mut i: usize = 0;
        while i < needs_lower.len()
            invariant
                i <= needs_lower@.len(),
                nv == strings_view(needs_lower@),
                count == needs_met(nv.take(i as int), cap@),
                count <= i,
            decreases needs_lower@.len() - i,
        {
            proof {
                assert(nv.take(i as int + 1).drop_last() =~= nv.take(i as int));
                assert(nv.take(i as int + 1).last() == needs_lower@[i as int]@);
            }
            if self.meets_need(needs_lower[i].as_str(), cap) {
                count = count + 1;
            }
            i = i + 1;
        }
        proof {
            assert(nv.take(needs_lower@.len() as int) =~= nv);
        }
        count
    }
}

/// A need (already lower-cased) is met exactly when a tag of the
/// capability equals it ignoring ASCII case, or it occurs in the
/// capability's lower-cased description.
pub proof fn law_need_met_by_tag_or_description(need: Seq<char>, cap: CapabilityView)
    ensures
        is_substring(need, ascii_lower(cap.description)) ==> need_met(need, cap),
        forall|t: int| 0 <= t < cap.tags.len() && ascii_lower(#[trigger] cap.tags[t]) == ascii_lower(need)
            ==> need_met(need, cap),
        need_met(need, cap) ==> is_substring(need, ascii_lower(cap.description)) || exists|t: int|
            0 <= t < cap.tags.len() && ascii_lower(#[trigger] cap.tags[t]) == ascii_lower(need),
{
}

/// Several subtasks none of which depends on another run in parallel; a
/// subtask with a dependency makes the run sequential, and so does a list
/// of at most one subtask.
pub proof fn law_pattern_choice(subs: Seq<SubtaskSpecView>)
    ensures
        subs.len() > 1 && (forall|i: int| 0 <= i < subs.len() ==> (#[trigger] subs[i]).deps.len() == 0)
            ==> pattern_for(subs) == CoordinationPattern::Parallel,
        (exists|i: int| 0 <= i < subs.len() && (#[trigger] subs[i]).deps.len() > 0) ==> pattern_for(subs)
            == CoordinationPattern::Sequential,
        subs.len() <= 1 ==> pattern_for(subs) == CoordinationPattern::Sequential,
{
}

/// Each met need counts once: the count never exceeds the number of
/// needs, is all of them when each is met and none when none is, and one
/// more need adds one exactly when it is met.
pub proof fn law_needs_met_counts(needs: Seq<Seq<char>>, cap: CapabilityView, extra: Seq<char>)
    ensures
        needs_met(needs, cap) <= needs.len(),
        (forall|i: int| 0 <= i < needs.len() ==> need_met(#[trigger] needs[i], cap)) ==> needs_met(
            needs,
            cap,
        ) == needs.len(),
        (forall|i: int| 0 <= i < needs.len() ==> !need_met(#[trigger] needs[i], cap)) ==> needs_met(
            needs,
            cap,
        ) == 0,
        needs_met(needs.push(extra), cap) == needs_met(needs, cap) + if need_met(extra, cap) {
            1int
        } else {
            0int
        },
    decreases needs.len(),
{
    if needs.len() > 0 {
        let p = needs.drop_last();
        law_needs_met_counts(p, cap, needs.last());
        assert forall|i: int| 0 <= i < p.len() implies #[trigger] p[i] == needs[i] by {}
    }
    assert(needs.push(extra).drop_last() =~= needs);
}

} // verus!
