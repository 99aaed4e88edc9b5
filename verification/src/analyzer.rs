//! The offline task analyzer: splits a task into sentences and turns each
//! sentence into a subtask that depends on the one before it.

use vstd::prelude::*;
use crate::error::{ErrorView, OrchestratorError, OrchestratorResult};
use crate::models::task::{specs_view, DEFAULT_COMPLEXITY_BITS};
use crate::models::{RiskLevel, SubtaskSpec, SubtaskSpecView};
use crate::text::{concat2, decimal, decimal_string, strings_view, trimmed};

verus! {

/// The pattern between sentences: a sentence mark followed by whitespace.
pub const SENTENCE_PATTERN: &'static str = "(?m)[.!?]\\s+";

/// Whether `pattern` is a regular expression that `regex::Regex::new`
/// accepts.
pub uninterp spec fn regex_compiles(pattern: Seq<char>) -> bool;

/// The pieces of `text` between the matches of `pattern`, as
/// `regex::Regex::split` yields them.
pub uninterp spec fn regex_split(pattern: Seq<char>, text: Seq<char>) -> Seq<Seq<char>>;

/// Splits `text` at the matches of `pattern` with `regex::Regex::new` and
/// `regex::Regex::split`; `None` when the pattern does not compile.  The
/// contract ties the result to the two names above and claims nothing else.
#[verifier::external_body]
fn split_by_regex(pattern: &str, text: &str) -> (r: Option<Vec<String>>)
    ensures
        r is Some == regex_compiles(pattern@),
        r matches Some(v) ==> strings_view(v@) == regex_split(pattern@, text@),
{
    let re = regex::Regex::new(pattern).ok()?;
    Some(re.split(text).map(|piece| piece.to_string()).collect())
}

/// The non-blank pieces of `pieces`, trimmed, in order.
pub open spec fn kept_sentences(pieces: Seq<Seq<char>>) -> Seq<Seq<char>>
    decreases pieces.len(),
{
    if pieces.len() == 0 {
        Seq::empty()
    } else {
        let k = kept_sentences(pieces.drop_last());
        if trimmed(pieces.last()).len() > 0 {
            k.push(trimmed(pieces.last()))
        } else {
            k
        }
    }
}

/// The id of the `n`-th subtask, counting from one.
pub open spec fn step_id(n: nat) -> Seq<char> {
    "step-"@ + decimal(n)
}

/// The subtask made of sentence `i` (counting from zero): the first is
/// critical and has no dependency, each later one is low-risk and depends
/// on the one before it.
pub open spec fn sentence_spec(i: nat, description: Seq<char>) -> SubtaskSpecView {
    SubtaskSpecView {
        id: step_id(i + 1),
        description,
        capabilities: Seq::empty(),
        complexity: DEFAULT_COMPLEXITY_BITS,
        deps: if i == 0 {
            Seq::empty()
        } else {
            seq![step_id(i)]
        },
        risk_level: Some(
            if i == 0 {
                RiskLevel::Critical
            } else {
                RiskLevel::Low
            },
        ),
        estimated_duration_secs: None,
    }
}

/// The subtasks made of the pieces of a split task: an error when no piece
/// holds anything but whitespace.
pub open spec fn sentences_outcome(pieces: Seq<Seq<char>>) -> Result<Seq<SubtaskSpecView>, ErrorView> {
    let kept = kept_sentences(pieces);
    if kept.len() == 0 {
        Err(ErrorView::InvalidInput("no subtasks produced"@))
    } else {
        Ok(Seq::new(kept.len(), |i: int| sentence_spec(i as nat, kept[i])))
    }
}

/// The analysis of a task: an error for a blank task; otherwise the
/// subtasks of its sentences.
pub open spec fn analysis_outcome(task: Seq<char>) -> Result<Seq<SubtaskSpecView>, ErrorView> {
    if trimmed(task).len() == 0 {
        Err(ErrorView::InvalidInput("task is empty"@))
    } else if !regex_compiles(SENTENCE_PATTERN@) {
        Err(ErrorView::Internal("sentence pattern does not compile"@))
    } else {
        sentences_outcome(regex_split(SENTENCE_PATTERN@, task))
    }
}

/// The subtasks of an analysis form a chain in sentence order: the first is
/// critical and depends on nothing, every later one is low-risk and
/// depends on exactly the subtask before it; each keeps its trimmed
/// sentence, non-blank, as its description.
pub proof fn law_analysis_is_chain(pieces: Seq<Seq<char>>)
    ensures
        sentences_outcome(pieces) matches Ok(subs) ==> {
            &&& subs.len() == kept_sentences(pieces).len()
            &&& subs[0].deps.len() == 0
            &&& subs[0].risk_level == Some(RiskLevel::Critical)
            &&& forall|i: int|
                0 < i < subs.len() ==> (#[trigger] subs[i]).deps == seq![subs[i - 1].id]
                    && subs[i].risk_level == Some(RiskLevel::Low)
            &&& forall|i: int|
                0 <= i < subs.len() ==> (#[trigger] subs[i]).description == kept_sentences(pieces)[i]
                    && subs[i].description.len() > 0
        },
{
    lemma_kept_nonblank(pieces);
}

/// Every kept sentence is non-blank.
proof fn lemma_kept_nonblank(pieces: Seq<Seq<char>>)
    ensures
        forall|i: int|
            0 <= i < kept_sentences(pieces).len() ==> (#[trigger] kept_sentences(pieces)[i]).len() > 0,
    decreases pieces.len(),
{
    if pieces.len() > 0 {
        lemma_kept_nonblank(pieces.drop_last());
        let k = kept_sentences(pieces.drop_last());
        assert forall|i: int|
            0 <= i < kept_sentences(pieces).len() implies (#[trigger] kept_sentences(pieces)[i]).len()
            > 0 by {
            if i < k.len() {
                assert(kept_sentences(pieces)[i] == k[i]);
            }
        }
    }
}

pub open spec fn specs_result_view(r: OrchestratorResult<Vec<SubtaskSpec>>) -> Result<
    Seq<SubtaskSpecView>,
    ErrorView,
> {
    match r {
        Ok(v) => Ok(specs_view(v@)),
        Err(e) => Err(e@),
    }
}

/// Splits tasks into ordered subtasks without a language model.
#[derive(Debug, Default)]
pub struct TaskAnalyzer;

impl TaskAnalyzer {
    pub fn new() -> Self {
        TaskAnalyzer
    }

    /// Splits `task` into sentences; each non-blank sentence, trimmed,
    /// becomes a subtask.
    pub fn analyze_offline(&self, task: &str) -> (r: OrchestratorResult<Vec<SubtaskSpec>>)
        ensures
            specs_result_view(r) == analysis_outcome(task@),
    {
        if task.trim().is_empty() {
            return Err(OrchestratorError::InvalidInput("task is empty".to_string()));
        }
        match split_by_regex(SENTENCE_PATTERN, task) {
            Some(pieces) => subtasks_from_sentences(&pieces),
            None => Err(OrchestratorError::Internal("sentence pattern does not compile".to_string())),
        }
    }
}

/// Turns the pieces of a split task into subtasks: blank pieces are
/// dropped, the others trimmed and numbered from `step-1`.
pub fn subtasks_from_sentences(pieces: &Vec<String>) -> (r: OrchestratorResult<Vec<SubtaskSpec>>)
    ensures
        specs_result_view(r) == sentences_outcome(strings_view(pieces@)),
{
    let ghost pv = strings_view(pieces@);
    let mut specs: Vec<SubtaskSpec> = Vec::new();
    let mut i: usize = 0;
    while i < pieces.len()
        invariant
            i <= pieces@.len(),
            pv == strings_view(pieces@),
            specs@.len() == kept_sentences(pv.take(i as int)).len(),
            specs@.len() <= i,
            forall|j: int|
                0 <= j < specs@.len() ==> (#[trigger] specs@[j])@ == sentence_spec(
                    j as nat,
                    kept_sentences(pv.take(i as int))[j],
                ),
        decreases pieces@.len() - i,
    {
        proof {
            assert(pv.take(i as int + 1).drop_last() =~= pv.take(i as int));
            assert(pv.take(i as int + 1).last() == pieces@[i as int]@);
        }
        let sentence = pieces[i].as_str().trim();
        if !sentence.is_empty() {
            let idx = specs.len();
            let id = concat2("step-", decimal_string(idx + 1).as_str());
            let deps: Vec<String> = if idx == 0 {
                Vec::new()
            } else {
                let mut d = Vec::new();
                d.push(concat2("step-", decimal_string(idx).as_str()));
                d
            };
            let risk = if idx == 0 {
                RiskLevel::Critical
            } else {
                RiskLevel::Low
            };
            let spec = SubtaskSpec {
                id,
                description: sentence.to_string(),
                capabilities: Vec::new(),
                complexity: DEFAULT_COMPLEXITY_BITS,
                deps,
                risk_level: Some(risk),
                estimated_duration_secs: None,
            };
            proof {
                assert(strings_view(spec.capabilities@) =~= Seq::<Seq<char>>::empty());
                if idx == 0 {
                    assert(strings_view(spec.deps@) =~= Seq::<Seq<char>>::empty());
                } else {
                    assert(strings_view(spec.deps@) =~= seq![step_id(idx as nat)]);
                }
                assert(spec@ == sentence_spec(idx as nat, trimmed(pv[i as int])));
            }
            specs.push(spec);
        }
        i = i + 1;
    }
    proof {
        assert(pv.take(pieces@.len() as int) =~= pv);
    }
    if specs.len() == 0 {
        return Err(OrchestratorError::InvalidInput("no subtasks produced".to_string()));
    }
    proof {
        let kept = kept_sentences(pv);
        assert(specs_view(specs@) =~= Seq::new(kept.len(), |j: int| sentence_spec(j as nat, kept[j])));
    }
    Ok(specs)
}

} // verus!
