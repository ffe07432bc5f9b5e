//! Fuzzy filtering and ranking of candidates, scored by nucleo-matcher.
use crate::completion::spec::CompletionCandidate;
use crate::text::{lemma_seq_less_asym, lemma_seq_less_trans, seq_less, str_less};
use nucleo_matcher::pattern::{AtomKind, CaseMatching, Normalization, Pattern};
use nucleo_matcher::{Config, Matcher, Utf32Str};
use vstd::prelude::*;

verus! {

#[verifier::external_type_specification]
#[verifier::external_body]
pub struct ExMatcher(Matcher);

/// The score nucleo-matcher gives `haystack` for `pattern` (a fuzzy pattern with
/// smart case matching and smart normalization, scored with the default
/// configuration), or `None` when it does not match.
pub uninterp spec fn fuzzy_score_of(pattern: Seq<char>, haystack: Seq<char>) -> Option<u32>;

/// A matcher with nucleo-matcher's default configuration (`Matcher::new(Config::DEFAULT)`).
///
/// Trusted: nothing is claimed of the value; it only carries scratch memory.
#[verifier::external_body]
fn default_matcher() -> Matcher {
    Matcher::new(Config::DEFAULT)
}

/// Scores `haystack` against `pattern` with nucleo-matcher: builds
/// `Pattern::new(pattern, CaseMatching::Smart, Normalization::Smart, AtomKind::Fuzzy)`
/// and calls `Pattern::score`.
///
/// Trusted: the score depends on the pattern and haystack alone. The matcher
/// passed in is always one made by `default_matcher`; nucleo resets its case
/// setting per atom, and its buffers do not affect scores.
#[verifier::external_body]
fn nucleo_score(matcher: &mut Matcher, pattern: &str, haystack: &str) -> (r: Option<u32>)
    ensures
        r == fuzzy_score_of(pattern@, haystack@),
{
    let pat = Pattern::new(pattern, CaseMatching::Smart, Normalization::Smart, AtomKind::Fuzzy);
    let mut buf = Vec::new();
    pat.score(Utf32Str::new(haystack, &mut buf), matcher)
}

/// Fuzzy matcher wrapping nucleo-matcher.
/// Filters and ranks candidates by match quality.
pub struct FuzzyMatcher {
    matcher: Matcher,
}

#[derive(Debug)]
pub struct ScoredCandidate {
    pub candidate: CompletionCandidate,
    pub score: i64,
}

impl Clone for ScoredCandidate {
    fn clone(&self) -> (r: Self)
        ensures
            r == *self,
    {
        ScoredCandidate { candidate: self.candidate.clone(), score: self.score }
    }
}

/// Whether `a` is listed before `b`: higher score first, then higher priority,
/// then alphabetically by name.
pub open spec fn ranks_before(a: ScoredCandidate, b: ScoredCandidate) -> bool {
    ||| a.score > b.score
    ||| (a.score == b.score && a.candidate.priority > b.candidate.priority)
    ||| (a.score == b.score && a.candidate.priority == b.candidate.priority && seq_less(
        a.candidate.name@,
        b.candidate.name@,
    ))
}

/// No later item ranks before an earlier one.
pub open spec fn is_ranked(s: Seq<ScoredCandidate>) -> bool {
    forall|i: int, j: int| 0 <= i < j < s.len() ==> !ranks_before(#[trigger] s[j], #[trigger] s[i])
}

/// The candidates that match `pattern`, each with its score, in input order.
/// With an empty pattern every candidate is kept with score 0.
pub open spec fn scored_candidates(pattern: Seq<char>, cs: Seq<CompletionCandidate>) -> Seq<
    ScoredCandidate,
>
    decreases cs.len(),
{
    if cs.len() == 0 {
        Seq::<ScoredCandidate>::empty()
    } else {
        let rest = scored_candidates(pattern, cs.drop_last());
        let c = cs.last();
        if pattern.len() == 0 {
            rest.push(ScoredCandidate { candidate: c, score: 0 })
        } else {
            match fuzzy_score_of(pattern, c.name@) {
                Some(s) => rest.push(ScoredCandidate { candidate: c, score: s as i64 }),
                None => rest,
            }
        }
    }
}

pub proof fn lemma_ranks_before_asym(a: ScoredCandidate, b: ScoredCandidate)
    ensures
        ranks_before(a, b) ==> !ranks_before(b, a),
{
    lemma_seq_less_asym(a.candidate.name@, b.candidate.name@);
}

pub proof fn lemma_ranks_before_trans(a: ScoredCandidate, b: ScoredCandidate, c: ScoredCandidate)
    requires
        ranks_before(a, b),
        ranks_before(b, c),
    ensures
        ranks_before(a, c),
{
    if a.score == b.score && b.score == c.score && a.candidate.priority == b.candidate.priority
        && b.candidate.priority == c.candidate.priority {
        lemma_seq_less_trans(a.candidate.name@, b.candidate.name@, c.candidate.name@);
    }
}

fn ranks_before_exec(a: &ScoredCandidate, b: &ScoredCandidate) -> (r: bool)
    ensures
        r == ranks_before(*a, *b),
{
    if a.score != b.score {
        a.score > b.score
    } else if a.candidate.priority != b.candidate.priority {
        a.candidate.priority > b.candidate.priority
    } else {
        str_less(a.candidate.name.as_str(), b.candidate.name.as_str())
    }
}

/// Inserts `x` into a ranked list, after every item it does not rank before.
fn insert_ranked(list: &mut Vec<ScoredCandidate>, x: ScoredCandidate)
    requires
        is_ranked(old(list)@),
    ensures
        is_ranked(final(list)@),
        final(list)@.to_multiset() == old(list)@.to_multiset().insert(x),
{
    let mut pos: usize = 0;
    while pos < list.len() && !ranks_before_exec(&x, &list[pos])
        invariant
            pos <= list@.len(),
            forall|k: int| 0 <= k < pos ==> !ranks_before(x, #[trigger] list@[k]),
        decreases list@.len() - pos,
    {
        pos = pos + 1;
    }
    let ghost old_list = list@;
    list.insert(pos, x);
    proof {
        vstd::seq_lib::to_multiset_insert(old_list, pos as int, x);
        let n = list@;
        assert forall|i: int, j: int| 0 <= i < j < n.len() implies !ranks_before(
            #[trigger] n[j],
            #[trigger] n[i],
        ) by {
            if j < pos {
            } else if j == pos {
                assert(n[i] == old_list[i]);
            } else if i > pos {
                assert(n[i] == old_list[i - 1]);
                assert(n[j] == old_list[j - 1]);
            } else if i == pos {
                let b = old_list[j - 1];
                let a = old_list[pos as int];
                assert(ranks_before(x, a));
                lemma_ranks_before_asym(x, a);
                if ranks_before(b, x) {
                    lemma_ranks_before_trans(b, x, a);
                    assert(j - 1 > pos);
                    assert(!ranks_before(old_list[j - 1], old_list[pos as int]));
                }
            } else {
                assert(n[i] == old_list[i]);
                assert(n[j] == old_list[j - 1]);
            }
        }
    }
}

impl FuzzyMatcher {
    pub fn new() -> Self {
        FuzzyMatcher { matcher: default_matcher() }
    }

    /// Filter and rank candidates against the given pattern.
    /// Returns candidates sorted by match score (best first).
    pub fn filter(&mut self, pattern: &str, candidates: Vec<CompletionCandidate>) -> (r: Vec<
        ScoredCandidate,
    >)
        ensures
            r@.to_multiset() == scored_candidates(pattern@, candidates@).to_multiset(),
            is_ranked(r@),
    {
        let empty_pattern = pattern.unicode_len() == 0;
        let mut scored: Vec<ScoredCandidate> = Vec::new();
        let mut i: usize = 0;
        while i < candidates.len()
            invariant
                i <= candidates@.len(),
                empty_pattern == (pattern@.len() == 0),
                is_ranked(scored@),
                scored@.to_multiset() == scored_candidates(
                    pattern@,
                    candidates@.subrange(0, i as int),
                ).to_multiset(),
            decreases candidates@.len() - i,
        {
            let c = candidates[i].clone();
            proof {
                assert(candidates@.subrange(0, i as int + 1).drop_last() =~= candidates@.subrange(
                    0,
                    i as int,
                ));
            }
            if empty_pattern {
                let ghost before = scored_candidates(pattern@, candidates@.subrange(0, i as int));
                let x = ScoredCandidate { candidate: c, score: 0 };
                insert_ranked(&mut scored, x);
                proof {
                    vstd::seq_lib::to_multiset_build(before, x);
                }
            } else {
                match nucleo_score(&mut self.matcher, pattern, c.name.as_str()) {
                    Some(s) => {
                        let ghost before = scored_candidates(
                            pattern@,
                            candidates@.subrange(0, i as int),
                        );
                        let x = ScoredCandidate { candidate: c, score: s as i64 };
                        insert_ranked(&mut scored, x);
                        proof {
                            vstd::seq_lib::to_multiset_build(before, x);
                        }
                    },
                    None => {},
                }
            }
            i = i + 1;
        }
        assert(candidates@.subrange(0, i as int) =~= candidates@);
        scored
    }
}

impl Default for FuzzyMatcher {
    fn default() -> Self {
        Self::new()
    }
}

} // verus!
