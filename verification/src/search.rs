//! Similarity queries: single pairs, batches, and candidate searches.
//!
//! Batches and searches score every item independently. Small inputs are
//! evaluated in input order on the calling thread; at or above a fixed
//! crossover size the per-item work is handed to a data-parallel map whose
//! results come back in input order, so the choice of strategy never changes
//! any output. Reductions (best match, ranking) always run over the assembled
//! score vector with explicit score-then-index comparison, so tie-breaking is
//! deterministic and independent of scheduling.

use vstd::prelude::*;

use rayon::iter::IndexedParallelIterator;
use rayon::iter::IntoParallelRefIterator;
use rayon::iter::ParallelIterator;

use crate::score::is_score_of;
use crate::score::lemma_score_trans_le_lt;
use crate::score::lemma_score_trans_lt_le;
use crate::score::score_eq;
use crate::score::score_ge_frac;
use crate::score::score_lt;
use crate::score::score_wf;
use crate::score::Score;
use crate::trigram::similarity_from_sets;
use crate::trigram::spec_trigrams;
use crate::trigram::trigrams;
use crate::trigram::TrigramSet;

verus! {

/// Batch size at which per-item work moves to the parallel map. Purely a
/// cost heuristic: outputs are identical on both sides of the boundary.
pub const PARALLEL_THRESHOLD: usize = 250;

/// The one reportable failure: a search over no candidates.
#[derive(Clone, Copy, Debug, PartialEq, Eq, Structural)]
pub enum SearchError {
    /// `best_match` was given an empty candidate list.
    EmptyCandidates,
}

/// The trigram similarity of two strings: the Jaccard score of their trigram
/// sets, as an exact rational. Both sets are built fresh from the inputs.
pub fn similarity(s1: &str, s2: &str) -> (r: Score)
    ensures
        is_score_of(r, spec_trigrams(s1@), spec_trigrams(s2@)),
        score_wf(r),
{
    let a = trigrams(s1);
    let b = trigrams(s2);
    similarity_from_sets(&a, &b)
}

/// Scores one candidate against an already-built needle set.
fn score_against(needle: &TrigramSet, hay: &str) -> (r: Score)
    requires
        needle.wf(),
    ensures
        is_score_of(r, needle@, spec_trigrams(hay@)),
        score_wf(r),
{
    let h = trigrams(hay);
    similarity_from_sets(needle, &h)
}

/// Relies on rayon's `par_iter().map(..).collect()`: the closure (a call of
/// this library's verified `similarity`) runs on every pair independently and
/// the collected vector is in the input's order.
#[verifier::external_body]
fn par_batch_scores(pairs: &Vec<(String, String)>) -> (r: Vec<Score>)
    ensures
        r@.len() == pairs@.len(),
        forall|i: int|
            0 <= i < pairs@.len() ==> is_score_of(
                #[trigger] r@[i],
                spec_trigrams(pairs@[i].0@),
                spec_trigrams(pairs@[i].1@),
            ) && score_wf(r@[i]),
{
    pairs.par_iter().map(|p| similarity(&p.0, &p.1)).collect()
}

/// Relies on rayon's `par_iter().map(..).collect()`: the closure (a call of
/// this library's verified `score_against`) scores every candidate against
/// the one shared needle set, and the collected vector is in candidate order.
#[verifier::external_body]
fn par_candidate_scores(needle: &TrigramSet, haystacks: &Vec<String>) -> (r: Vec<Score>)
    requires
        needle.wf(),
    ensures
        r@.len() == haystacks@.len(),
        forall|i: int|
            0 <= i < haystacks@.len() ==> is_score_of(
                #[trigger] r@[i],
                needle@,
                spec_trigrams(haystacks@[i]@),
            ) && score_wf(r@[i]),
{
    haystacks.par_iter().map(|h| score_against(needle, h)).collect()
}

/// Scores every candidate against the needle set, in candidate order, on the
/// calling thread.
fn seq_candidate_scores(needle: &TrigramSet, haystacks: &Vec<String>) -> (r: Vec<Score>)
    requires
        needle.wf(),
    ensures
        r@.len() == haystacks@.len(),
        forall|i: int|
            0 <= i < haystacks@.len() ==> is_score_of(
                #[trigger] r@[i],
                needle@,
                spec_trigrams(haystacks@[i]@),
            ) && score_wf(r@[i]),
{
    let n = haystacks.len();
    let mut out: Vec<Score> = Vec::new();
    let mut i: usize = 0;
    while i < n
        invariant
            n == haystacks@.len(),
            0 <= i <= n,
            out@.len() == i,
            needle.wf(),
            forall|m: int|
                0 <= m < i ==> is_score_of(
                    #[trigger] out@[m],
                    needle@,
                    spec_trigrams(haystacks@[m]@),
                ) && score_wf(out@[m]),
        decreases n - i,
    {
        let h: &String = &haystacks[i];
        let s = score_against(needle, h.as_str());
        out.push(s);
        i = i + 1;
    }
    out
}

/// The scores of every candidate against the needle set, in candidate order:
/// sequentially below the crossover size, through the parallel map at or
/// above it. The two paths promise the same scores.
fn candidate_scores(needle: &TrigramSet, haystacks: &Vec<String>) -> (r: Vec<Score>)
    requires
        needle.wf(),
    ensures
        r@.len() == haystacks@.len(),
        forall|i: int|
            0 <= i < haystacks@.len() ==> is_score_of(
                #[trigger] r@[i],
                needle@,
                spec_trigrams(haystacks@[i]@),
            ) && score_wf(r@[i]),
{
    if haystacks.len() < PARALLEL_THRESHOLD {
        seq_candidate_scores(needle, haystacks)
    } else {
        par_candidate_scores(needle, haystacks)
    }
}

/// The similarity of every pair, in input order: one score per pair, each
/// computed independently exactly as `similarity` computes it. Whether the
/// batch runs sequentially (below the crossover size) or in parallel (at or
/// above it), every output element is pinned to the same value.
pub fn similarity_batch(pairs: Vec<(String, String)>) -> (r: Vec<Score>)
    ensures
        r@.len() == pairs@.len(),
        forall|i: int|
            0 <= i < pairs@.len() ==> is_score_of(
                #[trigger] r@[i],
                spec_trigrams(pairs@[i].0@),
                spec_trigrams(pairs@[i].1@),
            ) && score_wf(r@[i]),
{
    let n = pairs.len();
    if n < PARALLEL_THRESHOLD {
        let mut out: Vec<Score> = Vec::new();
        let mut i: usize = 0;
        while i < n
            invariant
                n == pairs@.len(),
                0 <= i <= n,
                out@.len() == i,
                forall|m: int|
                    0 <= m < i ==> is_score_of(
                        #[trigger] out@[m],
                        spec_trigrams(pairs@[m].0@),
                        spec_trigrams(pairs@[m].1@),
                    ) && score_wf(out@[m]),
            decreases n - i,
        {
            let p: &(String, String) = &pairs[i];
            let s = similarity(p.0.as_str(), p.1.as_str());
            out.push(s);
            i = i + 1;
        }
        out
    } else {
        par_batch_scores(&pairs)
    }
}

/// The best candidate for the needle: the index and score of the candidate
/// with the strictly greatest score, the lowest index winning ties. An empty
/// candidate list is the one reportable failure, distinguishable from any
/// valid score.
pub fn best_match(needle: &str, haystacks: Vec<String>) -> (r: Result<
    (usize, Score),
    SearchError,
>)
    ensures
        haystacks@.len() == 0 <==> r is Err,
        r is Err ==> r == Err::<(usize, Score), SearchError>(SearchError::EmptyCandidates),
        r is Ok ==> ({
            let (bi, bs) = r->Ok_0;
            &&& (bi as int) < haystacks@.len()
            &&& is_score_of(bs, spec_trigrams(needle@), spec_trigrams(haystacks@[bi as int]@))
            &&& score_wf(bs)
            &&& forall|k: int, s: Score|
                0 <= k < haystacks@.len() && #[trigger] is_score_of(
                    s,
                    spec_trigrams(needle@),
                    spec_trigrams(haystacks@[k]@),
                ) ==> !score_lt(bs, s)
            &&& forall|k: int, s: Score|
                0 <= k < bi && #[trigger] is_score_of(
                    s,
                    spec_trigrams(needle@),
                    spec_trigrams(haystacks@[k]@),
                ) ==> score_lt(s, bs)
        }),
{
    if haystacks.len() == 0 {
        return Err(SearchError::EmptyCandidates);
    }
    let needle_set = trigrams(needle);
    let scores = candidate_scores(&needle_set, &haystacks);
    let n = scores.len();
    let mut bi: usize = 0;
    let mut bs: Score = scores[0];
    let mut k: usize = 1;
    while k < n
        invariant
            n == scores@.len(),
            n == haystacks@.len(),
            0 < n,
            1 <= k <= n,
            bi < k,
            bs == scores@[bi as int],
            forall|m: int| 0 <= m < k ==> !score_lt(bs, #[trigger] scores@[m]),
            forall|m: int| 0 <= m < bi ==> score_lt(#[trigger] scores@[m], bs),
        decreases n - k,
    {
        let sk = scores[k];
        if bs.lt(&sk) {
            proof {
                assert forall|m: int| 0 <= m < k + 1 implies !score_lt(
                    sk,
                    #[trigger] scores@[m],
                ) by {
                    if m < k {
                        lemma_score_trans_le_lt(scores@[m], bs, sk);
                    }
                }
                assert forall|m: int| 0 <= m < k implies score_lt(#[trigger] scores@[m], sk) by {
                    if m < bi {
                        lemma_score_trans_lt_le(scores@[m], bs, sk);
                    } else if m > bi {
                        lemma_score_trans_le_lt(scores@[m], bs, sk);
                    }
                }
            }
            bi = k;
            bs = sk;
        }
        k = k + 1;
    }
    proof {
        let nseq = spec_trigrams(needle@);
        assert forall|kk: int, s: Score|
            0 <= kk < haystacks@.len() && is_score_of(
                s,
                nseq,
                spec_trigrams(haystacks@[kk]@),
            ) implies s == scores@[kk] by {
            assert(is_score_of(scores@[kk], nseq, spec_trigrams(haystacks@[kk]@)));
        }
    }
    Ok((bi, bs))
}

/// An entry `a` ranks before `b`: its score is strictly greater, or the
/// scores are equal and its candidate index is lower.
pub open spec fn ranked_before(a: (usize, Score), b: (usize, Score)) -> bool {
    score_lt(b.1, a.1) || (score_eq(a.1, b.1) && a.0 < b.0)
}

/// Sorted by descending score with ascending candidate index on ties.
pub open spec fn sorted_ranked(s: Seq<(usize, Score)>) -> bool {
    forall|k: int, l: int| 0 <= k < l < s.len() ==> ranked_before(#[trigger] s[k], #[trigger] s[l])
}

/// The position where a new entry with score `s` belongs in the ranked list:
/// after every entry whose score is at least `s` (a tie keeps the earlier
/// candidate first), before the first entry scoring strictly less.
fn insert_pos(out: &Vec<(usize, Score)>, s: &Score) -> (pos: usize)
    ensures
        pos <= out@.len(),
        forall|m: int| 0 <= m < pos ==> !score_lt(#[trigger] out@[m].1, *s),
        pos < out@.len() ==> score_lt(out@[pos as int].1, *s),
{
    let n = out.len();
    let mut pos: usize = 0;
    while pos < n
        invariant
            n == out@.len(),
            0 <= pos <= n,
            forall|m: int| 0 <= m < pos ==> !score_lt(#[trigger] out@[m].1, *s),
        decreases n - pos,
    {
        if out[pos].1.lt(s) {
            return pos;
        }
        pos = pos + 1;
    }
    pos
}

/// Every candidate scoring at least `min_num / min_den`, as (index, score)
/// pairs sorted by descending score, equal scores ordered by ascending
/// candidate index. Candidates scoring strictly below the threshold are
/// absent; every other candidate appears exactly once.
#[verifier::loop_isolation(false)]
pub fn score_all(needle: &str, haystacks: Vec<String>, min_num: u64, min_den: u64) -> (r: Vec<
    (usize, Score),
>)
    requires
        min_den > 0,
    ensures
        forall|k: int|
            0 <= k < r@.len() ==> {
                &&& (#[trigger] r@[k]).0 < haystacks@.len()
                &&& is_score_of(
                    r@[k].1,
                    spec_trigrams(needle@),
                    spec_trigrams(haystacks@[r@[k].0 as int]@),
                )
                &&& score_wf(r@[k].1)
                &&& score_ge_frac(r@[k].1, min_num as int, min_den as int)
            },
        sorted_ranked(r@),
        forall|k: int, l: int|
            0 <= k < l < r@.len() ==> (#[trigger] r@[k]).0 != (#[trigger] r@[l]).0,
        forall|j: int, s: Score|
            0 <= j < haystacks@.len() && #[trigger] is_score_of(
                s,
                spec_trigrams(needle@),
                spec_trigrams(haystacks@[j]@),
            ) && score_ge_frac(s, min_num as int, min_den as int) ==> exists|k: int|
                0 <= k < r@.len() && (#[trigger] r@[k]).0 == j,
{
    let needle_set = trigrams(needle);
    let scores = candidate_scores(&needle_set, &haystacks);
    let n = scores.len();
    let mut out: Vec<(usize, Score)> = Vec::new();
    let mut idx: usize = 0;
    while idx < n
        invariant
            n == scores@.len(),
            n == haystacks@.len(),
            0 <= idx <= n,
            sorted_ranked(out@),
            forall|k: int|
                0 <= k < out@.len() ==> {
                    &&& (#[trigger] out@[k]).0 < idx
                    &&& is_score_of(
                        out@[k].1,
                        spec_trigrams(needle@),
                        spec_trigrams(haystacks@[out@[k].0 as int]@),
                    )
                    &&& out@[k].1 == scores@[out@[k].0 as int]
                    &&& score_wf(out@[k].1)
                    &&& score_ge_frac(out@[k].1, min_num as int, min_den as int)
                },
            forall|j: int|
                0 <= j < idx && score_ge_frac(#[trigger] scores@[j], min_num as int, min_den as int)
                    ==> exists|k: int| 0 <= k < out@.len() && (#[trigger] out@[k]).0 == j,
        decreases n - idx,
    {
        let s = scores[idx];
        if s.ge_frac(min_num, min_den) {
            let pos = insert_pos(&out, &s);
            let ghost before = out@;
            out.insert(pos, (idx, s));
            proof {
                let t = out@;
                let e = (idx, s);
                assert(t == before.insert(pos as int, e));
                assert(is_score_of(
                    scores@[idx as int],
                    spec_trigrams(needle@),
                    spec_trigrams(haystacks@[idx as int]@),
                ));
                assert forall|k: int| 0 <= k < t.len() implies (#[trigger] t[k]).0 < idx + 1
                    && is_score_of(
                    t[k].1,
                    spec_trigrams(needle@),
                    spec_trigrams(haystacks@[t[k].0 as int]@),
                ) && t[k].1 == scores@[t[k].0 as int] && score_wf(t[k].1) && score_ge_frac(
                    t[k].1,
                    min_num as int,
                    min_den as int,
                ) by {
                    if k < pos {
                        assert(t[k] == before[k]);
                    } else if k == pos {
                        assert(t[k] == e);
                    } else {
                        assert(t[k] == before[k - 1]);
                    }
                }
                assert forall|p: int, q: int| 0 <= p < q < t.len() implies ranked_before(
                    #[trigger] t[p],
                    #[trigger] t[q],
                ) by {
                    lemma_ranked_insert(before, pos as int, e, p, q);
                }
                assert forall|j: int|
                    0 <= j < idx + 1 && score_ge_frac(
                        #[trigger] scores@[j],
                        min_num as int,
                        min_den as int,
                    ) implies exists|k: int| 0 <= k < t.len() && (#[trigger] t[k]).0 == j by {
                    if j == idx {
                        assert(t[pos as int].0 == j);
                    } else {
                        let k = choose|k: int| 0 <= k < before.len() && (#[trigger] before[k]).0
                            == j;
                        if k < pos {
                            assert(t[k].0 == j);
                        } else {
                            assert(t[k + 1].0 == j);
                        }
                    }
                }
            }
        } else {
            proof {
                assert forall|j: int|
                    0 <= j < idx + 1 && score_ge_frac(
                        #[trigger] scores@[j],
                        min_num as int,
                        min_den as int,
                    ) implies exists|k: int| 0 <= k < out@.len() && (#[trigger] out@[k]).0
                    == j by {
                    if j == idx {
                        assert(!score_ge_frac(scores@[j], min_num as int, min_den as int));
                    }
                }
            }
        }
        idx = idx + 1;
    }
    proof {
        assert forall|k: int, l: int|
            0 <= k < l < out@.len() implies (#[trigger] out@[k]).0 != (#[trigger] out@[l]).0 by {
            if out@[k].0 == out@[l].0 {
                assert(out@[k].1 == out@[l].1);
                assert(ranked_before(out@[k], out@[l]));
            }
        }
        let nseq = spec_trigrams(needle@);
        assert forall|j: int, s: Score|
            0 <= j < haystacks@.len() && is_score_of(
                s,
                nseq,
                spec_trigrams(haystacks@[j]@),
            ) implies s == scores@[j] by {
            assert(is_score_of(scores@[j], nseq, spec_trigrams(haystacks@[j]@)));
        }
    }
    out
}

/// Inserting an entry at the position `insert_pos` found keeps the ranked
/// order at any index pair: entries before it rank before the new entry
/// (their scores are at least its score, and on a tie their candidate index
/// is lower), and entries after it score strictly less.
proof fn lemma_ranked_insert(b: Seq<(usize, Score)>, pos: int, e: (usize, Score), p: int, q: int)
    requires
        sorted_ranked(b),
        0 <= pos <= b.len(),
        forall|m: int| 0 <= m < pos ==> !score_lt(#[trigger] b[m].1, e.1),
        pos < b.len() ==> score_lt(b[pos].1, e.1),
        forall|m: int| 0 <= m < b.len() ==> (#[trigger] b[m]).0 < e.0,
        0 <= p < q < b.insert(pos, e).len(),
    ensures
        ranked_before(b.insert(pos, e)[p], b.insert(pos, e)[q]),
{
    let t = b.insert(pos, e);
    if q < pos {
        assert(t[p] == b[p] && t[q] == b[q]);
    } else if p > pos {
        assert(t[p] == b[p - 1] && t[q] == b[q - 1]);
    } else if p < pos && q == pos {
        assert(t[p] == b[p] && t[q] == e);
        assert(!score_lt(b[p].1, e.1));
    } else if p < pos && q > pos {
        assert(t[p] == b[p] && t[q] == b[q - 1]);
    } else if p == pos && q > pos {
        assert(t[p] == e && t[q] == b[q - 1]);
        if q - 1 > pos {
            assert(ranked_before(b[pos], b[q - 1]));
            if score_lt(b[q - 1].1, b[pos].1) {
                lemma_score_trans_lt_le(b[q - 1].1, b[pos].1, e.1);
            } else {
                lemma_score_trans_le_lt(b[q - 1].1, b[pos].1, e.1);
            }
        }
    }
}

} // verus!
