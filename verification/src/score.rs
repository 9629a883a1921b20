//! Jaccard similarity scores as exact rationals.
//!
//! A [`Score`] records the shared trigram count and the union size of two
//! trigram sets; its value is `shared / total` (0 when both sets are empty).
//! Keeping the two integers instead of a rounded quotient makes comparisons
//! exact, so tie-breaking in searches is deterministic.

use vstd::prelude::*;
use vstd::set_lib::lemma_len_intersect;

verus! {

/// A similarity score: the rational `shared / total`, with `0 / 0` read as 0.
///
/// `shared` is the size of the intersection of two trigram sets and `total`
/// the size of their union, so a well-formed score never exceeds 1.
#[derive(Clone, Copy, Debug, PartialEq, Eq, Structural)]
pub struct Score {
    /// Size of the intersection of the two trigram sets.
    pub shared: u64,
    /// Size of the union of the two trigram sets.
    pub total: u64,
}

/// Number of trigrams common to `a` and `b`.
pub open spec fn spec_shared(a: Set<u32>, b: Set<u32>) -> nat {
    a.intersect(b).len()
}

/// Size of the union of `a` and `b`, written as in the scorer:
/// both cardinalities summed, minus the shared part.
pub open spec fn spec_total(a: Set<u32>, b: Set<u32>) -> int {
    a.len() + b.len() - spec_shared(a, b)
}

/// `s` is exactly the Jaccard score of the sets `a` and `b`.
pub open spec fn is_score_of(s: Score, a: Set<u32>, b: Set<u32>) -> bool {
    &&& s.shared == spec_shared(a, b)
    &&& s.total == spec_total(a, b)
}

/// A score that can arise from two sets: the shared count never exceeds the
/// union size, so the value lies in [0, 1].
pub open spec fn score_wf(s: Score) -> bool {
    s.shared <= s.total
}

/// Denominator of a score's value, with the empty-vs-empty case read as 0/1.
pub open spec fn spec_den(s: Score) -> int {
    if s.total == 0 {
        1
    } else {
        s.total as int
    }
}

/// The value of `a` is strictly below the value of `b` (exact rational
/// comparison by cross-multiplication).
pub open spec fn score_lt(a: Score, b: Score) -> bool {
    a.shared * spec_den(b) < b.shared * spec_den(a)
}

/// The values of `a` and `b` are equal as rationals.
pub open spec fn score_eq(a: Score, b: Score) -> bool {
    a.shared * spec_den(b) == b.shared * spec_den(a)
}

/// The value of `s` is at least `num / den`.
pub open spec fn score_ge_frac(s: Score, num: int, den: int) -> bool {
    s.shared * den >= num * spec_den(s)
}

/// The value of `s` is exactly 1: the sets agree and are non-empty.
pub open spec fn score_is_one(s: Score) -> bool {
    s.shared == s.total && s.total > 0
}

impl Score {
    /// True when this score's value is strictly below `other`'s.
    pub fn lt(&self, other: &Score) -> (r: bool)
        ensures
            r == score_lt(*self, *other),
    {
        let da: u128 = if self.total == 0 {
            1
        } else {
            self.total as u128
        };
        let db: u128 = if other.total == 0 {
            1
        } else {
            other.total as u128
        };
        proof {
            lemma_cross_mul_fits(self.shared as int, db as int);
            lemma_cross_mul_fits(other.shared as int, da as int);
        }
        (self.shared as u128) * db < (other.shared as u128) * da
    }

    /// True when this score's value is at least `num / den`.
    pub fn ge_frac(&self, num: u64, den: u64) -> (r: bool)
        requires
            den > 0,
        ensures
            r == score_ge_frac(*self, num as int, den as int),
    {
        let d: u128 = if self.total == 0 {
            1
        } else {
            self.total as u128
        };
        proof {
            lemma_cross_mul_fits(self.shared as int, den as int);
            lemma_cross_mul_fits(num as int, d as int);
        }
        (self.shared as u128) * (den as u128) >= (num as u128) * d
    }
}

/// A product of two values that each fit in 64 bits fits in 128 bits.
proof fn lemma_cross_mul_fits(x: int, y: int)
    by (nonlinear_arith)
    requires
        0 <= x <= u64::MAX,
        0 <= y <= u64::MAX,
    ensures
        0 <= x * y < u128::MAX,
{
}

/// Cross-multiplied comparison of non-negative fractions is transitive:
/// x/xd <= y/yd and y/yd < z/zd give x/xd < z/zd.
proof fn lemma_frac_le_lt_trans(xs: int, xd: int, ys: int, yd: int, zs: int, zd: int)
    by (nonlinear_arith)
    requires
        xd >= 1,
        yd >= 1,
        zd >= 1,
        xs >= 0,
        ys >= 0,
        zs >= 0,
        xs * yd <= ys * xd,
        ys * zd < zs * yd,
    ensures
        xs * zd < zs * xd,
{
}

/// Score comparison is transitive across a non-strict step followed by a
/// strict one: a <= b and b < c give a < c.
pub proof fn lemma_score_trans_le_lt(a: Score, b: Score, c: Score)
    requires
        !score_lt(b, a),
        score_lt(b, c),
    ensures
        score_lt(a, c),
{
    lemma_frac_le_lt_trans(
        a.shared as int,
        spec_den(a),
        b.shared as int,
        spec_den(b),
        c.shared as int,
        spec_den(c),
    );
}

/// Cross-multiplied comparison of non-negative fractions is transitive:
/// x/xd < y/yd and y/yd <= z/zd give x/xd < z/zd.
proof fn lemma_frac_lt_le_trans(xs: int, xd: int, ys: int, yd: int, zs: int, zd: int)
    by (nonlinear_arith)
    requires
        xd >= 1,
        yd >= 1,
        zd >= 1,
        xs >= 0,
        ys >= 0,
        zs >= 0,
        xs * yd < ys * xd,
        ys * zd <= zs * yd,
    ensures
        xs * zd < zs * xd,
{
}

/// Score comparison is transitive across a strict step followed by a
/// non-strict one: a < b and b <= c give a < c.
pub proof fn lemma_score_trans_lt_le(a: Score, b: Score, c: Score)
    requires
        score_lt(a, b),
        !score_lt(c, b),
    ensures
        score_lt(a, c),
{
    lemma_frac_lt_le_trans(
        a.shared as int,
        spec_den(a),
        b.shared as int,
        spec_den(b),
        c.shared as int,
        spec_den(c),
    );
}

/// A string scored against itself: the two trigram sets coincide, so the
/// shared count equals the union size. For a non-empty set the score's value
/// is therefore exactly 1; two empty sets give the defined 0 / 0 = 0 case.
pub proof fn lemma_self_similarity(a: Set<u32>)
    requires
        a.finite(),
    ensures
        spec_shared(a, a) == a.len(),
        spec_total(a, a) == a.len(),
        forall|s: Score| is_score_of(s, a, a) && a.len() > 0 ==> score_is_one(s),
{
    assert(a.intersect(a) =~= a);
}

/// Similarity is symmetric: the score of (a, b) equals the score of (b, a),
/// because intersection and union size do not depend on argument order.
pub proof fn lemma_similarity_symmetric(a: Set<u32>, b: Set<u32>)
    requires
        a.finite(),
        b.finite(),
    ensures
        spec_shared(a, b) == spec_shared(b, a),
        spec_total(a, b) == spec_total(b, a),
{
    assert(a.intersect(b) =~= b.intersect(a));
}

/// The Jaccard score of two sets is well formed: the shared count is at most
/// the union size, so the value never exceeds 1 (and never falls below 0,
/// since both counts are natural numbers).
pub proof fn lemma_score_in_range(a: Set<u32>, b: Set<u32>, s: Score)
    requires
        a.finite(),
        b.finite(),
        is_score_of(s, a, b),
    ensures
        score_wf(s),
{
    lemma_len_intersect(a, b);
    lemma_len_intersect(b, a);
    assert(a.intersect(b) =~= b.intersect(a));
}

/// The score of two sets is a function of the sets alone: any two scores of
/// the same pair agree. In particular a batch entry equals the score the
/// single-pair operation reports for that pair, however either was computed.
pub proof fn lemma_score_determined(a: Set<u32>, b: Set<u32>, s1: Score, s2: Score)
    requires
        is_score_of(s1, a, b),
        is_score_of(s2, a, b),
    ensures
        s1 == s2,
{
}

} // verus!
