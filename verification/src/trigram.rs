//! Trigram sets and their extraction from text.
//!
//! The normalized text is split into maximal runs of word characters
//! (Unicode letters and digits); every other character is only a separator.
//! Each run is padded with two leading spaces and one trailing space, and
//! every 3-character window of the padded run is encoded into a compact key.
//! The set of all keys over all runs is the string's trigram set.

use vstd::prelude::*;

use crate::chars::is_word;
use crate::chars::is_word_char;
use crate::chars::normalize_spec;
use crate::chars::pg_downcase;
use crate::encode::spec_trigram_key;
use crate::encode::trigram_key;
use crate::score::is_score_of;
use crate::score::score_wf;
use crate::score::spec_shared;
use crate::score::spec_total;
use crate::score::Score;

verus! {

/// A strictly increasing sequence: sorted, hence free of duplicates.
pub open spec fn sorted_strict(s: Seq<u32>) -> bool {
    forall|i: int, j: int| 0 <= i < j < s.len() ==> s[i] < s[j]
}

/// An unordered collection of unique trigram keys, built once from one input
/// string and never mutated afterwards. Stored as a strictly sorted vector.
pub struct TrigramSet {
    elems: Vec<u32>,
}

impl View for TrigramSet {
    type V = Set<u32>;

    closed spec fn view(&self) -> Set<u32> {
        self.elems@.to_set()
    }
}

impl TrigramSet {
    /// The underlying element order is strictly sorted; every operation
    /// preserves this, so the vector never holds a key twice.
    pub closed spec fn wf(&self) -> bool {
        sorted_strict(self.elems@)
    }

    /// The empty trigram set.
    pub fn new() -> (r: TrigramSet)
        ensures
            r.wf(),
            r@ == Set::<u32>::empty(),
    {
        let r = TrigramSet { elems: Vec::new() };
        proof {
            assert(r.elems@.to_set() =~= Set::<u32>::empty());
        }
        r
    }

    /// The number of distinct trigrams in the set.
    pub fn len(&self) -> (r: usize)
        requires
            self.wf(),
        ensures
            r == self@.len(),
            self@.finite(),
    {
        proof {
            lemma_sorted_no_duplicates(self.elems@);
            self.elems@.unique_seq_to_set();
        }
        self.elems.len()
    }

    /// Whether `key` is in the set.
    pub fn contains(&self, key: u32) -> (r: bool)
        requires
            self.wf(),
        ensures
            r == self@.contains(key),
    {
        let n = self.elems.len();
        let mut i: usize = 0;
        while i < n
            invariant
                n == self.elems@.len(),
                0 <= i <= n,
                forall|m: int| 0 <= m < i ==> self.elems@[m] != key,
            decreases n - i,
        {
            if self.elems[i] == key {
                assert(self.elems@.contains(key));
                return true;
            }
            i = i + 1;
        }
        assert(!self.elems@.contains(key));
        false
    }

    /// The keys of the set, in strictly increasing order.
    pub fn items(&self) -> (r: &Vec<u32>)
        requires
            self.wf(),
        ensures
            sorted_strict(r@),
            r@.to_set() == self@,
            r@.len() == self@.len(),
    {
        proof {
            lemma_sorted_no_duplicates(self.elems@);
            self.elems@.unique_seq_to_set();
        }
        &self.elems
    }

    /// Adds `key` to the set; adding a key already present changes nothing.
    fn insert(&mut self, key: u32)
        requires
            old(self).wf(),
        ensures
            final(self).wf(),
            final(self)@ == old(self)@.insert(key),
    {
        let n = self.elems.len();
        let mut i: usize = 0;
        while i < n && self.elems[i] < key
            invariant
                *self == *old(self),
                n == self.elems@.len(),
                0 <= i <= n,
                forall|m: int| 0 <= m < i ==> self.elems@[m] < key,
            decreases n - i,
        {
            i = i + 1;
        }
        if i < n && self.elems[i] == key {
            proof {
                assert(self.elems@.contains(key));
                assert(self.elems@.to_set().contains(key));
                assert(old(self)@.insert(key) =~= old(self)@);
            }
        } else {
            let ghost before = self.elems@;
            self.elems.insert(i, key);
            proof {
                let after = self.elems@;
                assert(after == before.insert(i as int, key));
                assert forall|p: int, q: int| 0 <= p < q < after.len() implies after[p]
                    < after[q] by {
                    lemma_insert_preserves_sorted_at(before, i as int, key, p, q);
                }
                assert(after.to_set() =~= before.to_set().insert(key)) by {
                    assert forall|x: u32| after.to_set().contains(x) implies before.to_set()
                        .insert(key).contains(x) by {
                        let j = choose|j: int| 0 <= j < after.len() && after[j] == x;
                        if j < i {
                            assert(before[j] == x);
                            assert(before.contains(x));
                        } else if j == i {
                        } else {
                            assert(before[j - 1] == x);
                            assert(before.contains(x));
                        }
                    }
                    assert forall|x: u32| before.to_set().insert(key).contains(
                        x,
                    ) implies after.to_set().contains(x) by {
                        if x == key {
                            assert(after[i as int] == x);
                            assert(after.contains(x));
                        } else {
                            let j = choose|j: int| 0 <= j < before.len() && before[j] == x;
                            if j < i {
                                assert(after[j] == x);
                            } else {
                                assert(after[j + 1] == x);
                            }
                            assert(after.contains(x));
                        }
                    }
                }
            }
        }
    }
}

/// A strictly sorted sequence holds no element twice.
proof fn lemma_sorted_no_duplicates(s: Seq<u32>)
    requires
        sorted_strict(s),
    ensures
        s.no_duplicates(),
{
}

/// In a strictly sorted sequence inserting a strictly larger-than-prefix,
/// strictly smaller-than-suffix element keeps the order at any index pair.
proof fn lemma_insert_preserves_sorted_at(s: Seq<u32>, i: int, key: u32, p: int, q: int)
    requires
        sorted_strict(s),
        0 <= i <= s.len(),
        forall|m: int| 0 <= m < i ==> s[m] < key,
        i < s.len() ==> key < s[i],
        0 <= p < q < s.insert(i, key).len(),
    ensures
        s.insert(i, key)[p] < s.insert(i, key)[q],
{
    let t = s.insert(i, key);
    if p < i {
        assert(t[p] == s[p]);
    } else if p == i {
        assert(t[p] == key);
    } else {
        assert(t[p] == s[p - 1]);
    }
    if q < i {
        assert(t[q] == s[q]);
    } else if q == i {
        assert(t[q] == key);
    } else {
        assert(t[q] == s[q - 1]);
    }
}

/// Every entry of a strictly sorted sequence is at least its own index.
proof fn lemma_sorted_index_bound(s: Seq<u32>, i: int)
    requires
        sorted_strict(s),
        0 <= i < s.len(),
    ensures
        s[i] >= i,
    decreases i,
{
    if i > 0 {
        lemma_sorted_index_bound(s, i - 1);
    }
}

/// A strictly sorted sequence of 32-bit keys cannot be longer than the key
/// space.
proof fn lemma_sorted_len_bound(s: Seq<u32>)
    requires
        sorted_strict(s),
    ensures
        s.len() <= 0x1_0000_0000,
{
    if s.len() > 0 {
        lemma_sorted_index_bound(s, s.len() - 1);
    }
}

/// Length of the maximal word-character prefix of `s`.
pub open spec fn run_len(s: Seq<char>) -> nat
    decreases s.len(),
{
    if s.len() == 0 || !is_word_char(s[0]) {
        0
    } else {
        1 + run_len(s.drop_first())
    }
}

/// A run never extends past the end of the text.
proof fn lemma_run_len_le(s: Seq<char>)
    ensures
        run_len(s) <= s.len(),
    decreases s.len(),
{
    if s.len() > 0 && is_word_char(s[0]) {
        lemma_run_len_le(s.drop_first());
    }
}

/// The maximal word prefix ends exactly where the word characters do: if the
/// first `j` characters are word characters and the next one (if any) is not,
/// the run length is `j`.
proof fn lemma_run_len_is(s: Seq<char>, j: int)
    requires
        0 <= j <= s.len(),
        forall|m: int| 0 <= m < j ==> is_word_char(s[m]),
        j < s.len() ==> !is_word_char(s[j]),
    ensures
        run_len(s) == j,
    decreases j,
{
    if j == 0 {
    } else {
        assert(is_word_char(s[0]));
        let t = s.drop_first();
        assert(forall|m: int| 0 <= m < j - 1 ==> t[m] == s[m + 1] && is_word_char(t[m]));
        assert(j - 1 < t.len() ==> !is_word_char(t[j - 1]));
        lemma_run_len_is(t, j - 1);
    }
}

/// A word run padded for windowing: two leading spaces and one trailing
/// space, so even a single-character run yields a trigram and the first and
/// last windows mark the word's start and end.
pub open spec fn padded(r: Seq<char>) -> Seq<char> {
    seq![' ', ' '] + r + seq![' ']
}

/// The compact keys of every 3-character window of `p`.
pub open spec fn window_set(p: Seq<char>) -> Set<u32>
    decreases p.len(),
{
    if p.len() < 3 {
        Set::empty()
    } else {
        window_set(p.drop_last()).insert(
            spec_trigram_key(p[p.len() - 3], p[p.len() - 2], p[p.len() - 1]),
        )
    }
}

/// The trigram keys contributed by one word run.
pub open spec fn run_trigrams(r: Seq<char>) -> Set<u32> {
    window_set(padded(r))
}

/// The trigram keys of a normalized text: the union, over every maximal run
/// of word characters, of the keys of the run's padded windows. Non-word
/// characters only separate runs and contribute nothing.
pub open spec fn trigram_set_of(s: Seq<char>) -> Set<u32>
    decreases s.len(),
    via trigram_set_of_dec
{
    if s.len() == 0 {
        Set::empty()
    } else if !is_word_char(s[0]) {
        trigram_set_of(s.drop_first())
    } else {
        run_trigrams(s.take(run_len(s) as int)).union(trigram_set_of(s.skip(run_len(s) as int)))
    }
}

#[via_fn]
proof fn trigram_set_of_dec(s: Seq<char>) {
    if s.len() > 0 && is_word_char(s[0]) {
        lemma_run_len_le(s);
    }
}

/// The trigram set of an arbitrary input string: its normalized form's
/// trigram keys.
pub open spec fn spec_trigrams(s: Seq<char>) -> Set<u32> {
    trigram_set_of(normalize_spec(s))
}

/// Every window set is finite.
proof fn lemma_window_set_finite(p: Seq<char>)
    ensures
        window_set(p).finite(),
    decreases p.len(),
{
    if p.len() >= 3 {
        lemma_window_set_finite(p.drop_last());
    }
}

/// Every trigram set is finite: it is a finite union of finite window sets.
pub proof fn lemma_trigram_set_finite(s: Seq<char>)
    ensures
        trigram_set_of(s).finite(),
    decreases s.len(),
{
    if s.len() == 0 {
    } else if !is_word_char(s[0]) {
        lemma_trigram_set_finite(s.drop_first());
    } else {
        lemma_run_len_le(s);
        lemma_window_set_finite(padded(s.take(run_len(s) as int)));
        lemma_trigram_set_finite(s.skip(run_len(s) as int));
    }
}

/// A string compared with itself scores exactly 1 whenever it yields any
/// trigram at all: the two sets coincide, so the shared count equals the
/// union size, and a non-empty set makes that common value positive. A
/// string with no word characters yields the empty set and the defined
/// 0 / 0 = 0 case instead.
pub proof fn lemma_similarity_self(s: Seq<char>)
    ensures
        spec_shared(spec_trigrams(s), spec_trigrams(s)) == spec_trigrams(s).len(),
        spec_total(spec_trigrams(s), spec_trigrams(s)) == spec_trigrams(s).len(),
        forall|r: Score|
            is_score_of(r, spec_trigrams(s), spec_trigrams(s)) && spec_trigrams(s).len() > 0
                ==> crate::score::score_is_one(r),
{
    lemma_trigram_set_finite(normalize_spec(s));
    crate::score::lemma_self_similarity(spec_trigrams(s));
}

/// Similarity of two strings is symmetric: swapping the arguments leaves
/// both the shared count and the union size unchanged, so the score's value
/// is the same in either order.
pub proof fn lemma_similarity_symmetric_strings(a: Seq<char>, b: Seq<char>)
    ensures
        spec_shared(spec_trigrams(a), spec_trigrams(b)) == spec_shared(
            spec_trigrams(b),
            spec_trigrams(a),
        ),
        spec_total(spec_trigrams(a), spec_trigrams(b)) == spec_total(
            spec_trigrams(b),
            spec_trigrams(a),
        ),
{
    lemma_trigram_set_finite(normalize_spec(a));
    lemma_trigram_set_finite(normalize_spec(b));
    crate::score::lemma_similarity_symmetric(spec_trigrams(a), spec_trigrams(b));
}

/// A normalized text holding at least one word character yields at least one
/// trigram: the run around that character is padded to at least four
/// characters, so it contributes at least one window. Together with
/// `lemma_similarity_self` this makes a string with a word run score exactly
/// 1 against itself.
pub proof fn lemma_word_char_yields_trigrams(s: Seq<char>)
    requires
        exists|i: int| 0 <= i < s.len() && is_word_char(s[i]),
    ensures
        trigram_set_of(s).len() > 0,
    decreases s.len(),
{
    lemma_trigram_set_finite(s);
    let i = choose|i: int| 0 <= i < s.len() && is_word_char(s[i]);
    if !is_word_char(s[0]) {
        assert(s.drop_first()[i - 1] == s[i]);
        lemma_word_char_yields_trigrams(s.drop_first());
    } else {
        let p = padded(s.take(run_len(s) as int));
        let key = spec_trigram_key(p[p.len() - 3], p[p.len() - 2], p[p.len() - 1]);
        assert(p.len() >= 3);
        assert(window_set(p).contains(key));
        assert(trigram_set_of(s).contains(key));
        if trigram_set_of(s).len() == 0 {
            trigram_set_of(s).lemma_len0_is_empty();
        }
    }
}

/// Two strings with the same normalized form have the same trigram set, and
/// so score exactly 1 against each other whenever they yield any trigram:
/// normalization alone decides the set.
pub proof fn lemma_normalization_determines_trigrams(a: Seq<char>, b: Seq<char>)
    requires
        normalize_spec(a) == normalize_spec(b),
    ensures
        spec_trigrams(a) == spec_trigrams(b),
{
}

/// The first index at or after `i` where the word run through `i` ends:
/// every character from `i` up to it is a word character, and it sits at the
/// end of the text or on a non-word character.
#[verifier::loop_isolation(false)]
fn run_end(norm: &Vec<char>, i: usize) -> (j: usize)
    requires
        i < norm@.len(),
        is_word_char(norm@[i as int]),
    ensures
        i < j <= norm@.len(),
        forall|m: int| i <= m < j ==> is_word_char(norm@[m]),
        j < norm@.len() ==> !is_word_char(norm@[j as int]),
{
    let n = norm.len();
    let mut j = i + 1;
    while j < n
        invariant
            i < j <= n,
            forall|m: int| i <= m < j ==> is_word_char(norm@[m]),
        decreases n - j,
    {
        if !is_word(norm[j]) {
            return j;
        }
        j = j + 1;
    }
    j
}

/// The trigram set of `text`: the text is normalized, split into maximal
/// runs of word characters, and every 3-character window of each padded run
/// is encoded into a compact key. The same input always yields the same set.
#[verifier::loop_isolation(false)]
#[verifier::rlimit(60)]
pub fn trigrams(text: &str) -> (r: TrigramSet)
    ensures
        r.wf(),
        r@ == spec_trigrams(text@),
        r@.finite(),
{
    let norm = pg_downcase(text);
    let n = norm.len();
    let mut set = TrigramSet::new();
    let mut i: usize = 0;
    proof {
        assert(norm@.skip(0) =~= norm@);
        assert(Set::<u32>::empty().union(trigram_set_of(norm@)) =~= trigram_set_of(norm@));
    }
    while i < n
        invariant
            0 <= i <= n,
            set.wf(),
            set@.union(trigram_set_of(norm@.skip(i as int))) == trigram_set_of(norm@),
        decreases n - i,
    {
        if !is_word(norm[i]) {
            proof {
                let s = norm@.skip(i as int);
                assert(s[0] == norm@[i as int]);
                assert(trigram_set_of(s) == trigram_set_of(s.drop_first()));
                assert(s.drop_first() =~= norm@.skip(i + 1));
            }
            i = i + 1;
        } else {
            let j = run_end(&norm, i);
            proof {
                let s = norm@.skip(i as int);
                assert(forall|m: int| 0 <= m < j - i ==> s[m] == norm@[m + i]);
                assert(j - i < s.len() ==> s[j - i] == norm@[j as int]);
                lemma_run_len_is(s, j - i);
            }
            let mut p: Vec<char> = Vec::new();
            p.push(' ');
            p.push(' ');
            let mut k = i;
            while k < j
                invariant
                    i <= k <= j,
                    p@ == seq![' ', ' '] + norm@.subrange(i as int, k as int),
                decreases j - k,
            {
                p.push(norm[k]);
                proof {
                    assert(p@ =~= seq![' ', ' '] + norm@.subrange(i as int, k + 1));
                }
                k = k + 1;
            }
            p.push(' ');
            let ghost run = norm@.subrange(i as int, j as int);
            proof {
                assert(p@ =~= padded(run));
            }
            let ghost base = set@;
            let m = p.len();
            proof {
                assert(window_set(p@.take(2)) =~= Set::<u32>::empty());
                assert(base.union(window_set(p@.take(2))) =~= base);
            }
            let mut w: usize = 0;
            while w + 2 < m
                invariant
                    0 <= w <= m - 2,
                    m == p@.len(),
                    set.wf(),
                    set@ == base.union(window_set(p@.take(w + 2))),
                decreases m - w,
            {
                let key = trigram_key(p[w], p[w + 1], p[w + 2]);
                proof {
                    let t = p@.take(w + 3);
                    assert(t.len() == w + 3);
                    assert(t.drop_last() =~= p@.take(w + 2));
                    assert(t[t.len() - 3] == p@[w as int]);
                    assert(t[t.len() - 2] == p@[w + 1]);
                    assert(t[t.len() - 1] == p@[w + 2]);
                    assert(window_set(t) == window_set(p@.take(w + 2)).insert(key));
                    assert(base.union(window_set(p@.take(w + 2)).insert(key)) =~= base.union(
                        window_set(p@.take(w + 2)),
                    ).insert(key));
                }
                set.insert(key);
                w = w + 1;
            }
            proof {
                assert(w + 2 == m);
                assert(p@.take(m as int) =~= p@);
                assert(set@ == base.union(run_trigrams(run)));
                let s = norm@.skip(i as int);
                let rl = run_len(s);
                assert(rl == j - i);
                assert(s.take(rl as int) =~= run);
                assert(s.skip(rl as int) =~= norm@.skip(j as int));
                assert(trigram_set_of(s) == run_trigrams(run).union(
                    trigram_set_of(norm@.skip(j as int)),
                ));
                assert(set@.union(trigram_set_of(norm@.skip(j as int))) =~= base.union(
                    trigram_set_of(s),
                ));
            }
            i = j;
        }
    }
    proof {
        assert(norm@.skip(n as int) =~= Seq::<char>::empty());
        assert(trigram_set_of(Seq::<char>::empty()) =~= Set::<u32>::empty());
        assert(set@.union(Set::<u32>::empty()) =~= set@);
    }
    set
}

/// The Jaccard score of two trigram sets: the shared count, and the union
/// size written as both sizes summed minus the shared part. Empty-vs-empty
/// yields 0 shared out of 0 total, whose value is the defined 0.
pub fn similarity_from_sets(a: &TrigramSet, b: &TrigramSet) -> (r: Score)
    requires
        a.wf(),
        b.wf(),
    ensures
        is_score_of(r, a@, b@),
        score_wf(r),
{
    broadcast use vstd::seq_lib::group_seq_properties;

    let items = a.items();
    let n = items.len();
    let mut shared: u64 = 0;
    let mut i: usize = 0;
    proof {
        assert(items@.take(0).to_set() =~= Set::<u32>::empty());
        assert(Set::<u32>::empty().intersect(b@) =~= Set::<u32>::empty());
    }
    while i < n
        invariant
            a.wf(),
            b.wf(),
            items@.to_set() == a@,
            sorted_strict(items@),
            n == items@.len(),
            0 <= i <= n,
            shared <= i,
            shared == spec_shared(items@.take(i as int).to_set(), b@),
        decreases n - i,
    {
        let e = items[i];
        let ghost pre = items@.take(i as int).to_set();
        proof {
            assert(items@.take(i + 1) =~= items@.take(i as int).push(e));
            items@.take(i as int).lemma_push_to_set_commute(e);
            assert(items@.take(i + 1).to_set() =~= pre.insert(e));
            assert(!pre.contains(e)) by {
                if pre.contains(e) {
                    let m = choose|m: int|
                        0 <= m < items@.take(i as int).len() && items@.take(i as int)[m] == e;
                    assert(items@[m] == e);
                }
            }
            vstd::set_lib::lemma_len_subset(pre.intersect(b@), pre);
        }
        if b.contains(e) {
            proof {
                assert(pre.insert(e).intersect(b@) =~= pre.intersect(b@).insert(e));
                assert(!pre.intersect(b@).contains(e));
            }
            shared = shared + 1;
        } else {
            proof {
                assert(pre.insert(e).intersect(b@) =~= pre.intersect(b@));
            }
        }
        i = i + 1;
    }
    let bn = b.len();
    proof {
        assert(items@.take(n as int) =~= items@);
        lemma_sorted_len_bound(items@);
        lemma_sorted_no_duplicates(b.elems@);
        b.elems@.unique_seq_to_set();
        lemma_sorted_len_bound(b.elems@);
        vstd::seq_lib::seq_to_set_is_finite::<u32>(items@);
        vstd::seq_lib::seq_to_set_is_finite::<u32>(b.elems@);
    }
    let total: u64 = n as u64 + bn as u64 - shared;
    let r = Score { shared, total };
    proof {
        crate::score::lemma_score_in_range(a@, b@, r);
    }
    r
}

} // verus!
