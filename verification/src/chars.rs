//! Text normalization: case folding plus removal of the combining dot above.
//!
//! Every character is replaced by its lowercase expansion, and any
//! U+0307 (combining dot above) in the result is dropped. Folding first and
//! stripping second is deliberate: the lowercase expansion of the dotted
//! capital I introduces U+0307, and removing it makes that word equal to its
//! plain-lowercase spelling, as in the reference database.

use vstd::prelude::*;

verus! {

/// The lowercase expansion of one character, as `char::to_lowercase` yields
/// it. The mapping depends on the character alone.
pub uninterp spec fn lower_chars(c: char) -> Seq<char>;

/// Whether a character is a word character: a Unicode letter or digit, as
/// `char::is_alphanumeric` decides it. Depends on the character alone.
pub uninterp spec fn is_word_char(c: char) -> bool;

/// Relies on char::to_lowercase: the lowercase mapping of a character, a
/// function of the character alone. It yields at least one character: a
/// character with no lowercase mapping yields itself.
#[verifier::external_body]
fn char_lower(c: char) -> (r: Vec<char>)
    ensures
        r@ == lower_chars(c),
        r@.len() >= 1,
{
    c.to_lowercase().collect()
}

/// Relies on char::is_alphanumeric: whether a character is a Unicode letter
/// or digit, a function of the character alone.
#[verifier::external_body]
pub(crate) fn is_word(c: char) -> (r: bool)
    ensures
        r == is_word_char(c),
{
    c.is_alphanumeric()
}

/// `s` with every combining dot above (U+0307) removed.
pub open spec fn strip_mark(s: Seq<char>) -> Seq<char>
    decreases s.len(),
{
    if s.len() == 0 {
        Seq::empty()
    } else if s.last() == '\u{0307}' {
        strip_mark(s.drop_last())
    } else {
        strip_mark(s.drop_last()).push(s.last())
    }
}

/// The normalized form of `s`: each character case-folded, with any
/// combining dot above produced by the folding removed.
pub open spec fn normalize_spec(s: Seq<char>) -> Seq<char>
    decreases s.len(),
{
    if s.len() == 0 {
        Seq::empty()
    } else {
        normalize_spec(s.drop_last()) + strip_mark(lower_chars(s.last()))
    }
}

/// Appends the folded form of one character: its lowercase expansion with
/// combining dots above left out.
fn push_folded(out: &mut Vec<char>, c: char)
    ensures
        final(out)@ == old(out)@ + strip_mark(lower_chars(c)),
{
    let lcs = char_lower(c);
    let n = lcs.len();
    let mut j: usize = 0;
    while j < n
        invariant
            n == lcs@.len(),
            lcs@ == lower_chars(c),
            0 <= j <= n,
            out@ == old(out)@ + strip_mark(lcs@.take(j as int)),
        decreases n - j,
    {
        let lc = lcs[j];
        proof {
            assert(lcs@.take(j + 1).drop_last() =~= lcs@.take(j as int));
            assert(lcs@.take(j + 1).last() == lc);
        }
        if lc != '\u{0307}' {
            out.push(lc);
        }
        j = j + 1;
    }
    proof {
        assert(lcs@.take(n as int) =~= lcs@);
    }
}

/// The normalized form of `text`: every character case-folded to lowercase,
/// and every combining dot above (U+0307) in the folded text removed, in
/// that order.
pub fn pg_downcase(text: &str) -> (r: Vec<char>)
    ensures
        r@ == normalize_spec(text@),
{
    let mut out: Vec<char> = Vec::new();
    for c in it: text.chars()
        invariant
            it.seq() == text@,
            out@ == normalize_spec(it.seq().take(it.index() as int)),
    {
        proof {
            let s = it.seq();
            let i = it.index() as int;
            assert(s.take(i + 1).drop_last() =~= s.take(i));
            assert(s.take(i + 1).last() == s[i]);
        }
        push_folded(&mut out, c);
    }
    proof {
        assert(text@.take(text@.len() as int) =~= text@);
    }
    out
}

} // verus!
