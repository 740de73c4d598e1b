//! Accent- and case-insensitive normalization of text for search.
//!
//! The text is decomposed (NFKD), combining marks are dropped, letters and
//! digits are lowercased, every run of other characters becomes one space,
//! and trailing whitespace is removed.
//!
//! The Unicode tables (decomposition, combining classes, the alphanumeric
//! property, lowercase mappings) come from `unicode-normalization` and std;
//! each is named below by a spec function of its arguments alone.

use vstd::prelude::*;
use unicode_normalization::UnicodeNormalization;
use crate::text::{is_ws, trim_end, trim_end_index, slice_chars, string_of, append_chars};

verus! {

/// The NFKD (compatibility decomposition) of `s`.
pub uninterp spec fn nfkd(s: Seq<char>) -> Seq<char>;

/// `UnicodeNormalization::nfkd` of unicode-normalization on a `str`, collected
/// into a vector. Claimed: the characters it yields are [`nfkd`] of `s`, a
/// function of `s` alone (the crate's tables are fixed).
#[verifier::external_body]
fn nfkd_chars(s: &str) -> (r: Vec<char>)
    ensures
        r@ == nfkd(s@),
{
    s.nfkd().collect()
}

/// The Unicode canonical combining class of `c`.
pub uninterp spec fn combining_class(c: char) -> u8;

/// `unicode_normalization::char::canonical_combining_class`. Claimed: its
/// result is [`combining_class`] of `c`.
#[verifier::external_body]
fn canonical_combining_class(c: char) -> (r: u8)
    ensures
        r == combining_class(c),
{
    unicode_normalization::char::canonical_combining_class(c)
}

/// Whether `c` is alphabetic or numeric in Unicode.
pub uninterp spec fn alphanumeric(c: char) -> bool;

/// `char::is_alphanumeric` of std. Claimed: its result is [`alphanumeric`]
/// of `c`.
#[verifier::external_body]
fn char_is_alphanumeric(c: char) -> (r: bool)
    ensures
        r == alphanumeric(c),
{
    c.is_alphanumeric()
}

/// The Unicode lowercase mapping of `c` (one or more characters).
pub uninterp spec fn lowercase(c: char) -> Seq<char>;

/// `char::to_lowercase` of std, collected. Claimed: the characters it yields
/// are [`lowercase`] of `c`.
#[verifier::external_body]
fn char_to_lowercase(c: char) -> (r: Vec<char>)
    ensures
        r@ == lowercase(c),
{
    c.to_lowercase().collect()
}

/// One decomposed character: marks are dropped, letters and digits are
/// lowercased, anything else becomes a space unless one was just emitted.
/// The flag says whether the output ends in such a space (or is empty).
pub open spec fn norm_step(st: (Seq<char>, bool), c: char) -> (Seq<char>, bool) {
    if combining_class(c) != 0 {
        st
    } else if alphanumeric(c) {
        (st.0 + lowercase(c), false)
    } else if !st.1 {
        (st.0.push(' '), true)
    } else {
        st
    }
}

pub open spec fn norm_fold(cs: Seq<char>) -> (Seq<char>, bool)
    decreases cs.len(),
{
    if cs.len() == 0 {
        (Seq::empty(), true)
    } else {
        norm_step(norm_fold(cs.drop_last()), cs.last())
    }
}

/// The normalized form of already decomposed characters.
pub open spec fn normalize_decomposed_spec(cs: Seq<char>) -> Seq<char> {
    trim_end(norm_fold(cs).0)
}

/// The normalized form of `text`.
pub open spec fn normalize_spec(text: Seq<char>) -> Seq<char> {
    normalize_decomposed_spec(nfkd(text))
}

/// Normalizes characters that are already in NFKD (see
/// [`normalize_decomposed_spec`]).
pub fn normalize_decomposed(cs: &Vec<char>) -> (r: String)
    ensures
        r@ == normalize_decomposed_spec(cs@),
        r@.len() == 0 || !is_ws(r@.last()),
{
    let mut out: Vec<char> = Vec::new();
    let mut last_was_space = true;
    let mut i: usize = 0;
    while i < cs.len()
        invariant
            i <= cs.len(),
            norm_fold(cs@.take(i as int)) == (out@, last_was_space),
        decreases cs.len() - i,
    {
        let c = cs[i];
        assert(cs@.take(i + 1).drop_last() == cs@.take(i as int));
        assert(cs@.take(i + 1).last() == c);
        if canonical_combining_class(c) != 0 {
        } else if char_is_alphanumeric(c) {
            let low = char_to_lowercase(c);
            append_chars(&mut out, &low);
            last_was_space = false;
        } else if !last_was_space {
            out.push(' ');
            last_was_space = true;
        }
        i = i + 1;
    }
    assert(cs@.take(cs.len() as int) == cs@);
    let j = trim_end_index(&out);
    let kept = slice_chars(&out, 0, j);
    assert(kept@ == out@.take(j as int));
    if j > 0 {
        assert(kept@.last() == out@[j - 1]);
    }
    string_of(&kept)
}

/// Normalizes text for accent-insensitive, case-insensitive search: NFKD
/// decomposition, combining marks removed, letters and digits lowercased,
/// runs of other characters collapsed to one space, no trailing whitespace.
pub fn normalize_for_search(text: &str) -> (r: String)
    ensures
        r@ == normalize_spec(text@),
        r@.len() == 0 || !is_ws(r@.last()),
{
    let cs = nfkd_chars(text);
    normalize_decomposed(&cs)
}

// ---------------------------------------------------------------------------
// Laws
// ---------------------------------------------------------------------------

/// No space opens `s`, and no space follows another: words are separated by
/// single spaces.
pub open spec fn single_spaced(s: Seq<char>) -> bool {
    forall|i: int| 0 <= i < s.len() && #[trigger] s[i] == ' ' ==> i > 0 && s[i - 1] != ' '
}

/// The lowercase mapping of each letter or digit among `cs` that is no
/// combining mark is one or more characters, none of them a space.
pub open spec fn lowercase_spaceless(cs: Seq<char>) -> bool {
    forall|i: int|
        0 <= i < cs.len() && combining_class(#[trigger] cs[i]) == 0 && alphanumeric(cs[i]) ==> lowercase(cs[i]).len()
            > 0 && !lowercase(cs[i]).contains(' ')
}

/// The Unicode tables leave `s` as it is: `s` is its own NFKD, a space is
/// neither a combining mark nor a letter or digit, and every other character
/// of `s` is a letter or digit, no combining mark, and its own lowercase.
pub open spec fn tables_fix(s: Seq<char>) -> bool {
    nfkd(s) == s && chars_fixed(s)
}

/// The character tables leave each character of `s` as it is (see
/// [`tables_fix`]).
pub open spec fn chars_fixed(s: Seq<char>) -> bool {
    &&& combining_class(' ') == 0
    &&& !alphanumeric(' ')
    &&& forall|i: int|
        0 <= i < s.len() && #[trigger] s[i] != ' ' ==> combining_class(s[i]) == 0 && alphanumeric(s[i])
            && lowercase(s[i]) == seq![s[i]]
}

proof fn lemma_fold_spacing(cs: Seq<char>)
    requires
        lowercase_spaceless(cs),
    ensures
        single_spaced(norm_fold(cs).0),
        !norm_fold(cs).1 ==> norm_fold(cs).0.len() > 0 && norm_fold(cs).0.last() != ' ',
    decreases cs.len(),
{
    if cs.len() > 0 {
        let p = cs.drop_last();
        assert forall|i: int|
            0 <= i < p.len() && combining_class(#[trigger] p[i]) == 0 && alphanumeric(p[i]) implies lowercase(
                p[i],
            ).len() > 0 && !lowercase(p[i]).contains(' ') by {
            assert(p[i] == cs[i]);
        }
        lemma_fold_spacing(p);
        let o = norm_fold(p).0;
        let f = norm_fold(p).1;
        let c = cs.last();
        assert(norm_fold(cs) == norm_step((o, f), c));
        if combining_class(c) != 0 {
        } else if alphanumeric(c) {
            assert(cs[cs.len() - 1] == c);
            let l = lowercase(c);
            let o2 = o + l;
            assert forall|i: int| 0 <= i < o2.len() && #[trigger] o2[i] == ' ' implies i > 0 && o2[i - 1] != ' ' by {
                if i >= o.len() {
                    assert(o2[i] == l[i - o.len()]);
                    assert(l.contains(' '));
                } else {
                    assert(o2[i] == o[i]);
                    assert(o2[i - 1] == o[i - 1]);
                }
            }
            assert(o2.last() == l.last());
            if l.last() == ' ' {
                assert(l[l.len() - 1] == ' ');
                assert(l.contains(' '));
            }
        } else if !f {
            let o2 = o.push(' ');
            assert forall|i: int| 0 <= i < o2.len() && #[trigger] o2[i] == ' ' implies i > 0 && o2[i - 1] != ' ' by {
                if i < o.len() {
                    assert(o2[i] == o[i]);
                    assert(o2[i - 1] == o[i - 1]);
                } else {
                    assert(o2[i - 1] == o.last());
                }
            }
        }
    }
}

proof fn lemma_trim_end_prefix(s: Seq<char>)
    ensures
        trim_end(s).len() <= s.len(),
        trim_end(s) == s.take(trim_end(s).len() as int),
        trim_end(s).len() > 0 ==> !is_ws(trim_end(s).last()),
    decreases s.len(),
{
    if s.len() > 0 && is_ws(s.last()) {
        lemma_trim_end_prefix(s.drop_last());
        let k = trim_end(s.drop_last()).len() as int;
        assert(s.drop_last().take(k) == s.take(k));
    } else {
        assert(s.take(s.len() as int) == s);
    }
}

proof fn lemma_fixed_fold(r: Seq<char>)
    requires
        single_spaced(r),
        chars_fixed(r),
    ensures
        norm_fold(r) == (r, r.len() == 0 || r.last() == ' '),
    decreases r.len(),
{
    if r.len() > 0 {
        let p = r.drop_last();
        assert forall|i: int| 0 <= i < p.len() && #[trigger] p[i] == ' ' implies i > 0 && p[i - 1] != ' ' by {
            assert(p[i] == r[i]);
            assert(p[i - 1] == r[i - 1]);
        }
        assert forall|i: int| 0 <= i < p.len() && #[trigger] p[i] != ' ' implies combining_class(p[i]) == 0
            && alphanumeric(p[i]) && lowercase(p[i]) == seq![p[i]] by {
            assert(p[i] == r[i]);
        }
        lemma_fixed_fold(p);
        let c = r.last();
        assert(r[r.len() - 1] == c);
        if c != ' ' {
            assert(p + seq![c] == r);
        } else {
            assert(r.len() - 1 > 0 && r[r.len() - 2] != ' ');
            assert(p.last() == r[r.len() - 2]);
            assert(p.push(' ') == r);
        }
    }
}

/// Normalized text is single-spaced: no space opens it, no space follows
/// another, and no whitespace ends it, provided the lowercase mappings of
/// its letters and digits hold one or more characters and no space. And it
/// is a fixed point: normalizing it again gives it back, provided the
/// Unicode tables leave its characters as they are ([`tables_fix`]).
pub proof fn lemma_normalize_single_spaced_and_idempotent(text: Seq<char>)
    requires
        lowercase_spaceless(nfkd(text)),
    ensures
        single_spaced(normalize_spec(text)),
        normalize_spec(text).len() == 0 || !is_ws(normalize_spec(text).last()),
        tables_fix(normalize_spec(text)) ==> normalize_spec(normalize_spec(text)) == normalize_spec(text),
{
    let o = norm_fold(nfkd(text)).0;
    let r = normalize_spec(text);
    lemma_fold_spacing(nfkd(text));
    lemma_trim_end_prefix(o);
    assert(r == o.take(r.len() as int));
    assert forall|i: int| 0 <= i < r.len() && #[trigger] r[i] == ' ' implies i > 0 && r[i - 1] != ' ' by {
        assert(r[i] == o[i]);
        assert(o[i] == ' ');
        assert(r[i - 1] == o[i - 1]);
    }
    if tables_fix(r) {
        lemma_fixed_fold(r);
        assert(normalize_spec(r) == trim_end(norm_fold(r).0));
    }
}

} // verus!
