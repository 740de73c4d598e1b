//! Character-level string model shared by every module.
//!
//! The library reads strings as `Vec<char>` and states its contracts over
//! `Seq<char>`, the view that vstd gives `str` and `String`. This module holds
//! the spec functions for the usual `str` operations (trim, prefix and
//! substring tests, find, replace, split, join) and verified executable
//! versions of them.

use vstd::prelude::*;

verus! {

// ---------------------------------------------------------------------------
// Character classes
// ---------------------------------------------------------------------------

/// Unicode `White_Space`, the set that `char::is_whitespace` (and so `trim`
/// and `split_whitespace`) uses.
pub open spec fn is_ws(c: char) -> bool {
    let u = c as u32;
    ||| 0x09 <= u <= 0x0D
    ||| u == 0x20
    ||| u == 0x85
    ||| u == 0xA0
    ||| u == 0x1680
    ||| 0x2000 <= u <= 0x200A
    ||| u == 0x2028
    ||| u == 0x2029
    ||| u == 0x202F
    ||| u == 0x205F
    ||| u == 0x3000
}

pub fn is_whitespace(c: char) -> (r: bool)
    ensures
        r == is_ws(c),
{
    let u = c as u32;
    (0x09 <= u && u <= 0x0D) || u == 0x20 || u == 0x85 || u == 0xA0 || u == 0x1680 || (0x2000
        <= u && u <= 0x200A) || u == 0x2028 || u == 0x2029 || u == 0x202F || u == 0x205F || u
        == 0x3000
}

pub open spec fn is_ascii_digit_c(c: char) -> bool {
    '0' <= c <= '9'
}

pub open spec fn is_ascii_upper_c(c: char) -> bool {
    'A' <= c <= 'Z'
}

pub open spec fn is_ascii_lower_c(c: char) -> bool {
    'a' <= c <= 'z'
}

pub open spec fn is_ascii_alnum_c(c: char) -> bool {
    is_ascii_digit_c(c) || is_ascii_upper_c(c) || is_ascii_lower_c(c)
}

pub open spec fn is_ascii_c(c: char) -> bool {
    (c as u32) < 0x80
}

/// ASCII control characters: U+0000 to U+001F and U+007F.
pub open spec fn is_ascii_control_c(c: char) -> bool {
    (c as u32) < 0x20 || (c as u32) == 0x7F
}

pub open spec fn all_ascii(s: Seq<char>) -> bool {
    forall|i: int| 0 <= i < s.len() ==> is_ascii_c(#[trigger] s[i])
}

pub fn is_ascii_alphanumeric(c: char) -> (r: bool)
    ensures
        r == is_ascii_alnum_c(c),
{
    ('0' <= c && c <= '9') || ('A' <= c && c <= 'Z') || ('a' <= c && c <= 'z')
}

/// `char::to_ascii_lowercase`.
pub open spec fn ascii_lower(c: char) -> char {
    if is_ascii_upper_c(c) {
        ((c as u32) + 32) as char
    } else {
        c
    }
}

pub fn to_ascii_lower(c: char) -> (r: char)
    ensures
        r == ascii_lower(c),
{
    if 'A' <= c && c <= 'Z' {
        let u = c as u32 + 32;
        assert(0x61 <= u <= 0x7A);
        char_from_ascii(u)
    } else {
        c
    }
}

/// `str::to_ascii_lowercase`: every ASCII capital replaced by its small letter.
pub open spec fn ascii_lower_seq(s: Seq<char>) -> Seq<char> {
    s.map_values(|c: char| ascii_lower(c))
}

/// The character with code `u`, for `u` in the ASCII range.
fn char_from_ascii(u: u32) -> (c: char)
    requires
        u < 0x80,
    ensures
        c as u32 == u,
        c == u as char,
{
    let b = u as u8;
    let c = b as char;
    c
}

// ---------------------------------------------------------------------------
// Building strings
// ---------------------------------------------------------------------------

/// `String::push`: appends one character.
#[verifier::external_body]
pub(crate) fn push_char(s: &mut String, c: char)
    ensures
        final(s)@ == old(s)@.push(c),
{
    s.push(c);
}

/// The characters of `s`, in order.
pub fn chars_of(s: &str) -> (v: Vec<char>)
    ensures
        v@ == s@,
{
    let mut v: Vec<char> = Vec::new();
    for c in it: s.chars()
        invariant
            v.len() == it.index(),
            v@ == it.seq().take(it.index() as int),
    {
        v.push(c);
    }
    v
}

/// The string made of the characters of `v`.
pub fn string_of(v: &Vec<char>) -> (s: String)
    ensures
        s@ == v@,
{
    let mut s = String::new();
    let mut i: usize = 0;
    while i < v.len()
        invariant
            i <= v.len(),
            s@ == v@.take(i as int),
        decreases v.len() - i,
    {
        push_char(&mut s, v[i]);
        assert(v@.take(i + 1) == v@.take(i as int).push(v@[i as int]));
        i = i + 1;
    }
    assert(v@.take(v.len() as int) == v@);
    s
}

/// Appends all of `w` to `v`.
pub fn append_chars(v: &mut Vec<char>, w: &Vec<char>)
    ensures
        final(v)@ == old(v)@ + w@,
{
    let mut i: usize = 0;
    while i < w.len()
        invariant
            i <= w.len(),
            v@ == old(v)@ + w@.take(i as int),
        decreases w.len() - i,
    {
        v.push(w[i]);
        assert(w@.take(i + 1) == w@.take(i as int).push(w@[i as int]));
        i = i + 1;
    }
    assert(w@.take(w.len() as int) == w@);
}

/// Appends the characters of `s` to `v`.
pub fn append_str(v: &mut Vec<char>, s: &str)
    ensures
        final(v)@ == old(v)@ + s@,
{
    let w = chars_of(s);
    append_chars(v, &w);
}

/// A copy of `v[a..b]`.
pub fn slice_chars(v: &Vec<char>, a: usize, b: usize) -> (r: Vec<char>)
    requires
        a <= b <= v.len(),
    ensures
        r@ == v@.subrange(a as int, b as int),
{
    let mut r: Vec<char> = Vec::new();
    let mut i: usize = a;
    while i < b
        invariant
            a <= i <= b,
            b <= v.len(),
            r@ == v@.subrange(a as int, i as int),
        decreases b - i,
    {
        r.push(v[i]);
        assert(v@.subrange(a as int, i + 1) == v@.subrange(a as int, i as int).push(v@[i as int]));
        i = i + 1;
    }
    r
}

// ---------------------------------------------------------------------------
// Trimming
// ---------------------------------------------------------------------------

/// `str::trim_start`.
pub open spec fn trim_start(s: Seq<char>) -> Seq<char>
    decreases s.len(),
{
    if s.len() > 0 && is_ws(s[0]) {
        trim_start(s.drop_first())
    } else {
        s
    }
}

/// `str::trim_end`.
pub open spec fn trim_end(s: Seq<char>) -> Seq<char>
    decreases s.len(),
{
    if s.len() > 0 && is_ws(s.last()) {
        trim_end(s.drop_last())
    } else {
        s
    }
}

/// `str::trim`.
pub open spec fn trim(s: Seq<char>) -> Seq<char> {
    trim_end(trim_start(s))
}

/// Number of leading whitespace characters: `trim_start(s) == s.skip(i)`.
pub fn trim_start_index(v: &Vec<char>) -> (i: usize)
    ensures
        i <= v.len(),
        trim_start(v@) == v@.skip(i as int),
        forall|k: int| 0 <= k < i ==> is_ws(#[trigger] v@[k]),
        i < v.len() ==> !is_ws(v@[i as int]),
{
    let mut i: usize = 0;
    assert(v@.skip(0) == v@);
    while i < v.len() && is_whitespace(v[i])
        invariant
            i <= v.len(),
            trim_start(v@) == trim_start(v@.skip(i as int)),
            forall|k: int| 0 <= k < i ==> is_ws(#[trigger] v@[k]),
        decreases v.len() - i,
    {
        assert(v@.skip(i as int).drop_first() == v@.skip(i + 1));
        i = i + 1;
    }
    i
}

/// Length of `s` without its trailing whitespace: `trim_end(s) == s.take(j)`.
pub fn trim_end_index(v: &Vec<char>) -> (j: usize)
    ensures
        j <= v.len(),
        trim_end(v@) == v@.take(j as int),
        forall|k: int| j <= k < v.len() ==> is_ws(#[trigger] v@[k]),
        j > 0 ==> !is_ws(v@[j - 1]),
{
    let mut j: usize = v.len();
    assert(v@.take(j as int) == v@);
    while j > 0 && is_whitespace(v[j - 1])
        invariant
            j <= v.len(),
            trim_end(v@) == trim_end(v@.take(j as int)),
            forall|k: int| j <= k < v.len() ==> is_ws(#[trigger] v@[k]),
        decreases j,
    {
        assert(v@.take(j as int).drop_last() == v@.take(j - 1));
        j = j - 1;
    }
    j
}

pub proof fn lemma_trim_end_take(s: Seq<char>, j: int)
    requires
        0 <= j <= s.len(),
        j > 0 ==> !is_ws(s[j - 1]),
        forall|k: int| j <= k < s.len() ==> is_ws(#[trigger] s[k]),
    ensures
        trim_end(s) == s.take(j),
    decreases s.len(),
{
    if s.len() > j {
        assert(s.drop_last().take(j) == s.take(j));
        lemma_trim_end_take(s.drop_last(), j);
    } else {
        assert(s.take(j) == s);
    }
}

pub proof fn lemma_trim_start_skip(s: Seq<char>, i: int)
    requires
        0 <= i <= s.len(),
        i < s.len() ==> !is_ws(s[i]),
        forall|k: int| 0 <= k < i ==> is_ws(#[trigger] s[k]),
    ensures
        trim_start(s) == s.skip(i),
    decreases i,
{
    if i > 0 {
        assert(s.drop_first().skip(i - 1) == s.skip(i));
        assert forall|k: int| 0 <= k < i - 1 implies is_ws(#[trigger] s.drop_first()[k]) by {
            assert(s.drop_first()[k] == s[k + 1]);
        }
        lemma_trim_start_skip(s.drop_first(), i - 1);
    } else {
        assert(s.skip(0) == s);
    }
}

/// `str::trim` on a character vector.
pub fn trim_chars(v: &Vec<char>) -> (r: Vec<char>)
    ensures
        r@ == trim(v@),
{
    let i = trim_start_index(v);
    let j = trim_end_index(v);
    if j <= i {
        // everything is whitespace
        proof {
            assert forall|k: int| 0 <= k < v@.len() implies is_ws(#[trigger] v@[k]) by {
                if k >= i as int {
                } else {
                }
            }
            let t = trim_start(v@);
            assert(t == v@.skip(i as int));
            if t.len() > 0 {
                assert(is_ws(t[t.len() - 1]));
                lemma_trim_end_take(t, 0);
            } else {
                assert(trim_end(t) == t);
            }
            assert(trim_end(t).len() == 0);
        }
        Vec::new()
    } else {
        proof {
            let t = v@.skip(i as int);
            assert forall|k: int| j - i <= k < t.len() implies is_ws(#[trigger] t[k]) by {
                assert(t[k] == v@[k + i]);
            }
            assert(t[j - i - 1] == v@[j - 1]);
            lemma_trim_end_take(t, j - i);
            assert(t.take(j - i) == v@.subrange(i as int, j as int));
        }
        slice_chars(v, i, j)
    }
}

/// `str::trim` on a string.
pub fn trim_str(s: &str) -> (r: Vec<char>)
    ensures
        r@ == trim(s@),
{
    let v = chars_of(s);
    trim_chars(&v)
}

// ---------------------------------------------------------------------------
// Prefixes, suffixes and occurrences
// ---------------------------------------------------------------------------

pub open spec fn starts_with(s: Seq<char>, p: Seq<char>) -> bool {
    p.len() <= s.len() && s.take(p.len() as int) == p
}

pub open spec fn ends_with(s: Seq<char>, p: Seq<char>) -> bool {
    p.len() <= s.len() && s.skip(s.len() - p.len()) == p
}

/// `p` occurs in `s` at index `i`.
pub open spec fn occurs_at(s: Seq<char>, p: Seq<char>, i: int) -> bool {
    0 <= i && i + p.len() <= s.len() && s.subrange(i, i + p.len()) == p
}

/// `str::contains` with a string pattern.
pub open spec fn contains(s: Seq<char>, p: Seq<char>) -> bool {
    exists|i: int| occurs_at(s, p, i)
}

/// `i` is where `str::find` reports `p` in `s`: the first occurrence.
pub open spec fn first_occurrence(s: Seq<char>, p: Seq<char>, i: int) -> bool {
    occurs_at(s, p, i) && forall|j: int| 0 <= j < i ==> !occurs_at(s, p, j)
}

/// Whether `p` occurs in `s` at index `i`.
pub fn matches_at(s: &Vec<char>, p: &Vec<char>, i: usize) -> (r: bool)
    ensures
        r == occurs_at(s@, p@, i as int),
{
    if i > s.len() || p.len() > s.len() - i {
        return false;
    }
    let mut k: usize = 0;
    while k < p.len()
        invariant
            k <= p.len(),
            i + p.len() <= s.len(),
            forall|m: int| 0 <= m < k ==> s@[i + m] == p@[m],
        decreases p.len() - k,
    {
        if s[i + k] != p[k] {
            assert(s@.subrange(i as int, i + p.len())[k as int] != p@[k as int]);
            return false;
        }
        k = k + 1;
    }
    assert(s@.subrange(i as int, i + p.len()) == p@);
    true
}

pub fn starts_with_chars(s: &Vec<char>, p: &Vec<char>) -> (r: bool)
    ensures
        r == starts_with(s@, p@),
{
    let r = matches_at(s, p, 0);
    proof {
        if p@.len() <= s@.len() {
            assert(s@.subrange(0, p@.len() as int) == s@.take(p@.len() as int));
        }
    }
    r
}

pub fn ends_with_chars(s: &Vec<char>, p: &Vec<char>) -> (r: bool)
    ensures
        r == ends_with(s@, p@),
{
    if p.len() > s.len() {
        return false;
    }
    let r = matches_at(s, p, s.len() - p.len());
    proof {
        assert(s@.subrange(s@.len() - p@.len(), s@.len() as int) == s@.skip(s@.len() - p@.len()));
    }
    r
}

/// `str::find`: the first index at or after `from` where `p` occurs.
pub fn find_from(s: &Vec<char>, p: &Vec<char>, from: usize) -> (r: Option<usize>)
    ensures
        match r {
            Some(i) => from <= i && occurs_at(s@, p@, i as int) && forall|j: int|
                from <= j < i ==> !occurs_at(s@, p@, j),
            None => forall|j: int| from <= j ==> !occurs_at(s@, p@, j),
        },
{
    if p.len() > s.len() {
        return None;
    }
    let last = s.len() - p.len();
    if from > last {
        return None;
    }
    let mut i: usize = from;
    loop
        invariant
            from <= i <= last,
            last == s.len() - p.len(),
            forall|j: int| from <= j < i ==> !occurs_at(s@, p@, j),
        decreases last - i,
    {
        if matches_at(s, p, i) {
            return Some(i);
        }
        if i == last {
            return None;
        }
        i = i + 1;
    }
}

pub fn find_chars(s: &Vec<char>, p: &Vec<char>) -> (r: Option<usize>)
    ensures
        match r {
            Some(i) => first_occurrence(s@, p@, i as int),
            None => !contains(s@, p@),
        },
{
    find_from(s, p, 0)
}

pub fn contains_chars(s: &Vec<char>, p: &Vec<char>) -> (r: bool)
    ensures
        r == contains(s@, p@),
{
    match find_chars(s, p) {
        Some(_) => true,
        None => false,
    }
}

/// `str::contains` on two strings.
pub fn str_contains(s: &str, p: &str) -> (r: bool)
    ensures
        r == contains(s@, p@),
{
    let sv = chars_of(s);
    let pv = chars_of(p);
    contains_chars(&sv, &pv)
}

/// `str::starts_with` on two strings.
pub fn str_starts_with(s: &str, p: &str) -> (r: bool)
    ensures
        r == starts_with(s@, p@),
{
    let sv = chars_of(s);
    let pv = chars_of(p);
    starts_with_chars(&sv, &pv)
}

/// Index of the first occurrence of `c`.
pub open spec fn first_char_index(s: Seq<char>, c: char, i: int) -> bool {
    0 <= i < s.len() && s[i] == c && forall|j: int| 0 <= j < i ==> s[j] != c
}

pub fn find_char(s: &Vec<char>, c: char) -> (r: Option<usize>)
    ensures
        match r {
            Some(i) => first_char_index(s@, c, i as int),
            None => forall|j: int| 0 <= j < s@.len() ==> s@[j] != c,
        },
{
    let mut i: usize = 0;
    while i < s.len()
        invariant
            i <= s.len(),
            forall|j: int| 0 <= j < i ==> s@[j] != c,
        decreases s.len() - i,
    {
        if s[i] == c {
            return Some(i);
        }
        i = i + 1;
    }
    None
}

// ---------------------------------------------------------------------------
// Replacement
// ---------------------------------------------------------------------------

/// `str::replace(pat, rep)` with a non-empty pattern: occurrences are replaced
/// left to right, without overlap.
pub open spec fn replace_all(s: Seq<char>, pat: Seq<char>, rep: Seq<char>) -> Seq<char>
    decreases s.len(),
{
    if s.len() == 0 {
        Seq::empty()
    } else if pat.len() > 0 && starts_with(s, pat) {
        rep + replace_all(s.skip(pat.len() as int), pat, rep)
    } else {
        seq![s[0]] + replace_all(s.drop_first(), pat, rep)
    }
}

pub fn replace_chars(s: &Vec<char>, pat: &Vec<char>, rep: &Vec<char>) -> (r: Vec<char>)
    requires
        pat.len() > 0,
    ensures
        r@ == replace_all(s@, pat@, rep@),
{
    let mut out: Vec<char> = Vec::new();
    let mut i: usize = 0;
    assert(s@.skip(0) == s@);
    while i < s.len()
        invariant
            i <= s.len(),
            pat.len() > 0,
            replace_all(s@, pat@, rep@) == out@ + replace_all(s@.skip(i as int), pat@, rep@),
        decreases s.len() - i,
    {
        let ghost rest = s@.skip(i as int);
        if matches_at(s, pat, i) {
            proof {
                assert(rest.take(pat@.len() as int) == s@.subrange(i as int, i + pat@.len()));
                assert(rest.skip(pat@.len() as int) == s@.skip(i + pat@.len()));
            }
            append_chars(&mut out, rep);
            i = i + pat.len();
        } else {
            proof {
                if pat@.len() <= rest.len() {
                    assert(rest.take(pat@.len() as int) == s@.subrange(i as int, i + pat@.len()));
                }
                assert(rest.drop_first() == s@.skip(i + 1));
                assert(rest[0] == s@[i as int]);
            }
            out.push(s[i]);
            i = i + 1;
        }
    }
    assert(s@.skip(i as int).len() == 0);
    out
}

/// `s.replace(pat, rep)` on strings.
pub fn str_replace(s: &Vec<char>, pat: &str, rep: &str) -> (r: Vec<char>)
    requires
        pat@.len() > 0,
    ensures
        r@ == replace_all(s@, pat@, rep@),
{
    let p = chars_of(pat);
    let q = chars_of(rep);
    replace_chars(s, &p, &q)
}

// ---------------------------------------------------------------------------
// Splitting and joining
// ---------------------------------------------------------------------------

/// The pieces of `s` between occurrences of `sep` as `str::split(char)`
/// cuts them: the finished pieces, and the piece still open.
pub open spec fn split_state(s: Seq<char>, sep: char) -> (Seq<Seq<char>>, Seq<char>)
    decreases s.len(),
{
    if s.len() == 0 {
        (Seq::empty(), Seq::empty())
    } else {
        let (done, cur) = split_state(s.drop_last(), sep);
        if s.last() == sep {
            (done.push(cur), Seq::empty())
        } else {
            (done, cur.push(s.last()))
        }
    }
}

/// `str::split(sep)` with a character separator.
pub open spec fn split_char(s: Seq<char>, sep: char) -> Seq<Seq<char>> {
    split_state(s, sep).0.push(split_state(s, sep).1)
}

pub fn split_chars(s: &Vec<char>, sep: char) -> (r: Vec<Vec<char>>)
    ensures
        r@.len() == split_char(s@, sep).len(),
        forall|k: int| 0 <= k < r@.len() ==> #[trigger] r@[k]@ == split_char(s@, sep)[k],
{
    let mut done: Vec<Vec<char>> = Vec::new();
    let mut cur: Vec<char> = Vec::new();
    let mut i: usize = 0;
    while i < s.len()
        invariant
            i <= s.len(),
            done@.len() == split_state(s@.take(i as int), sep).0.len(),
            forall|k: int|
                0 <= k < done@.len() ==> #[trigger] done@[k]@ == split_state(
                    s@.take(i as int),
                    sep,
                ).0[k],
            cur@ == split_state(s@.take(i as int), sep).1,
        decreases s.len() - i,
    {
        assert(s@.take(i + 1).drop_last() == s@.take(i as int));
        let c = s[i];
        if c == sep {
            let piece = cur;
            done.push(piece);
            cur = Vec::new();
        } else {
            cur.push(c);
        }
        i = i + 1;
    }
    assert(s@.take(s@.len() as int) == s@);
    done.push(cur);
    done
}

/// The maximal runs of non-whitespace characters, as `str::split_whitespace`
/// yields them: finished words and the word still open.
pub open spec fn words_state(s: Seq<char>) -> (Seq<Seq<char>>, Seq<char>)
    decreases s.len(),
{
    if s.len() == 0 {
        (Seq::empty(), Seq::empty())
    } else {
        let (done, cur) = words_state(s.drop_last());
        if is_ws(s.last()) {
            if cur.len() > 0 {
                (done.push(cur), Seq::empty())
            } else {
                (done, cur)
            }
        } else {
            (done, cur.push(s.last()))
        }
    }
}

/// `str::split_whitespace`.
pub open spec fn words(s: Seq<char>) -> Seq<Seq<char>> {
    let (done, cur) = words_state(s);
    if cur.len() > 0 {
        done.push(cur)
    } else {
        done
    }
}

pub fn split_whitespace_chars(s: &Vec<char>) -> (r: Vec<Vec<char>>)
    ensures
        r@.len() == words(s@).len(),
        forall|k: int| 0 <= k < r@.len() ==> #[trigger] r@[k]@ == words(s@)[k],
{
    let mut done: Vec<Vec<char>> = Vec::new();
    let mut cur: Vec<char> = Vec::new();
    let mut i: usize = 0;
    while i < s.len()
        invariant
            i <= s.len(),
            done@.len() == words_state(s@.take(i as int)).0.len(),
            forall|k: int|
                0 <= k < done@.len() ==> #[trigger] done@[k]@ == words_state(
                    s@.take(i as int),
                ).0[k],
            cur@ == words_state(s@.take(i as int)).1,
        decreases s.len() - i,
    {
        assert(s@.take(i + 1).drop_last() == s@.take(i as int));
        let c = s[i];
        if is_whitespace(c) {
            if cur.len() > 0 {
                let piece = cur;
                done.push(piece);
                cur = Vec::new();
            }
        } else {
            cur.push(c);
        }
        i = i + 1;
    }
    assert(s@.take(s@.len() as int) == s@);
    if cur.len() > 0 {
        done.push(cur);
    }
    done
}

/// `[T]::join(sep)` on character sequences.
pub open spec fn join(parts: Seq<Seq<char>>, sep: Seq<char>) -> Seq<char>
    decreases parts.len(),
{
    if parts.len() == 0 {
        Seq::empty()
    } else if parts.len() == 1 {
        parts[0]
    } else {
        join(parts.drop_last(), sep) + sep + parts.last()
    }
}

/// The views of a vector of character vectors.
pub open spec fn views(v: Seq<Vec<char>>) -> Seq<Seq<char>> {
    v.map_values(|w: Vec<char>| w@)
}

pub fn join_chars(parts: &Vec<Vec<char>>, sep: &Vec<char>) -> (r: Vec<char>)
    ensures
        r@ == join(views(parts@), sep@),
{
    let mut out: Vec<char> = Vec::new();
    let mut i: usize = 0;
    while i < parts.len()
        invariant
            i <= parts.len(),
            out@ == join(views(parts@).take(i as int), sep@),
        decreases parts.len() - i,
    {
        let ghost pv = views(parts@);
        proof {
            assert(pv.take(i + 1).drop_last() == pv.take(i as int));
            assert(pv.take(i + 1).last() == parts@[i as int]@);
        }
        if i > 0 {
            append_chars(&mut out, sep);
        } else {
            assert(pv.take(1)[0] == parts@[0]@);
        }
        append_chars(&mut out, &parts[i]);
        i = i + 1;
    }
    assert(views(parts@).take(parts.len() as int) == views(parts@));
    out
}

/// `str::eq_ignore_ascii_case`.
pub open spec fn eq_ignore_ascii_case(a: Seq<char>, b: Seq<char>) -> bool {
    ascii_lower_seq(a) == ascii_lower_seq(b)
}

pub fn eq_ignore_ascii_case_chars(a: &Vec<char>, b: &Vec<char>) -> (r: bool)
    ensures
        r == eq_ignore_ascii_case(a@, b@),
{
    if a.len() != b.len() {
        assert(ascii_lower_seq(a@).len() != ascii_lower_seq(b@).len());
        return false;
    }
    let mut i: usize = 0;
    while i < a.len()
        invariant
            i <= a.len(),
            a.len() == b.len(),
            forall|k: int| 0 <= k < i ==> ascii_lower(a@[k]) == ascii_lower(b@[k]),
        decreases a.len() - i,
    {
        if to_ascii_lower(a[i]) != to_ascii_lower(b[i]) {
            assert(ascii_lower_seq(a@)[i as int] != ascii_lower_seq(b@)[i as int]);
            return false;
        }
        i = i + 1;
    }
    assert(ascii_lower_seq(a@) == ascii_lower_seq(b@));
    true
}

/// `str::to_ascii_lowercase`.
pub fn ascii_lowercase_chars(v: &Vec<char>) -> (r: Vec<char>)
    ensures
        r@ == ascii_lower_seq(v@),
{
    let mut out: Vec<char> = Vec::new();
    let mut i: usize = 0;
    while i < v.len()
        invariant
            i <= v.len(),
            out@ == ascii_lower_seq(v@.take(i as int)),
        decreases v.len() - i,
    {
        assert(ascii_lower_seq(v@.take(i + 1)) == ascii_lower_seq(v@.take(i as int)).push(
            ascii_lower(v@[i as int]),
        ));
        out.push(to_ascii_lower(v[i]));
        i = i + 1;
    }
    assert(v@.take(v.len() as int) == v@);
    out
}


// ---------------------------------------------------------------------------
// Numbers and equality
// ---------------------------------------------------------------------------

/// The decimal digit `d`.
pub open spec fn digit_char(d: nat) -> char {
    (48 + d) as char
}

/// The decimal representation of `n`, as `format!("{n}")` writes it.
pub open spec fn decimal(n: nat) -> Seq<char>
    decreases n,
{
    if n < 10 {
        seq![digit_char(n)]
    } else {
        decimal(n / 10).push(digit_char(n % 10))
    }
}

/// Appends the decimal representation of `n`.
pub fn push_decimal(v: &mut Vec<char>, n: u64)
    ensures
        final(v)@ == old(v)@ + decimal(n as nat),
    decreases n,
{
    if n >= 10 {
        push_decimal(v, n / 10);
    }
    let d = char_from_ascii((48 + n % 10) as u32);
    v.push(d);
    proof {
        if n >= 10 {
            assert(decimal(n as nat) == decimal((n / 10) as nat).push(digit_char((n % 10) as nat)));
        } else {
            assert(decimal(n as nat) == seq![digit_char(n as nat)]);
        }
    }
}

/// The decimal representation of `n` as a string.
pub fn decimal_string(n: u64) -> (s: String)
    ensures
        s@ == decimal(n as nat),
{
    let mut v: Vec<char> = Vec::new();
    push_decimal(&mut v, n);
    assert(v@ == decimal(n as nat));
    string_of(&v)
}

/// Whether two strings hold the same characters.
pub fn str_eq(a: &str, b: &str) -> (r: bool)
    ensures
        r == (a@ == b@),
{
    a.to_owned() == b.to_owned()
}

/// The Unicode lowercase form of `s`.
pub uninterp spec fn lowercase_str(s: Seq<char>) -> Seq<char>;

/// `str::to_lowercase` of std. Claimed: its result is [`lowercase_str`] of
/// `s`, a function of `s` alone.
#[verifier::external_body]
pub(crate) fn to_lowercase(s: &str) -> (r: String)
    ensures
        r@ == lowercase_str(s@),
{
    s.to_lowercase()
}


// ---------------------------------------------------------------------------
// Percent-encoding
// ---------------------------------------------------------------------------

/// Bytes that percent-encoding leaves as they are: ASCII letters and digits,
/// `-`, `.`, `_` and `~`.
pub open spec fn url_safe_byte(b: u8) -> bool {
    (48 <= b <= 57) || (65 <= b <= 90) || (97 <= b <= 122) || b == 45 || b == 46 || b == 95 || b
        == 126
}

/// The uppercase hexadecimal digit for `d < 16`.
pub open spec fn hex_upper_digit(d: int) -> char {
    if d < 10 {
        (48 + d) as char
    } else {
        (55 + d) as char
    }
}

/// Every byte that is not URL-safe written as `%XX` (uppercase hex).
pub open spec fn percent_encode(bytes: Seq<u8>) -> Seq<char>
    decreases bytes.len(),
{
    if bytes.len() == 0 {
        Seq::empty()
    } else {
        let b = bytes.last();
        percent_encode(bytes.drop_last()) + if url_safe_byte(b) {
            seq![b as char]
        } else {
            seq!['%', hex_upper_digit((b / 16) as int), hex_upper_digit((b % 16) as int)]
        }
    }
}

/// `urlencoding::encode`. Claimed, as its documentation and source state: every
/// byte of the UTF-8 encoding of `s` except ASCII alphanumerics and `-`, `_`,
/// `.`, `~` is written as `%` and two uppercase hex digits.
#[verifier::external_body]
pub(crate) fn url_encode(s: &str) -> (r: String)
    ensures
        r@ == percent_encode(vstd::utf8::encode_utf8(s@)),
{
    urlencoding::encode(s).into_owned()
}


// ---------------------------------------------------------------------------
// More searching
// ---------------------------------------------------------------------------

/// Whether two character vectors are equal.
pub fn chars_eq(a: &Vec<char>, b: &Vec<char>) -> (r: bool)
    ensures
        r == (a@ == b@),
{
    if a.len() != b.len() {
        return false;
    }
    let mut i: usize = 0;
    while i < a.len()
        invariant
            i <= a.len(),
            a.len() == b.len(),
            forall|k: int| 0 <= k < i ==> a@[k] == b@[k],
        decreases a.len() - i,
    {
        if a[i] != b[i] {
            return false;
        }
        i = i + 1;
    }
    assert(a@ == b@);
    true
}

/// `i` is the last index where `p` occurs in `s`.
pub open spec fn last_occurrence(s: Seq<char>, p: Seq<char>, i: int) -> bool {
    occurs_at(s, p, i) && forall|j: int| i < j ==> !occurs_at(s, p, j)
}

/// What follows the last occurrence of `p` in `s`, or all of `s` when `p`
/// does not occur: the first piece `str::rsplit(p)` yields.
pub open spec fn after_last(s: Seq<char>, p: Seq<char>) -> Seq<char> {
    if exists|i: int| last_occurrence(s, p, i) {
        let i = choose|i: int| last_occurrence(s, p, i);
        s.skip(i + p.len())
    } else {
        s
    }
}

/// The last index where `p` occurs in `s`.
pub fn rfind_chars(s: &Vec<char>, p: &Vec<char>) -> (r: Option<usize>)
    ensures
        match r {
            Some(i) => last_occurrence(s@, p@, i as int),
            None => forall|j: int| !occurs_at(s@, p@, j),
        },
{
    let mut i: usize = s.len();
    loop
        invariant
            i <= s.len(),
            forall|j: int| i < j ==> !occurs_at(s@, p@, j),
        decreases i,
    {
        if matches_at(s, p, i) {
            return Some(i);
        }
        if i == 0 {
            return None;
        }
        i = i - 1;
    }
}

/// What follows the last occurrence of `p` in `s` (see [`after_last`]).
pub fn after_last_chars(s: &Vec<char>, p: &Vec<char>) -> (r: Vec<char>)
    ensures
        r@ == after_last(s@, p@),
{
    match rfind_chars(s, p) {
        Some(i) => {
            proof {
                let k = choose|k: int| last_occurrence(s@, p@, k);
                assert(k == i);
            }
            assert(occurs_at(s@, p@, i as int));
            let pl = p.len();
            let sl = s.len();
            assert(i + pl <= sl);
            let e = i + pl;
            slice_chars(s, e, s.len())
        },
        None => {
            let r = slice_chars(s, 0, s.len());
            assert(r@ == s@);
            r
        },
    }
}

/// `s` with every leading repetition of `p` removed (`str::trim_start_matches`).
pub open spec fn strip_prefix_all(s: Seq<char>, p: Seq<char>) -> Seq<char>
    decreases s.len(),
{
    if p.len() > 0 && starts_with(s, p) {
        strip_prefix_all(s.skip(p.len() as int), p)
    } else {
        s
    }
}

/// `str::trim_start_matches` with a string pattern.
pub fn strip_prefix_all_chars(s: &Vec<char>, p: &Vec<char>) -> (r: Vec<char>)
    ensures
        r@ == strip_prefix_all(s@, p@),
{
    if p.len() == 0 {
        let r = slice_chars(s, 0, s.len());
        assert(r@ == s@);
        return r;
    }
    let mut i: usize = 0;
    assert(s@.skip(0) == s@);
    while matches_at(s, p, i)
        invariant
            i <= s.len(),
            p.len() > 0,
            strip_prefix_all(s@, p@) == strip_prefix_all(s@.skip(i as int), p@),
        decreases s.len() - i,
    {
        proof {
            assert(s@.skip(i as int).take(p@.len() as int) == s@.subrange(i as int, i + p@.len()));
            assert(s@.skip(i as int).skip(p@.len() as int) == s@.skip(i + p@.len()));
        }
        i = i + p.len();
    }
    proof {
        if p@.len() <= s@.skip(i as int).len() {
            assert(s@.skip(i as int).take(p@.len() as int) == s@.subrange(i as int, i + p@.len()));
        }
    }
    slice_chars(s, i, s.len())
}

/// `s` without its trailing repetitions of `c` (`str::trim_end_matches(char)`).
pub open spec fn strip_suffix_char_all(s: Seq<char>, c: char) -> Seq<char>
    decreases s.len(),
{
    if s.len() > 0 && s.last() == c {
        strip_suffix_char_all(s.drop_last(), c)
    } else {
        s
    }
}

/// `str::trim_end_matches` with a character pattern.
pub fn strip_suffix_char_all_chars(s: &Vec<char>, c: char) -> (r: Vec<char>)
    ensures
        r@ == strip_suffix_char_all(s@, c),
{
    let mut j: usize = s.len();
    assert(s@.take(j as int) == s@);
    while j > 0 && s[j - 1] == c
        invariant
            j <= s.len(),
            strip_suffix_char_all(s@, c) == strip_suffix_char_all(s@.take(j as int), c),
        decreases j,
    {
        assert(s@.take(j as int).drop_last() == s@.take(j - 1));
        j = j - 1;
    }
    slice_chars(s, 0, j)
}


// ---------------------------------------------------------------------------
// Integer parsing
// ---------------------------------------------------------------------------

pub open spec fn is_digit(c: char) -> bool {
    '0' <= c <= '9'
}

pub open spec fn all_digits(s: Seq<char>) -> bool {
    forall|i: int| 0 <= i < s.len() ==> is_digit(#[trigger] s[i])
}

/// The value of a string of decimal digits.
pub open spec fn digits_value(s: Seq<char>) -> int
    decreases s.len(),
{
    if s.len() == 0 {
        0
    } else {
        digits_value(s.drop_last()) * 10 + (s.last() as int - 48)
    }
}

/// `str::parse::<i64>`: an optional `+` or `-`, then one or more ASCII
/// digits, whose value fits in `i64`.
pub open spec fn parse_i64_spec(s: Seq<char>) -> Option<i64> {
    let neg = s.len() > 0 && s[0] == '-';
    let ds = if s.len() > 0 && (s[0] == '-' || s[0] == '+') {
        s.drop_first()
    } else {
        s
    };
    if ds.len() == 0 || !all_digits(ds) {
        None
    } else {
        let v = if neg {
            -digits_value(ds)
        } else {
            digits_value(ds)
        };
        if i64::MIN <= v <= i64::MAX {
            Some(v as i64)
        } else {
            None
        }
    }
}

proof fn lemma_digits_nonneg_mono(s: Seq<char>, k: int)
    requires
        all_digits(s),
        0 <= k <= s.len(),
    ensures
        0 <= digits_value(s.take(k)) <= digits_value(s),
    decreases s.len() - k,
{
    if k < s.len() {
        assert(all_digits(s.take(k + 1))) by {
            assert forall|i: int| 0 <= i < s.take(k + 1).len() implies is_digit(#[trigger] s.take(k + 1)[i]) by {
                assert(s.take(k + 1)[i] == s[i]);
            }
        }
        assert(s.take(k + 1).drop_last() == s.take(k));
        lemma_digits_nonneg_mono(s, k + 1);
        lemma_digits_nonneg(s.take(k));
    } else {
        assert(s.take(k) == s);
        lemma_digits_nonneg(s);
    }
}

proof fn lemma_digits_nonneg(s: Seq<char>)
    requires
        forall|i: int| 0 <= i < s.len() ==> is_digit(#[trigger] s[i]),
    ensures
        digits_value(s) >= 0,
    decreases s.len(),
{
    if s.len() > 0 {
        assert forall|i: int| 0 <= i < s.drop_last().len() implies is_digit(#[trigger] s.drop_last()[i]) by {
            assert(s.drop_last()[i] == s[i]);
        }
        lemma_digits_nonneg(s.drop_last());
        assert(is_digit(s[s.len() - 1]));
    }
}

/// `str::parse::<i64>` (see [`parse_i64_spec`]).
#[verifier::loop_isolation(false)]
pub fn parse_i64(s: &str) -> (r: Option<i64>)
    ensures
        r == parse_i64_spec(s@),
{
    let v = chars_of(s);
    let neg = v.len() > 0 && v[0] == '-';
    let start: usize = if v.len() > 0 && (v[0] == '-' || v[0] == '+') {
        1
    } else {
        0
    };
    let ghost ds = if v@.len() > 0 && (v@[0] == '-' || v@[0] == '+') {
        v@.drop_first()
    } else {
        v@
    };
    assert(ds == v@.skip(start as int));
    if start == v.len() {
        return None;
    }
    let mut mag: u64 = 0;
    let mut i: usize = start;
    while i < v.len()
        invariant
            start <= i <= v.len(),
            ds == v@.skip(start as int),
            all_digits(ds.take(i - start)),
            mag == digits_value(ds.take(i - start)),
        decreases v.len() - i,
    {
        let c = v[i];
        assert(ds[i - start] == c);
        if !('0' <= c && c <= '9') {
            assert(!all_digits(ds));
            return None;
        }
        let d = (c as u32 - 48) as u64;
        assert(ds.take(i - start + 1).drop_last() == ds.take(i - start));
        assert(ds.take(i - start + 1).last() == c);
        assert(all_digits(ds.take(i - start + 1))) by {
            assert forall|k: int| 0 <= k < ds.take(i - start + 1).len() implies is_digit(#[trigger] ds.take(i - start + 1)[k]) by {
                if k < i - start {
                    assert(ds.take(i - start + 1)[k] == ds.take(i - start)[k]);
                }
            }
        }
        if mag > (u64::MAX - d) / 10 {
            proof {
                assert(mag * 10 + d > u64::MAX) by (nonlinear_arith)
                    requires
                        mag > (u64::MAX - d) / 10,
                        d <= 9,
                ;
                if all_digits(ds) {
                    lemma_digits_nonneg_mono(ds, i - start + 1);
                }
            }
            return None;
        }
        mag = mag * 10 + d;
        i = i + 1;
    }
    assert(ds.take(i - start) == ds);
    if neg {
        if mag > 9223372036854775808u64 {
            return None;
        }
        if mag == 9223372036854775808u64 {
            return Some(i64::MIN);
        }
        Some(-(mag as i64))
    } else {
        if mag > 9223372036854775807u64 {
            return None;
        }
        Some(mag as i64)
    }
}

/// `str::parse::<u64>`: an optional `+`, then one or more ASCII digits,
/// whose value fits in `u64`.
pub open spec fn parse_u64_spec(s: Seq<char>) -> Option<u64> {
    let ds = if s.len() > 0 && s[0] == '+' {
        s.drop_first()
    } else {
        s
    };
    if ds.len() == 0 || !all_digits(ds) || digits_value(ds) > u64::MAX {
        None
    } else {
        Some(digits_value(ds) as u64)
    }
}

/// `str::parse::<u64>` (see [`parse_u64_spec`]).
#[verifier::loop_isolation(false)]
pub fn parse_u64(s: &str) -> (r: Option<u64>)
    ensures
        r == parse_u64_spec(s@),
{
    let v = chars_of(s);
    let start: usize = if v.len() > 0 && v[0] == '+' {
        1
    } else {
        0
    };
    let ghost ds = if v@.len() > 0 && v@[0] == '+' {
        v@.drop_first()
    } else {
        v@
    };
    assert(ds == v@.skip(start as int));
    if start == v.len() {
        return None;
    }
    let mut mag: u64 = 0;
    let mut i: usize = start;
    while i < v.len()
        invariant
            start <= i <= v.len(),
            ds == v@.skip(start as int),
            all_digits(ds.take(i - start)),
            mag == digits_value(ds.take(i - start)),
        decreases v.len() - i,
    {
        let c = v[i];
        assert(ds[i - start] == c);
        if !('0' <= c && c <= '9') {
            assert(!all_digits(ds));
            return None;
        }
        let d = (c as u32 - 48) as u64;
        assert(ds.take(i - start + 1).drop_last() == ds.take(i - start));
        assert(ds.take(i - start + 1).last() == c);
        assert(all_digits(ds.take(i - start + 1))) by {
            assert forall|k: int| 0 <= k < ds.take(i - start + 1).len() implies is_digit(#[trigger] ds.take(i - start + 1)[k]) by {
                if k < i - start {
                    assert(ds.take(i - start + 1)[k] == ds.take(i - start)[k]);
                }
            }
        }
        if mag > (u64::MAX - d) / 10 {
            proof {
                assert(mag * 10 + d > u64::MAX) by (nonlinear_arith)
                    requires
                        mag > (u64::MAX - d) / 10,
                        d <= 9,
                ;
                if all_digits(ds) {
                    lemma_digits_nonneg_mono(ds, i - start + 1);
                }
            }
            return None;
        }
        mag = mag * 10 + d;
        i = i + 1;
    }
    assert(ds.take(i - start) == ds);
    Some(mag)
}

} // verus!
