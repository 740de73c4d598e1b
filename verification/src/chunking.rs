//! Splitting documents into overlapping chunks that respect paragraph,
//! sentence and word boundaries.
//!
//! Sizes and offsets are in UTF-8 bytes, as `str::len` counts them. The model
//! of every step is a spec function that returns `None` where the step cannot
//! complete (a cut that falls inside a character, an offset that does not fit
//! in `usize`): those are the inputs on which the computation would panic.

use vstd::prelude::*;
use crate::text::{all_ascii, chars_of, is_ascii_c, slice_chars, starts_with, trim, trim_chars, trim_start, trim_start_index, string_of, words, split_whitespace_chars, append_chars};

verus! {

/// Target number of bytes per chunk (about 384 tokens at about 4 bytes per token).
pub const DEFAULT_CHUNK_CHARS: usize = 1536;

/// Overlap in bytes between consecutive chunks (about 64 tokens).
pub const DEFAULT_OVERLAP_CHARS: usize = 256;

/// Minimum chunk size in bytes (about 40 tokens). Smaller tails are merged.
pub const MIN_CHUNK_CHARS: usize = 160;

/// Maximum number of chunks per document.
pub const MAX_CHUNKS_PER_DOC: usize = 2000;

// ---------------------------------------------------------------------------
// UTF-8 byte lengths
// ---------------------------------------------------------------------------

/// Bytes in the UTF-8 encoding of `c` (`char::len_utf8`).
pub open spec fn char_bytes(c: char) -> nat {
    let u = c as u32;
    if u < 0x80 {
        1
    } else if u < 0x800 {
        2
    } else if u < 0x10000 {
        3
    } else {
        4
    }
}

/// Bytes in the UTF-8 encoding of `s` (`str::len`).
pub open spec fn blen(s: Seq<char>) -> nat
    decreases s.len(),
{
    if s.len() == 0 {
        0
    } else {
        char_bytes(s[0]) + blen(s.drop_first())
    }
}

pub proof fn lemma_blen_concat(a: Seq<char>, b: Seq<char>)
    ensures
        blen(a + b) == blen(a) + blen(b),
    decreases a.len(),
{
    if a.len() == 0 {
        assert(a + b == b);
    } else {
        assert((a + b).drop_first() == a.drop_first() + b);
        assert((a + b)[0] == a[0]);
        lemma_blen_concat(a.drop_first(), b);
    }
}

pub proof fn lemma_blen_push(a: Seq<char>, c: char)
    ensures
        blen(a.push(c)) == blen(a) + char_bytes(c),
{
    assert(a.push(c) == a + seq![c]);
    lemma_blen_concat(a, seq![c]);
    assert(seq![c].drop_first().len() == 0);
    assert(blen(seq![c].drop_first()) == 0);
    assert(seq![c][0] == c);
    assert(blen(seq![c]) == char_bytes(c));
}

pub proof fn lemma_blen_ascii(s: Seq<char>)
    requires
        all_ascii(s),
    ensures
        blen(s) == s.len(),
    decreases s.len(),
{
    if s.len() > 0 {
        assert(is_ascii_c(s[0]));
        assert(all_ascii(s.drop_first())) by {
            assert forall|i: int| 0 <= i < s.drop_first().len() implies is_ascii_c(
                #[trigger] s.drop_first()[i],
            ) by {
                assert(s.drop_first()[i] == s[i + 1]);
            }
        }
        lemma_blen_ascii(s.drop_first());
    }
}

pub proof fn lemma_blen_take_mono(s: Seq<char>, i: int, j: int)
    requires
        0 <= i <= j <= s.len(),
    ensures
        blen(s.take(i)) + (j - i) <= blen(s.take(j)),
        i < j ==> blen(s.take(i)) < blen(s.take(j)),
    decreases j - i,
{
    if i < j {
        lemma_blen_take_mono(s, i, j - 1);
        assert(s.take(j) == s.take(j - 1).push(s[j - 1]));
        lemma_blen_push(s.take(j - 1), s[j - 1]);
    }
}

/// The byte length of a `str` is the byte length of its characters.
pub proof fn lemma_blen_utf8(s: Seq<char>)
    ensures
        blen(s) == vstd::utf8::encode_utf8(s).len(),
    decreases s.len(),
{
    if s.len() > 0 {
        let u = s[0] as u32;
        vstd::utf8::char_is_scalar(s[0]);
        assert(vstd::utf8::encode_scalar(u).len() == char_bytes(s[0]));
        lemma_blen_utf8(s.drop_first());
    }
}

/// `char::len_utf8`.
pub fn char_byte_len(c: char) -> (r: usize)
    ensures
        r == char_bytes(c),
        1 <= r <= 4,
{
    let u = c as u32;
    if u < 0x80 {
        1
    } else if u < 0x800 {
        2
    } else if u < 0x10000 {
        3
    } else {
        4
    }
}

/// The byte length of `v`, or `None` when it exceeds `usize`.
pub fn byte_len(v: &Vec<char>) -> (r: Option<usize>)
    ensures
        blen(v@) <= usize::MAX ==> r == Some(blen(v@) as usize),
        blen(v@) > usize::MAX ==> r is None,
{
    let mut n: usize = 0;
    let mut i: usize = 0;
    while i < v.len()
        invariant
            i <= v.len(),
            n == blen(v@.take(i as int)),
        decreases v.len() - i,
    {
        proof {
            assert(v@.take(i + 1) == v@.take(i as int).push(v@[i as int]));
            lemma_blen_push(v@.take(i as int), v@[i as int]);
        }
        let b = char_byte_len(v[i]);
        if n > usize::MAX - b {
            proof {
                lemma_blen_take_mono(v@, i + 1, v@.len() as int);
                assert(v@.take(v@.len() as int) == v@);
            }
            return None;
        }
        n = n + b;
        i = i + 1;
    }
    assert(v@.take(v@.len() as int) == v@);
    Some(n)
}

// ---------------------------------------------------------------------------
// Paragraphs
// ---------------------------------------------------------------------------

pub open spec fn blank_line() -> Seq<char> {
    seq!['\n', '\n']
}

/// `str::split("\n\n")` of `s`, where the first piece starts with `cur`.
pub open spec fn split_blank_from(s: Seq<char>, cur: Seq<char>) -> Seq<Seq<char>>
    decreases s.len(),
{
    if s.len() == 0 {
        seq![cur]
    } else if starts_with(s, blank_line()) {
        seq![cur] + split_blank_from(s.skip(2), Seq::empty())
    } else {
        split_blank_from(s.drop_first(), cur.push(s[0]))
    }
}

/// The trimmed, non-empty pieces of `pieces`, each with the byte offset at
/// which its trimmed text starts, when the first piece starts at byte `start`
/// and pieces are separated by two bytes.
pub open spec fn paras_of(pieces: Seq<Seq<char>>, start: int) -> Seq<(Seq<char>, int)>
    decreases pieces.len(),
{
    if pieces.len() == 0 {
        Seq::empty()
    } else {
        let p = pieces[0];
        let t = trim(p);
        let lead = p.len() - trim_start(p).len();
        let here = if t.len() > 0 {
            seq![(t, start + blen(p.take(lead)))]
        } else {
            Seq::empty()
        };
        here + paras_of(pieces.drop_first(), start + blen(p) + 2)
    }
}

/// The paragraphs of `text`: the pieces between blank lines, trimmed, with
/// the byte offset of each trimmed text in `text`. Empty pieces are dropped.
pub open spec fn paragraphs(text: Seq<char>) -> Seq<(Seq<char>, int)> {
    paras_of(split_blank_from(text, Seq::empty()), 0)
}

pub open spec fn para_views(v: Seq<(Vec<char>, usize)>) -> Seq<(Seq<char>, int)> {
    v.map_values(|p: (Vec<char>, usize)| (p.0@, p.1 as int))
}

/// Adds the paragraph of the piece `cur`, which starts at byte `cur_start`.
fn push_paragraph(out: &mut Vec<(Vec<char>, usize)>, cur: &Vec<char>, cur_start: usize)
    requires
        cur_start + blen(cur@) <= usize::MAX,
    ensures
        para_views(final(out)@) == para_views(old(out)@) + paras_of(seq![cur@], cur_start as int),
{
    let ghost pieces = seq![cur@];
    proof {
        assert(pieces[0] == cur@);
        assert(pieces.drop_first().len() == 0);
    }
    let lead = trim_start_index(cur);
    let t = trim_chars(cur);
    proof {
        assert(trim_start(cur@).len() == cur@.len() - lead);
    }
    if t.len() > 0 {
        let head = slice_chars(cur, 0, lead);
        assert(head@ == cur@.take(lead as int));
        let hb = match byte_len(&head) {
            Some(b) => b,
            None => {
                proof {
                    assert(cur@ == head@ + cur@.skip(lead as int));
                    lemma_blen_concat(head@, cur@.skip(lead as int));
                }
                0
            },
        };
        proof {
            assert(cur@ == head@ + cur@.skip(lead as int));
            lemma_blen_concat(head@, cur@.skip(lead as int));
        }
        let ghost before = para_views(out@);
        out.push((t, cur_start + hb));
        proof {
            assert(para_views(out@) == before.push((t@, cur_start + hb)));
            assert(paras_of(pieces, cur_start as int) == seq![(t@, cur_start + blen(cur@.take(lead as int)))] + paras_of(pieces.drop_first(), cur_start + blen(cur@) + 2));
        }
    } else {
        proof {
            assert(paras_of(pieces, cur_start as int) == Seq::<(Seq<char>, int)>::empty() + paras_of(pieces.drop_first(), cur_start + blen(cur@) + 2));
        }
    }
}

proof fn lemma_paras_of_first(p: Seq<char>, rest: Seq<Seq<char>>, start: int)
    ensures
        paras_of(seq![p] + rest, start) == paras_of(seq![p], start) + paras_of(rest, start + blen(p) + 2),
{
    let ps = seq![p] + rest;
    assert(ps[0] == p);
    assert(ps.drop_first() == rest);
    let one = seq![p];
    assert(one[0] == p);
    assert(one.drop_first().len() == 0);
    assert(paras_of(one.drop_first(), start + blen(p) + 2).len() == 0);
}

proof fn lemma_paragraph_at_blank(text: Seq<char>, i: int, cur: Seq<char>, cur_start: int)
    requires
        0 <= i,
        i + 1 < text.len(),
        text[i] == '\n',
        text[i + 1] == '\n',
        cur_start + blen(cur) == blen(text.take(i)),
    ensures
        paras_of(split_blank_from(text.skip(i), cur), cur_start) == paras_of(seq![cur], cur_start)
            + paras_of(split_blank_from(text.skip(i + 2), Seq::empty()), cur_start + blen(cur) + 2),
        cur_start + blen(cur) + 2 == blen(text.take(i + 2)),
        blen(text.take(i + 2)) <= blen(text),
{
    let rest = text.skip(i);
    assert(rest.take(2) == blank_line());
    assert(rest.skip(2) == text.skip(i + 2));
    assert(split_blank_from(rest, cur) == seq![cur] + split_blank_from(text.skip(i + 2), Seq::empty()));
    lemma_paras_of_first(cur, split_blank_from(text.skip(i + 2), Seq::empty()), cur_start);
    assert(text.take(i + 2) == text.take(i).push('\n').push('\n'));
    lemma_blen_push(text.take(i), '\n');
    lemma_blen_push(text.take(i).push('\n'), '\n');
    lemma_blen_take_mono(text, i + 2, text.len() as int);
    assert(text.take(text.len() as int) == text);
}

proof fn lemma_paragraph_extend(text: Seq<char>, i: int, cur: Seq<char>)
    requires
        0 <= i < text.len(),
        !(i + 1 < text.len() && text[i] == '\n' && text[i + 1] == '\n'),
    ensures
        split_blank_from(text.skip(i), cur) == split_blank_from(text.skip(i + 1), cur.push(text[i])),
        blen(text.take(i + 1)) == blen(text.take(i)) + char_bytes(text[i]),
        blen(cur.push(text[i])) == blen(cur) + char_bytes(text[i]),
{
    let rest = text.skip(i);
    if rest.len() >= 2 {
        assert(rest.take(2) != blank_line()) by {
            if rest.take(2) == blank_line() {
                assert(rest.take(2)[0] == text[i]);
                assert(rest.take(2)[1] == text[i + 1]);
            }
        }
    }
    assert(rest[0] == text[i]);
    assert(rest.drop_first() == text.skip(i + 1));
    assert(text.take(i + 1) == text.take(i).push(text[i]));
    lemma_blen_push(text.take(i), text[i]);
    lemma_blen_push(cur, text[i]);
}

/// Splits `text` into paragraphs (see [`paragraphs`]).
pub fn split_paragraphs(text: &Vec<char>) -> (r: Vec<(Vec<char>, usize)>)
    requires
        blen(text@) <= usize::MAX,
    ensures
        para_views(r@) == paragraphs(text@),
{
    let mut out: Vec<(Vec<char>, usize)> = Vec::new();
    let mut cur: Vec<char> = Vec::new();
    let mut cur_start: usize = 0;
    let mut i: usize = 0;
    assert(text@.skip(0) == text@);
    assert(text@.take(0).len() == 0);
    while i < text.len()
        invariant
            i <= text.len(),
            blen(text@) <= usize::MAX,
            cur_start + blen(cur@) == blen(text@.take(i as int)),
            paragraphs(text@) == para_views(out@) + paras_of(
                split_blank_from(text@.skip(i as int), cur@),
                cur_start as int,
            ),
        decreases text.len() - i,
    {
        proof {
            lemma_blen_take_mono(text@, i as int, text@.len() as int);
            assert(text@.take(text@.len() as int) == text@);
        }
        if i + 1 < text.len() && text[i] == '\n' && text[i + 1] == '\n' {
            proof {
                lemma_paragraph_at_blank(text@, i as int, cur@, cur_start as int);
            }
            push_paragraph(&mut out, &cur, cur_start);
            cur_start = cur_start + blen_usize(&cur) + 2;
            cur = Vec::new();
            i = i + 2;
            proof {
                assert(Seq::<char>::empty() == cur@);
            }
        } else {
            proof {
                lemma_paragraph_extend(text@, i as int, cur@);
            }
            cur.push(text[i]);
            i = i + 1;
        }
    }
    proof {
        assert(text@.skip(i as int).len() == 0);
        assert(text@.take(i as int) == text@);
    }
    push_paragraph(&mut out, &cur, cur_start);
    proof {
        assert(split_blank_from(text@.skip(i as int), cur@) == seq![cur@]);
    }
    out
}

/// The byte length of `v`, known to fit in `usize`.
pub fn blen_usize(v: &Vec<char>) -> (r: usize)
    requires
        blen(v@) <= usize::MAX,
    ensures
        r == blen(v@),
{
    match byte_len(v) {
        Some(n) => n,
        None => 0,
    }
}

// ---------------------------------------------------------------------------
// Overlap
// ---------------------------------------------------------------------------

/// `k` characters of `t` take exactly `b` bytes: byte `b` is a character boundary.
pub open spec fn is_cut(t: Seq<char>, b: int, k: int) -> bool {
    0 <= k <= t.len() && blen(t.take(k)) == b
}

/// The first space at or after index `k`.
pub open spec fn first_space_from(t: Seq<char>, k: int) -> Option<int>
    decreases t.len() - k,
{
    if k < 0 || k >= t.len() {
        None
    } else if t[k] == ' ' {
        Some(k)
    } else {
        first_space_from(t, k + 1)
    }
}

/// The tail of `t` carried into the next chunk: at most `max` bytes, starting
/// after the first space of that window when there is one. `None` when the
/// window would start inside a character.
pub open spec fn overlap_spec(t: Seq<char>, max: int) -> Option<Seq<char>> {
    if blen(t) <= max {
        Some(t)
    } else if exists|k: int| #[trigger] is_cut(t, blen(t) - max, k) {
        let k = choose|k: int| #[trigger] is_cut(t, blen(t) - max, k);
        match first_space_from(t, k) {
            Some(j) => Some(t.skip(j + 1)),
            None => Some(t.skip(k)),
        }
    } else {
        None
    }
}

proof fn lemma_cut_unique(t: Seq<char>, b: int, k1: int, k2: int)
    requires
        is_cut(t, b, k1),
        is_cut(t, b, k2),
    ensures
        k1 == k2,
{
    if k1 < k2 {
        lemma_blen_take_mono(t, k1, k2);
    } else if k2 < k1 {
        lemma_blen_take_mono(t, k2, k1);
    }
}

pub proof fn lemma_first_space_range(t: Seq<char>, k: int)
    ensures
        first_space_from(t, k) matches Some(j) ==> k <= j < t.len() && t[j] == ' ',
    decreases t.len() - k,
{
    if 0 <= k < t.len() && t[k] != ' ' {
        lemma_first_space_range(t, k + 1);
    }
}

/// The first space at or after `k`.
fn find_space_from(t: &Vec<char>, k: usize) -> (r: Option<usize>)
    ensures
        r == (match first_space_from(t@, k as int) {
            Some(j) => Some(j as usize),
            None => None::<usize>,
        }),
        r matches Some(j) ==> k <= j < t@.len(),
    decreases t@.len() - k,
{
    if k >= t.len() {
        None
    } else if t[k] == ' ' {
        Some(k)
    } else {
        find_space_from(t, k + 1)
    }
}

/// Computes [`overlap_spec`]; `tb` is the byte length of `t`.
pub fn extract_overlap(t: &Vec<char>, tb: usize, max: usize) -> (r: Option<Vec<char>>)
    requires
        tb == blen(t@),
    ensures
        match overlap_spec(t@, max as int) {
            Some(o) => r matches Some(v) && v@ == o,
            None => r is None,
        },
{
    if tb <= max {
        return Some(slice_chars(t, 0, t.len()));
    }
    let target = tb - max;
    let mut acc: usize = 0;
    let mut i: usize = 0;
    assert(t@.take(0).len() == 0);
    while acc < target
        invariant
            i <= t.len(),
            acc == blen(t@.take(i as int)),
            target <= tb,
            tb == blen(t@),
            forall|k: int| 0 <= k < i ==> blen(#[trigger] t@.take(k)) < target,
        decreases t.len() - i,
    {
        if i == t.len() {
            assert(t@.take(i as int) == t@);
            assert(false);
        }
        proof {
            assert(t@.take(i + 1) == t@.take(i as int).push(t@[i as int]));
            lemma_blen_push(t@.take(i as int), t@[i as int]);
            lemma_blen_take_mono(t@, i + 1, t@.len() as int);
            assert(t@.take(t@.len() as int) == t@);
        }
        acc = acc + char_byte_len(t[i]);
        i = i + 1;
    }
    if acc != target {
        proof {
            assert forall|k: int| !#[trigger] is_cut(t@, target as int, k) by {
                if is_cut(t@, target as int, k) {
                    if k >= i {
                        lemma_blen_take_mono(t@, i as int, k);
                    }
                }
            }
        }
        return None;
    }
    proof {
        assert(is_cut(t@, blen(t@) - max as int, i as int));
        let k = choose|k: int| #[trigger] is_cut(t@, blen(t@) - max as int, k);
        lemma_cut_unique(t@, target as int, i as int, k);
    }
    match find_space_from(t, i) {
        Some(j) => {
            let r = slice_chars(t, j + 1, t.len());
            assert(r@ == t@.skip(j + 1));
            proof {
                lemma_first_space_range(t@, i as int);
                match first_space_from(t@, i as int) {
                    Some(j2) => {
                        assert(j2 == j);
                    },
                    None => {},
                }
            }
            Some(r)
        },
        None => {
            let r = slice_chars(t, i, t.len());
            assert(r@ == t@.skip(i as int));
            assert(first_space_from(t@, i as int) is None);
            Some(r)
        },
    }
}

// ---------------------------------------------------------------------------
// Sentences (ASCII text)
// ---------------------------------------------------------------------------

/// A sentence ends at `pos`: `. `, `? `, `! ` or the same before a newline.
pub open spec fn is_term_at(t: Seq<char>, pos: int) -> bool {
    &&& 0 <= pos
    &&& pos + 1 < t.len()
    &&& (t[pos] == '.' || t[pos] == '?' || t[pos] == '!')
    &&& (t[pos + 1] == ' ' || t[pos + 1] == '\n')
}

/// The trimmed text of `t[a..b]` with its start `a`, when it is not empty.
pub open spec fn sentence_piece(t: Seq<char>, a: int, b: int) -> Seq<(Seq<char>, int)> {
    let s = trim(t.subrange(a, b));
    if s.len() > 0 {
        seq![(s, a)]
    } else {
        Seq::empty()
    }
}

/// The sentences of `t` from position `pos`, the current sentence starting at
/// `start`; `skipping` while the spaces after a terminator are passed over.
pub open spec fn sentences_from(t: Seq<char>, start: int, pos: int, skipping: bool) -> Seq<
    (Seq<char>, int),
>
    decreases t.len() - pos, (if skipping {
        1int
    } else {
        0int
    }),
{
    if pos < 0 || start < 0 || start > pos {
        Seq::empty()
    } else if pos >= t.len() {
        if start < t.len() {
            sentence_piece(t, start, t.len() as int)
        } else {
            Seq::empty()
        }
    } else if skipping {
        if t[pos] == ' ' {
            sentences_from(t, pos + 1, pos + 1, true)
        } else {
            sentences_from(t, start, pos, false)
        }
    } else if is_term_at(t, pos) {
        sentence_piece(t, start, pos + 1) + sentences_from(t, pos + 1, pos + 1, true)
    } else {
        sentences_from(t, start, pos + 1, false)
    }
}

/// The sentences of `t`, each trimmed, with the index where it starts.
pub open spec fn sentences(t: Seq<char>) -> Seq<(Seq<char>, int)> {
    sentences_from(t, 0, 0, false)
}

fn push_sentence(out: &mut Vec<(Vec<char>, usize)>, t: &Vec<char>, a: usize, b: usize)
    requires
        a <= b <= t.len(),
    ensures
        para_views(final(out)@) == para_views(old(out)@) + sentence_piece(t@, a as int, b as int),
{
    let piece = slice_chars(t, a, b);
    let s = trim_chars(&piece);
    if s.len() > 0 {
        let ghost before = para_views(out@);
        out.push((s, a));
        assert(para_views(out@) == before.push((s@, a as int)));
    }
}

/// Splits ASCII text into sentences (see [`sentences`]).
pub fn split_sentences(t: &Vec<char>) -> (r: Vec<(Vec<char>, usize)>)
    ensures
        para_views(r@) == sentences(t@),
{
    let mut out: Vec<(Vec<char>, usize)> = Vec::new();
    let mut start: usize = 0;
    let mut pos: usize = 0;
    let mut skipping = false;
    while pos < t.len()
        invariant
            start <= pos,
            sentences(t@) == para_views(out@) + sentences_from(t@, start as int, pos as int, skipping),
        decreases t.len() - pos, (if skipping {
            1int
        } else {
            0int
        }),
    {
        if skipping {
            if t[pos] == ' ' {
                start = pos + 1;
                pos = pos + 1;
            } else {
                skipping = false;
            }
        } else if pos + 1 < t.len() && (t[pos] == '.' || t[pos] == '?' || t[pos] == '!') && (t[pos
            + 1] == ' ' || t[pos + 1] == '\n') {
            let ghost before = para_views(out@);
            push_sentence(&mut out, t, start, pos + 1);
            assert(para_views(out@) + sentences_from(t@, (pos + 1) as int, (pos + 1) as int, true)
                == before + (sentence_piece(t@, start as int, pos + 1) + sentences_from(t@, (pos
                + 1) as int, (pos + 1) as int, true)));
            start = pos + 1;
            pos = pos + 1;
            skipping = true;
        } else {
            pos = pos + 1;
        }
    }
    if start < t.len() {
        push_sentence(&mut out, t, start, t.len());
    } else {
        assert(sentences_from(t@, start as int, pos as int, skipping).len() == 0);
    }
    out
}

// ---------------------------------------------------------------------------
// Pieces of a long paragraph
// ---------------------------------------------------------------------------

/// Fits in `usize`.
pub open spec fn fits(x: int) -> bool {
    0 <= x <= usize::MAX
}

pub proof fn lemma_overlap_suffix(t: Seq<char>, m: int)
    ensures
        overlap_spec(t, m) matches Some(o) ==> blen(o) <= blen(t),
{
    if blen(t) > m && exists|k: int| #[trigger] is_cut(t, blen(t) - m, k) {
        let k = choose|k: int| #[trigger] is_cut(t, blen(t) - m, k);
        lemma_first_space_range(t, k);
        let c = match first_space_from(t, k) {
            Some(j) => j + 1,
            None => k,
        };
        assert(t == t.take(c) + t.skip(c));
        lemma_blen_concat(t.take(c), t.skip(c));
    }
}

/// A piece of text with the byte offsets where it starts and ends.
pub open spec fn piece_views(v: Seq<(Vec<char>, usize, usize)>) -> Seq<(Seq<char>, int, int)> {
    v.map_values(|p: (Vec<char>, usize, usize)| (p.0@, p.1 as int, p.2 as int))
}

/// `buf` followed by `w`, with a space between them when `buf` is not empty.
pub open spec fn join_space(buf: Seq<char>, w: Seq<char>) -> Seq<char> {
    if buf.len() > 0 {
        buf.push(' ') + w
    } else {
        w
    }
}

/// Emits `buf` as the piece at `base + rel`.
pub open spec fn emit(out: Seq<(Seq<char>, int, int)>, buf: Seq<char>, base: int, rel: int) -> Option<
    Seq<(Seq<char>, int, int)>,
> {
    let abs = base + rel;
    if fits(abs) && fits(abs + blen(buf)) {
        Some(out.push((buf, abs, abs + blen(buf))))
    } else {
        None
    }
}

/// When `next` would overflow the target, emits the buffer and keeps its
/// overlap as the start of the next piece: `(pieces, buffer, buffer offset)`.
pub open spec fn flush_if_full(
    st: (Seq<(Seq<char>, int, int)>, Seq<char>, int),
    next: Seq<char>,
    base: int,
    target: int,
    ov: int,
) -> Option<(Seq<(Seq<char>, int, int)>, Seq<char>, int)> {
    let (out, buf, rel) = st;
    if !fits((blen(buf) + blen(next) + 1) as int) {
        None
    } else if blen(buf) + blen(next) + 1 > target && buf.len() > 0 {
        match emit(out, buf, base, rel) {
            None => None,
            Some(out2) => match overlap_spec(buf, ov) {
                None => None,
                Some(o) => if fits(rel + blen(buf) - blen(o)) {
                    Some((out2, o, rel + blen(buf) - blen(o)))
                } else {
                    None
                },
            },
        }
    } else {
        Some(st)
    }
}

/// One word of `split_by_words`.
pub open spec fn words_step(
    st: (Seq<(Seq<char>, int, int)>, Seq<char>, int),
    w: Seq<char>,
    base: int,
    target: int,
    ov: int,
) -> Option<(Seq<(Seq<char>, int, int)>, Seq<char>, int)> {
    match flush_if_full(st, w, base, target, ov) {
        None => None,
        Some((out, buf, rel)) => Some((out, join_space(buf, w), rel)),
    }
}

pub open spec fn words_fold(
    ws: Seq<Seq<char>>,
    init: (Seq<(Seq<char>, int, int)>, Seq<char>, int),
    base: int,
    target: int,
    ov: int,
) -> Option<(Seq<(Seq<char>, int, int)>, Seq<char>, int)>
    decreases ws.len(),
{
    if ws.len() == 0 {
        Some(init)
    } else {
        match words_fold(ws.drop_last(), init, base, target, ov) {
            None => None,
            Some(st) => words_step(st, ws.last(), base, target, ov),
        }
    }
}

proof fn lemma_words_fold_none(
    ws: Seq<Seq<char>>,
    j: int,
    init: (Seq<(Seq<char>, int, int)>, Seq<char>, int),
    base: int,
    target: int,
    ov: int,
)
    requires
        0 <= j <= ws.len(),
        words_fold(ws.take(j), init, base, target, ov) is None,
    ensures
        words_fold(ws, init, base, target, ov) is None,
    decreases ws.len() - j,
{
    if j < ws.len() {
        assert(ws.take(j + 1).drop_last() == ws.take(j));
        lemma_words_fold_none(ws, j + 1, init, base, target, ov);
    } else {
        assert(ws.take(j) == ws);
    }
}

/// Emits the buffer left at the end, if any.
pub open spec fn pieces_finish(st: (Seq<(Seq<char>, int, int)>, Seq<char>, int), base: int) -> Option<
    Seq<(Seq<char>, int, int)>,
> {
    let (out, buf, rel) = st;
    if buf.len() > 0 {
        emit(out, buf, base, rel)
    } else {
        Some(out)
    }
}

/// The pieces of a sentence longer than the target, cut between words.
pub open spec fn split_by_words_spec(
    t: Seq<char>,
    sent_start: int,
    base: int,
    target: int,
    ov: int,
) -> Option<Seq<(Seq<char>, int, int)>> {
    match words_fold(words(t), (Seq::empty(), Seq::empty(), sent_start), base, target, ov) {
        None => None,
        Some(st) => pieces_finish(st, base),
    }
}

/// Computes [`emit`].
fn emit_exec(out: &mut Vec<(Vec<char>, usize, usize)>, buf: &Vec<char>, bb: usize, base: usize, rel: usize) -> (ok: bool)
    requires
        bb == blen(buf@),
    ensures
        match emit(piece_views(old(out)@), buf@, base as int, rel as int) {
            Some(o) => ok && piece_views(final(out)@) == o,
            None => !ok,
        },
{
    if rel > usize::MAX - base {
        return false;
    }
    let abs = base + rel;
    if bb > usize::MAX - abs {
        return false;
    }
    let piece = slice_chars(buf, 0, buf.len());
    assert(piece@ == buf@);
    let ghost before = piece_views(out@);
    out.push((piece, abs, abs + bb));
    assert(piece_views(out@) == before.push((buf@, abs as int, abs + bb)));
    true
}

/// Computes [`flush_if_full`] in place.
fn flush_exec(
    out: &mut Vec<(Vec<char>, usize, usize)>,
    buf: &mut Vec<char>,
    rel: &mut usize,
    nb: usize,
    base: usize,
    target: usize,
    ov: usize,
    Ghost(next): Ghost<Seq<char>>,
) -> (ok: bool)
    requires
        nb == blen(next),
    ensures
        match flush_if_full((piece_views(old(out)@), old(buf)@, *old(rel) as int), next, base as int, target as int, ov as int) {
            Some(st) => ok && st == (piece_views(final(out)@), final(buf)@, *final(rel) as int),
            None => !ok,
        },
{
    let bb = match byte_len(buf) {
        Some(b) => b,
        None => {
            return false;
        },
    };
    if bb > usize::MAX - nb || bb + nb == usize::MAX {
        return false;
    }
    if bb + nb + 1 > target && buf.len() > 0 {
        if !emit_exec(out, buf, bb, base, *rel) {
            return false;
        }
        let o = match extract_overlap(buf, bb, ov) {
            Some(o) => o,
            None => {
                return false;
            },
        };
        proof {
            lemma_overlap_suffix(old(buf)@, ov as int);
        }
        let ob = blen_usize(&o);
        if bb - ob > usize::MAX - *rel {
            return false;
        }
        *rel = *rel + (bb - ob);
        *buf = o;
    }
    true
}

/// Splits an over-long sentence at word boundaries (see [`split_by_words_spec`]).
pub fn split_by_words(t: &Vec<char>, sent_start: usize, base: usize, target: usize, ov: usize) -> (r: Option<Vec<(Vec<char>, usize, usize)>>)
    ensures
        match split_by_words_spec(t@, sent_start as int, base as int, target as int, ov as int) {
            Some(ps) => r matches Some(v) && piece_views(v@) == ps,
            None => r is None,
        },
{
    let ws = split_whitespace_chars(t);
    let ghost wv = words(t@);
    let mut out: Vec<(Vec<char>, usize, usize)> = Vec::new();
    let mut buf: Vec<char> = Vec::new();
    let mut rel: usize = sent_start;
    let ghost init = (Seq::<(Seq<char>, int, int)>::empty(), Seq::<char>::empty(), sent_start as int);
    assert(piece_views(out@) == Seq::<(Seq<char>, int, int)>::empty());
    assert(wv.take(0).len() == 0);
    let mut i: usize = 0;
    while i < ws.len()
        invariant
            i <= ws.len(),
            ws@.len() == wv.len(),
            wv == words(t@),
            init == (Seq::<(Seq<char>, int, int)>::empty(), Seq::<char>::empty(), sent_start as int),
            forall|k: int| 0 <= k < ws@.len() ==> #[trigger] ws@[k]@ == wv[k],
            words_fold(wv.take(i as int), init, base as int, target as int, ov as int) == Some((piece_views(out@), buf@, rel as int)),
        decreases ws.len() - i,
    {
        assert(wv.take(i + 1).drop_last() == wv.take(i as int));
        assert(wv.take(i + 1).last() == ws@[i as int]@);
        let w = &ws[i];
        let wb = match byte_len(w) {
            Some(b) => b,
            None => {
                proof {
                    assert(words_fold(wv.take(i + 1), init, base as int, target as int, ov as int) is None);
                    lemma_words_fold_none(wv, i + 1, init, base as int, target as int, ov as int);
                    assert(words_fold(wv, init, base as int, target as int, ov as int) is None);
                }
                return None;
            },
        };
        if !flush_exec(&mut out, &mut buf, &mut rel, wb, base, target, ov, Ghost(w@)) {
            proof {
                assert(words_fold(wv.take(i + 1), init, base as int, target as int, ov as int) is None);
                lemma_words_fold_none(wv, i + 1, init, base as int, target as int, ov as int);
                assert(words_fold(wv, init, base as int, target as int, ov as int) is None);
            }
            return None;
        }
        if buf.len() > 0 {
            buf.push(' ');
        }
        append_chars(&mut buf, w);
        i = i + 1;
    }
    assert(wv.take(ws.len() as int) == wv);
    if buf.len() > 0 {
        let bb = match byte_len(&buf) {
            Some(b) => b,
            None => {
                return None;
            },
        };
        if !emit_exec(&mut out, &buf, bb, base, rel) {
            return None;
        }
    }
    Some(out)
}

/// One sentence of `split_long_paragraph`.
pub open spec fn long_step(
    st: (Seq<(Seq<char>, int, int)>, Seq<char>, int),
    sent: (Seq<char>, int),
    base: int,
    target: int,
    ov: int,
) -> Option<(Seq<(Seq<char>, int, int)>, Seq<char>, int)> {
    let (s, ss) = sent;
    match flush_if_full(st, s, base, target, ov) {
        None => None,
        Some((res1, buf1, rel1)) => if blen(s) > target {
            let res2 = if buf1.len() > 0 {
                emit(res1, buf1, base, rel1)
            } else {
                Some(res1)
            };
            let rel2 = if buf1.len() > 0 {
                ss
            } else {
                rel1
            };
            match res2 {
                None => None,
                Some(res2) => match split_by_words_spec(s, ss, base, target, ov) {
                    None => None,
                    Some(wc) => {
                        let res3 = res2 + wc;
                        if res3.len() > 0 && !fits(blen(res3.last().0) as int) {
                            None
                        } else if res3.len() > 0 {
                            let last = res3.last();
                            match overlap_spec(last.0, ov) {
                                None => None,
                                Some(o) => if fits(last.2 - base - blen(o)) {
                                    Some((res3, o, last.2 - base - blen(o)))
                                } else {
                                    None
                                },
                            }
                        } else {
                            Some((res3, Seq::empty(), rel2))
                        }
                    },
                },
            }
        } else if buf1.len() > 0 {
            Some((res1, buf1.push(' ') + s, rel1))
        } else {
            Some((res1, s, ss))
        },
    }
}

pub open spec fn long_fold(
    sents: Seq<(Seq<char>, int)>,
    base: int,
    target: int,
    ov: int,
) -> Option<(Seq<(Seq<char>, int, int)>, Seq<char>, int)>
    decreases sents.len(),
{
    if sents.len() == 0 {
        Some((Seq::empty(), Seq::empty(), 0))
    } else {
        match long_fold(sents.drop_last(), base, target, ov) {
            None => None,
            Some(st) => long_step(st, sents.last(), base, target, ov),
        }
    }
}

/// The pieces of a paragraph longer than the target: sentences packed up to
/// the target with overlap, over-long sentences cut between words. Offsets
/// are relative to `base`. `None` for text that is not ASCII: the sentence
/// scan advances one byte at a time and would cut inside a character.
pub open spec fn long_paragraph_spec(p: Seq<char>, base: int, target: int, ov: int) -> Option<
    Seq<(Seq<char>, int, int)>,
> {
    if !all_ascii(p) {
        None
    } else {
        match long_fold(sentences(p), base, target, ov) {
            None => None,
            Some(st) => pieces_finish(st, base),
        }
    }
}

proof fn lemma_long_fold_none(sents: Seq<(Seq<char>, int)>, j: int, base: int, target: int, ov: int)
    requires
        0 <= j <= sents.len(),
        long_fold(sents.take(j), base, target, ov) is None,
    ensures
        long_fold(sents, base, target, ov) is None,
    decreases sents.len() - j,
{
    if j < sents.len() {
        assert(sents.take(j + 1).drop_last() == sents.take(j));
        lemma_long_fold_none(sents, j + 1, base, target, ov);
    } else {
        assert(sents.take(j) == sents);
    }
}

/// Computes [`long_step`] in place.
fn long_step_exec(
    res: &mut Vec<(Vec<char>, usize, usize)>,
    buf: &mut Vec<char>,
    rel: &mut usize,
    s: &Vec<char>,
    ss: usize,
    base: usize,
    target: usize,
    ov: usize,
) -> (ok: bool)
    ensures
        match long_step((piece_views(old(res)@), old(buf)@, *old(rel) as int), (s@, ss as int), base as int, target as int, ov as int) {
            Some(st) => ok && st == (piece_views(final(res)@), final(buf)@, *final(rel) as int),
            None => !ok,
        },
{
    let sb = match byte_len(s) {
        Some(b) => b,
        None => {
            return false;
        },
    };
    if !flush_exec(res, buf, rel, sb, base, target, ov, Ghost(s@)) {
        return false;
    }
    if sb > target {
        if buf.len() > 0 {
            let bb = match byte_len(buf) {
                Some(b) => b,
                None => {
                    return false;
                },
            };
            if !emit_exec(res, buf, bb, base, *rel) {
                return false;
            }
            *buf = Vec::new();
            *rel = ss;
        } else {
            *buf = Vec::new();
        }
        let wc = match split_by_words(s, ss, base, target, ov) {
            Some(w) => w,
            None => {
                return false;
            },
        };
        let ghost before = piece_views(res@);
        let mut k: usize = 0;
        while k < wc.len()
            invariant
                k <= wc.len(),
                piece_views(res@) == before + piece_views(wc@).take(k as int),
            decreases wc.len() - k,
        {
            let p = &wc[k];
            let piece = slice_chars(&p.0, 0, p.0.len());
            assert(piece@ == p.0@);
            let ghost b2 = piece_views(res@);
            res.push((piece, p.1, p.2));
            assert(piece_views(res@) == b2.push((piece@, p.1 as int, p.2 as int)));
            assert(piece_views(wc@)[k as int] == (p.0@, p.1 as int, p.2 as int));
            assert(piece_views(wc@).take(k + 1) == piece_views(wc@).take(k as int).push(piece_views(wc@)[k as int]));
            k = k + 1;
        }
        assert(piece_views(wc@).take(wc.len() as int) == piece_views(wc@));
        if res.len() > 0 {
            let li = res.len() - 1;
            let lb = match byte_len(&res[li].0) {
                Some(b) => b,
                None => {
                    return false;
                },
            };
            let o = match extract_overlap(&res[li].0, lb, ov) {
                Some(o) => o,
                None => {
                    return false;
                },
            };
            proof {
                lemma_overlap_suffix(res@[li as int].0@, ov as int);
            }
            let ob = blen_usize(&o);
            let le = res[li].2;
            if le < base || le - base < ob {
                return false;
            }
            *rel = le - base - ob;
            *buf = o;
        }
        true
    } else {
        if buf.len() > 0 {
            buf.push(' ');
            append_chars(buf, s);
        } else {
            *buf = slice_chars(s, 0, s.len());
            *rel = ss;
        }
        true
    }
}

/// Splits a paragraph longer than the target into pieces (see [`long_paragraph_spec`]).
pub fn split_long_paragraph(p: &Vec<char>, base: usize, target: usize, ov: usize) -> (r: Option<Vec<(Vec<char>, usize, usize)>>)
    ensures
        match long_paragraph_spec(p@, base as int, target as int, ov as int) {
            Some(ps) => r matches Some(v) && piece_views(v@) == ps,
            None => r is None,
        },
{
    let mut a: usize = 0;
    while a < p.len()
        invariant
            a <= p.len(),
            forall|k: int| 0 <= k < a ==> is_ascii_c(#[trigger] p@[k]),
        decreases p.len() - a,
    {
        if (p[a] as u32) >= 0x80 {
            return None;
        }
        a = a + 1;
    }
    let sents = split_sentences(p);
    let ghost sv = sentences(p@);
    let mut res: Vec<(Vec<char>, usize, usize)> = Vec::new();
    let mut buf: Vec<char> = Vec::new();
    let mut rel: usize = 0;
    assert(piece_views(res@) == Seq::<(Seq<char>, int, int)>::empty());
    assert(sv.take(0).len() == 0);
    let mut i: usize = 0;
    while i < sents.len()
        invariant
            i <= sents.len(),
            para_views(sents@) == sv,
            sv == sentences(p@),
            long_fold(sv.take(i as int), base as int, target as int, ov as int) == Some((piece_views(res@), buf@, rel as int)),
        decreases sents.len() - i,
    {
        assert(sv.take(i + 1).drop_last() == sv.take(i as int));
        assert(sv.take(i + 1).last() == (sents@[i as int].0@, sents@[i as int].1 as int));
        if !long_step_exec(&mut res, &mut buf, &mut rel, &sents[i].0, sents[i].1, base, target, ov) {
            proof {
                lemma_long_fold_none(sv, i + 1, base as int, target as int, ov as int);
            }
            return None;
        }
        i = i + 1;
    }
    assert(sv.take(sents.len() as int) == sv);
    if buf.len() > 0 {
        let bb = match byte_len(&buf) {
            Some(b) => b,
            None => {
                return None;
            },
        };
        if !emit_exec(&mut res, &buf, bb, base, rel) {
            return None;
        }
    }
    Some(res)
}

// ---------------------------------------------------------------------------
// Chunks
// ---------------------------------------------------------------------------

/// Chunking parameters, all in bytes except `max_chunks`.
#[derive(Debug, Clone, Copy)]
pub struct ChunkConfig {
    pub chunk_chars: usize,
    pub overlap_chars: usize,
    pub min_chunk_chars: usize,
    pub max_chunks: usize,
}

impl ChunkConfig {
    /// The default configuration: 1536-byte chunks, 256 bytes of overlap,
    /// tails under 160 bytes merged, at most 2000 chunks.
    pub fn default_config() -> (c: ChunkConfig)
        ensures
            c.chunk_chars == DEFAULT_CHUNK_CHARS,
            c.overlap_chars == DEFAULT_OVERLAP_CHARS,
            c.min_chunk_chars == MIN_CHUNK_CHARS,
            c.max_chunks == MAX_CHUNKS_PER_DOC,
    {
        ChunkConfig {
            chunk_chars: DEFAULT_CHUNK_CHARS,
            overlap_chars: DEFAULT_OVERLAP_CHARS,
            min_chunk_chars: MIN_CHUNK_CHARS,
            max_chunks: MAX_CHUNKS_PER_DOC,
        }
    }
}

impl Default for ChunkConfig {
    fn default() -> (c: ChunkConfig)
        ensures
            c.chunk_chars == DEFAULT_CHUNK_CHARS,
            c.overlap_chars == DEFAULT_OVERLAP_CHARS,
            c.min_chunk_chars == MIN_CHUNK_CHARS,
            c.max_chunks == MAX_CHUNKS_PER_DOC,
    {
        ChunkConfig::default_config()
    }
}

/// One chunk: its text, the byte offsets where it starts and ends in the
/// document, and its position in the chunk list.
#[derive(Debug, Clone, PartialEq, Eq)]
pub struct TextChunk {
    pub text: String,
    pub start_byte: usize,
    pub end_byte: usize,
    pub index: usize,
}

impl View for TextChunk {
    type V = (Seq<char>, int, int, int);

    open spec fn view(&self) -> (Seq<char>, int, int, int) {
        (self.text@, self.start_byte as int, self.end_byte as int, self.index as int)
    }
}

/// The chunking state: chunks so far, the open buffer, its start offset, the
/// next chunk index, and whether the chunk limit has been reached.
pub type ChunkModel = (Seq<(Seq<char>, int, int, int)>, Seq<char>, int, int, bool);

/// Appends `text` as the chunk at `start` with index `idx`.
pub open spec fn chunk_push(chunks: Seq<(Seq<char>, int, int, int)>, text: Seq<char>, start: int, idx: int) -> Option<
    Seq<(Seq<char>, int, int, int)>,
> {
    if fits(start) && fits(start + blen(text)) && fits(idx) && fits(idx + 1) {
        Some(chunks.push((text, start, start + blen(text), idx)))
    } else {
        None
    }
}

/// Before adding paragraph `p`: emits the buffer as a chunk when `p` would
/// overflow it, keeping the overlap as the new buffer.
pub open spec fn chunk_flush(st: ChunkModel, p: Seq<char>, cc: int, ov: int, maxc: int) -> Option<ChunkModel> {
    let (chunks, buf, bs, idx, done) = st;
    if !fits((blen(buf) + blen(p) + 1) as int) {
        None
    } else if blen(buf) + blen(p) + 1 > cc && buf.len() > 0 {
        match chunk_push(chunks, buf, bs, idx) {
            None => None,
            Some(c1) => if c1.len() >= maxc {
                Some((c1, buf, bs, idx + 1, true))
            } else {
                match overlap_spec(buf, ov) {
                    None => None,
                    Some(o) => Some((c1, o, bs + blen(buf) - blen(o), idx + 1, false)),
                }
            },
        }
    } else {
        Some(st)
    }
}

/// Appends the pieces of a long paragraph as chunks, stopping at the limit:
/// `(chunks, next index, limit reached)`.
pub open spec fn push_pieces(
    chunks: Seq<(Seq<char>, int, int, int)>,
    idx: int,
    subs: Seq<(Seq<char>, int, int)>,
    maxc: int,
) -> Option<(Seq<(Seq<char>, int, int, int)>, int, bool)>
    decreases subs.len(),
{
    if subs.len() == 0 {
        Some((chunks, idx, false))
    } else if !fits(idx) || !fits(idx + 1) {
        None
    } else {
        let c2 = chunks.push((subs[0].0, subs[0].1, subs[0].2, idx));
        if c2.len() >= maxc {
            Some((c2, idx + 1, true))
        } else {
            push_pieces(c2, idx + 1, subs.drop_first(), maxc)
        }
    }
}

/// Before a long paragraph: the buffer, if any, is emitted as a chunk and
/// the next buffer starts at the paragraph.
pub open spec fn long_pre(st: ChunkModel, ps: int, maxc: int) -> Option<ChunkModel> {
    let (chunks, buf, bs, idx, done) = st;
    if buf.len() > 0 {
        match chunk_push(chunks, buf, bs, idx) {
            None => None,
            Some(c1) => if c1.len() >= maxc {
                Some((c1, buf, bs, idx + 1, true))
            } else {
                Some((c1, Seq::empty(), ps, idx + 1, false))
            },
        }
    } else {
        Some(st)
    }
}

/// After the pieces of a long paragraph: the overlap of the last chunk
/// opens the next buffer.
pub open spec fn long_tail(c2: Seq<(Seq<char>, int, int, int)>, idx2: int, bs1: int, ov: int) -> Option<ChunkModel> {
    if c2.len() > 0 {
        let last = c2.last();
        if !fits(blen(last.0) as int) {
            None
        } else {
            match overlap_spec(last.0, ov) {
                None => None,
                Some(o) => if fits(last.2 - blen(o)) {
                    Some((c2, o, last.2 - blen(o), idx2, false))
                } else {
                    None
                },
            }
        }
    } else {
        Some((c2, Seq::empty(), bs1, idx2, false))
    }
}

/// A paragraph longer than a chunk: the buffer is emitted, the paragraph is
/// cut into pieces, and the overlap of the last chunk opens the next buffer.
pub open spec fn chunk_long(st: ChunkModel, p: Seq<char>, ps: int, cc: int, ov: int, maxc: int) -> Option<ChunkModel> {
    match long_pre(st, ps, maxc) {
        None => None,
        Some(pre) => if pre.4 {
            Some(pre)
        } else {
            match long_paragraph_spec(p, ps, cc, ov) {
                None => None,
                Some(subs) => match push_pieces(pre.0, pre.3, subs, maxc) {
                    None => None,
                    Some((c2, idx2, d2)) => if d2 {
                        Some((c2, Seq::empty(), pre.2, idx2, true))
                    } else {
                        long_tail(c2, idx2, pre.2, ov)
                    },
                },
            }
        },
    }
}

/// Adds one paragraph (text `p` at byte `ps`) to the chunking state.
pub open spec fn chunk_step(st: ChunkModel, para: (Seq<char>, int), cc: int, ov: int, maxc: int) -> Option<ChunkModel> {
    let (p, ps) = para;
    if st.4 {
        Some(st)
    } else {
        match chunk_flush(st, p, cc, ov, maxc) {
            None => None,
            Some(st1) => if st1.4 {
                Some(st1)
            } else if blen(p) > cc {
                chunk_long(st1, p, ps, cc, ov, maxc)
            } else if st1.1.len() > 0 {
                Some((st1.0, st1.1.push('\n') + p, st1.2, st1.3, false))
            } else {
                Some((st1.0, p, ps, st1.3, false))
            },
        }
    }
}

pub open spec fn chunk_fold(paras: Seq<(Seq<char>, int)>, cc: int, ov: int, maxc: int) -> Option<ChunkModel>
    decreases paras.len(),
{
    if paras.len() == 0 {
        Some((Seq::empty(), Seq::empty(), 0, 0, false))
    } else {
        match chunk_fold(paras.drop_last(), cc, ov, maxc) {
            None => None,
            Some(st) => chunk_step(st, paras.last(), cc, ov, maxc),
        }
    }
}

/// The buffer left at the end becomes the last chunk, or, when shorter than
/// `minc`, is merged into the previous chunk together with the document text
/// between that chunk's end and the buffer's start.
pub open spec fn chunk_finish(t: Seq<char>, st: ChunkModel, minc: int) -> Option<Seq<(Seq<char>, int, int, int)>> {
    let (chunks, buf, bs, idx, done) = st;
    if done || buf.len() == 0 {
        Some(chunks)
    } else if blen(buf) < minc && chunks.len() > 0 {
        let last = chunks.last();
        if last.2 <= bs && (exists|k: int| #[trigger] is_cut(t, last.2, k)) && (exists|k: int|
            #[trigger] is_cut(t, bs, k)) && fits(bs + blen(buf)) {
            let k1 = choose|k: int| #[trigger] is_cut(t, last.2, k);
            let k2 = choose|k: int| #[trigger] is_cut(t, bs, k);
            Some(
                chunks.update(
                    chunks.len() - 1,
                    (last.0 + t.subrange(k1, k2) + buf, last.1, bs + blen(buf), last.3),
                ),
            )
        } else {
            None
        }
    } else {
        chunk_push(chunks, buf, bs, idx)
    }
}

/// The chunks of `t`: paragraphs packed into chunks of about `cc` bytes
/// with `ov` bytes of overlap, long paragraphs cut at sentences and words,
/// a short tail merged into the previous chunk, at most `maxc` chunks
/// (at least one once the text has a paragraph). `None` on the inputs where
/// the computation would panic: a cut inside a character, a long paragraph
/// that is not ASCII, a tail merge whose gap would run backwards.
pub open spec fn chunk_text_spec(t: Seq<char>, cfg: ChunkConfig) -> Option<Seq<(Seq<char>, int, int, int)>> {
    if t.len() == 0 {
        Some(Seq::empty())
    } else {
        match chunk_fold(
            paragraphs(t),
            cfg.chunk_chars as int,
            cfg.overlap_chars as int,
            cfg.max_chunks as int,
        ) {
            None => None,
            Some(st) => chunk_finish(t, st, cfg.min_chunk_chars as int),
        }
    }
}

pub open spec fn chunk_views(v: Seq<(Vec<char>, usize, usize, usize)>) -> Seq<(Seq<char>, int, int, int)> {
    v.map_values(|c: (Vec<char>, usize, usize, usize)| (c.0@, c.1 as int, c.2 as int, c.3 as int))
}

struct ChunkState {
    chunks: Vec<(Vec<char>, usize, usize, usize)>,
    buf: Vec<char>,
    bs: usize,
    idx: usize,
    done: bool,
}

impl ChunkState {
    spec fn model(&self) -> ChunkModel {
        (chunk_views(self.chunks@), self.buf@, self.bs as int, self.idx as int, self.done)
    }
}

/// Computes [`chunk_push`].
fn chunk_push_exec(chunks: &mut Vec<(Vec<char>, usize, usize, usize)>, text: &Vec<char>, start: usize, idx: usize) -> (ok: bool)
    ensures
        match chunk_push(chunk_views(old(chunks)@), text@, start as int, idx as int) {
            Some(c) => ok && chunk_views(final(chunks)@) == c,
            None => !ok,
        },
{
    let tb = match byte_len(text) {
        Some(b) => b,
        None => {
            return false;
        },
    };
    if tb > usize::MAX - start || idx == usize::MAX {
        return false;
    }
    let copy = slice_chars(text, 0, text.len());
    assert(copy@ == text@);
    let ghost before = chunk_views(chunks@);
    chunks.push((copy, start, start + tb, idx));
    assert(chunk_views(chunks@) == before.push((text@, start as int, start + tb, idx as int)));
    true
}

/// Computes [`chunk_flush`].
fn flush_state(st: ChunkState, pb: usize, cc: usize, ov: usize, maxc: usize, Ghost(p): Ghost<Seq<char>>) -> (r: Option<ChunkState>)
    requires
        pb == blen(p),
    ensures
        match chunk_flush(st.model(), p, cc as int, ov as int, maxc as int) {
            Some(m) => r matches Some(s) && s.model() == m,
            None => r is None,
        },
{
    let ChunkState { chunks, buf, bs, idx, done } = st;
    let mut chunks = chunks;
    let bb = match byte_len(&buf) {
        Some(b) => b,
        None => {
            return None;
        },
    };
    if bb > usize::MAX - pb || bb + pb == usize::MAX {
        return None;
    }
    if bb + pb + 1 > cc && buf.len() > 0 {
        if !chunk_push_exec(&mut chunks, &buf, bs, idx) {
            return None;
        }
        if chunks.len() >= maxc {
            return Some(ChunkState { chunks, buf, bs, idx: idx + 1, done: true });
        }
        let o = match extract_overlap(&buf, bb, ov) {
            Some(o) => o,
            None => {
                return None;
            },
        };
        proof {
            lemma_overlap_suffix(buf@, ov as int);
        }
        let ob = blen_usize(&o);
        return Some(ChunkState { chunks, buf: o, bs: bs + (bb - ob), idx: idx + 1, done: false });
    }
    Some(ChunkState { chunks, buf, bs, idx, done })
}

/// Computes [`push_pieces`], appending to `chunks` and advancing `idx`.
fn push_pieces_exec(
    chunks: &mut Vec<(Vec<char>, usize, usize, usize)>,
    idx: &mut usize,
    subs: &Vec<(Vec<char>, usize, usize)>,
    maxc: usize,
) -> (r: Option<bool>)
    ensures
        match push_pieces(chunk_views(old(chunks)@), *old(idx) as int, piece_views(subs@), maxc as int) {
            Some((c, i, d)) => r == Some(d) && chunk_views(final(chunks)@) == c && *final(idx) == i,
            None => r is None,
        },
{
    let ghost goal = push_pieces(chunk_views(chunks@), *idx as int, piece_views(subs@), maxc as int);
    let mut k: usize = 0;
    assert(piece_views(subs@).skip(0) == piece_views(subs@));
    while k < subs.len()
        invariant
            k <= subs.len(),
            goal == push_pieces(chunk_views(old(chunks)@), *old(idx) as int, piece_views(subs@), maxc as int),
            goal == push_pieces(chunk_views(chunks@), *idx as int, piece_views(subs@).skip(k as int), maxc as int),
        decreases subs.len() - k,
    {
        let ghost rest = piece_views(subs@).skip(k as int);
        assert(rest.len() > 0);
        assert(rest[0] == piece_views(subs@)[k as int]);
        assert(rest.drop_first() == piece_views(subs@).skip(k + 1));
        if *idx == usize::MAX {
            return None;
        }
        let p = &subs[k];
        let copy = slice_chars(&p.0, 0, p.0.len());
        assert(copy@ == p.0@);
        let ghost before = chunk_views(chunks@);
        let ghost i0 = *idx;
        chunks.push((copy, p.1, p.2, *idx));
        assert(chunk_views(chunks@) == before.push((rest[0].0, rest[0].1, rest[0].2, i0 as int)));
        *idx = *idx + 1;
        if chunks.len() >= maxc {
            return Some(true);
        }
        k = k + 1;
    }
    assert(piece_views(subs@).skip(k as int).len() == 0);
    Some(false)
}

/// Computes [`long_pre`].
fn long_pre_exec(st: ChunkState, ps: usize, maxc: usize) -> (r: Option<ChunkState>)
    ensures
        match long_pre(st.model(), ps as int, maxc as int) {
            Some(m) => r matches Some(s) && s.model() == m,
            None => r is None,
        },
{
    let ChunkState { chunks, buf, bs, idx, done } = st;
    let mut chunks = chunks;
    if buf.len() > 0 {
        if !chunk_push_exec(&mut chunks, &buf, bs, idx) {
            return None;
        }
        if chunks.len() >= maxc {
            return Some(ChunkState { chunks, buf, bs, idx: idx + 1, done: true });
        }
        return Some(ChunkState { chunks, buf: Vec::new(), bs: ps, idx: idx + 1, done: false });
    }
    Some(ChunkState { chunks, buf, bs, idx, done })
}

/// Computes [`long_tail`].
fn long_tail_exec(chunks: Vec<(Vec<char>, usize, usize, usize)>, idx2: usize, bs1: usize, ov: usize) -> (r: Option<ChunkState>)
    ensures
        match long_tail(chunk_views(chunks@), idx2 as int, bs1 as int, ov as int) {
            Some(m) => r matches Some(s) && s.model() == m,
            None => r is None,
        },
{
    if chunks.len() > 0 {
        let li = chunks.len() - 1;
        assert(chunk_views(chunks@).last() == (chunks@[li as int].0@, chunks@[li as int].1 as int, chunks@[li as int].2 as int, chunks@[li as int].3 as int));
        let lb = match byte_len(&chunks[li].0) {
            Some(b) => b,
            None => {
                return None;
            },
        };
        let o = match extract_overlap(&chunks[li].0, lb, ov) {
            Some(o) => o,
            None => {
                return None;
            },
        };
        proof {
            lemma_overlap_suffix(chunks@[li as int].0@, ov as int);
        }
        let ob = blen_usize(&o);
        let le = chunks[li].2;
        if le < ob {
            return None;
        }
        return Some(ChunkState { chunks, buf: o, bs: le - ob, idx: idx2, done: false });
    }
    Some(ChunkState { chunks, buf: Vec::new(), bs: bs1, idx: idx2, done: false })
}

/// Computes [`chunk_long`].
fn chunk_long_exec(st: ChunkState, p: &Vec<char>, ps: usize, cc: usize, ov: usize, maxc: usize) -> (r: Option<ChunkState>)
    ensures
        match chunk_long(st.model(), p@, ps as int, cc as int, ov as int, maxc as int) {
            Some(m) => r matches Some(s) && s.model() == m,
            None => r is None,
        },
{
    let pre = match long_pre_exec(st, ps, maxc) {
        Some(s) => s,
        None => {
            return None;
        },
    };
    if pre.done {
        return Some(pre);
    }
    let subs = match split_long_paragraph(p, ps, cc, ov) {
        Some(v) => v,
        None => {
            return None;
        },
    };
    let ChunkState { chunks, buf, bs, idx, done } = pre;
    let mut chunks = chunks;
    let mut idx = idx;
    let d = match push_pieces_exec(&mut chunks, &mut idx, &subs, maxc) {
        Some(d) => d,
        None => {
            return None;
        },
    };
    if d {
        return Some(ChunkState { chunks, buf: Vec::new(), bs, idx, done: true });
    }
    long_tail_exec(chunks, idx, bs, ov)
}

/// Computes [`chunk_step`].
fn chunk_step_exec(st: ChunkState, p: &Vec<char>, ps: usize, cc: usize, ov: usize, maxc: usize) -> (r: Option<ChunkState>)
    ensures
        match chunk_step(st.model(), (p@, ps as int), cc as int, ov as int, maxc as int) {
            Some(m) => r matches Some(s) && s.model() == m,
            None => r is None,
        },
{
    if st.done {
        return Some(st);
    }
    let pb = match byte_len(p) {
        Some(b) => b,
        None => {
            return None;
        },
    };
    let st1 = match flush_state(st, pb, cc, ov, maxc, Ghost(p@)) {
        Some(s) => s,
        None => {
            return None;
        },
    };
    if st1.done {
        return Some(st1);
    }
    if pb > cc {
        chunk_long_exec(st1, p, ps, cc, ov, maxc)
    } else {
        let ChunkState { chunks, buf, bs, idx, done } = st1;
        if buf.len() > 0 {
            let mut buf = buf;
            buf.push('\n');
            append_chars(&mut buf, p);
            Some(ChunkState { chunks, buf, bs, idx, done: false })
        } else {
            Some(ChunkState { chunks, buf: slice_chars(p, 0, p.len()), bs: ps, idx, done: false })
        }
    }
}


proof fn lemma_chunk_fold_none(paras: Seq<(Seq<char>, int)>, j: int, cc: int, ov: int, maxc: int)
    requires
        0 <= j <= paras.len(),
        chunk_fold(paras.take(j), cc, ov, maxc) is None,
    ensures
        chunk_fold(paras, cc, ov, maxc) is None,
    decreases paras.len() - j,
{
    if j < paras.len() {
        assert(paras.take(j + 1).drop_last() == paras.take(j));
        lemma_chunk_fold_none(paras, j + 1, cc, ov, maxc);
    } else {
        assert(paras.take(j) == paras);
    }
}

/// The character index at which byte `b` of `t` starts, when `b` is a
/// character boundary.
fn cut_index(t: &Vec<char>, b: usize) -> (r: Option<usize>)
    requires
        blen(t@) <= usize::MAX,
    ensures
        r matches Some(k) ==> is_cut(t@, b as int, k as int),
        r is None ==> forall|k: int| !#[trigger] is_cut(t@, b as int, k),
{
    let mut acc: usize = 0;
    let mut i: usize = 0;
    assert(t@.take(0).len() == 0);
    while acc < b
        invariant
            i <= t.len(),
            acc == blen(t@.take(i as int)),
            blen(t@) <= usize::MAX,
            forall|k: int| 0 <= k < i ==> blen(#[trigger] t@.take(k)) < b,
        decreases t.len() - i,
    {
        if i == t.len() {
            proof {
                assert(t@.take(i as int) == t@);
                assert forall|k: int| !#[trigger] is_cut(t@, b as int, k) by {
                    if is_cut(t@, b as int, k) && k == i {
                        assert(false);
                    }
                }
            }
            return None;
        }
        proof {
            assert(t@.take(i + 1) == t@.take(i as int).push(t@[i as int]));
            lemma_blen_push(t@.take(i as int), t@[i as int]);
            lemma_blen_take_mono(t@, i + 1, t@.len() as int);
            assert(t@.take(t@.len() as int) == t@);
        }
        acc = acc + char_byte_len(t[i]);
        i = i + 1;
    }
    if acc != b {
        proof {
            assert forall|k: int| !#[trigger] is_cut(t@, b as int, k) by {
                if is_cut(t@, b as int, k) {
                    if k >= i {
                        lemma_blen_take_mono(t@, i as int, k);
                    }
                }
            }
        }
        return None;
    }
    Some(i)
}

/// Computes [`chunk_finish`].
fn finish_exec(t: &Vec<char>, st: ChunkState, minc: usize) -> (r: Option<Vec<(Vec<char>, usize, usize, usize)>>)
    requires
        blen(t@) <= usize::MAX,
    ensures
        match chunk_finish(t@, st.model(), minc as int) {
            Some(c) => r matches Some(v) && chunk_views(v@) == c,
            None => r is None,
        },
{
    let ChunkState { chunks, buf, bs, idx, done } = st;
    let mut chunks = chunks;
    if done || buf.len() == 0 {
        return Some(chunks);
    }
    let bb = match byte_len(&buf) {
        Some(b) => b,
        None => {
            return None;
        },
    };
    if bb < minc && chunks.len() > 0 {
        let li = chunks.len() - 1;
        let ghost cv = chunk_views(chunks@);
        assert(cv.last() == (chunks@[li as int].0@, chunks@[li as int].1 as int, chunks@[li as int].2 as int, chunks@[li as int].3 as int));
        let le = chunks[li].2;
        if le > bs {
            return None;
        }
        let k1 = match cut_index(t, le) {
            Some(k) => k,
            None => {
                return None;
            },
        };
        let k2 = match cut_index(t, bs) {
            Some(k) => k,
            None => {
                return None;
            },
        };
        if bb > usize::MAX - bs {
            return None;
        }
        proof {
            let c1 = choose|k: int| #[trigger] is_cut(t@, le as int, k);
            let c2 = choose|k: int| #[trigger] is_cut(t@, bs as int, k);
            lemma_cut_unique(t@, le as int, k1 as int, c1);
            lemma_cut_unique(t@, bs as int, k2 as int, c2);
            if k1 > k2 {
                lemma_blen_take_mono(t@, k2 as int, k1 as int);
            }
        }
        let gap = slice_chars(t, k1, k2);
        let mut merged = slice_chars(&chunks[li].0, 0, chunks[li].0.len());
        append_chars(&mut merged, &gap);
        append_chars(&mut merged, &buf);
        let s1 = chunks[li].1;
        let i1 = chunks[li].3;
        let ghost mv = merged@;
        assert(mv == cv.last().0 + t@.subrange(k1 as int, k2 as int) + buf@);
        chunks.set(li, (merged, s1, bs + bb, i1));
        assert(chunk_views(chunks@) =~= cv.update(li as int, (mv, s1 as int, bs + bb, i1 as int)));
        return Some(chunks);
    }
    if chunk_push_exec(&mut chunks, &buf, bs, idx) {
        Some(chunks)
    } else {
        None
    }
}

/// `str::len`: the number of bytes of `s`.
pub fn str_byte_len(s: &str) -> (n: usize)
    ensures
        n == blen(s@),
{
    proof {
        lemma_blen_utf8(s@);
    }
    s.as_bytes().len()
}

/// The views of a list of chunks.
pub open spec fn text_chunk_views(v: Seq<TextChunk>) -> Seq<(Seq<char>, int, int, int)> {
    v.map_values(|c: TextChunk| c@)
}

/// [`chunk_text`], or `None` on the inputs where it cannot complete (see
/// [`chunk_text_spec`]).
pub fn try_chunk_text(text: &str, config: &ChunkConfig) -> (r: Option<Vec<TextChunk>>)
    ensures
        match chunk_text_spec(text@, *config) {
            Some(cs) => r matches Some(v) && text_chunk_views(v@) == cs,
            None => r is None,
        },
{
    if text.is_empty() {
        let v: Vec<TextChunk> = Vec::new();
        assert(text_chunk_views(v@) == Seq::<(Seq<char>, int, int, int)>::empty());
        return Some(v);
    }
    let t = chars_of(text);
    let n = str_byte_len(text);
    assert(blen(t@) <= usize::MAX);
    let paras = split_paragraphs(&t);
    let ghost pv = paragraphs(t@);
    let cc = config.chunk_chars;
    let ov = config.overlap_chars;
    let maxc = config.max_chunks;
    let mut st = ChunkState { chunks: Vec::new(), buf: Vec::new(), bs: 0, idx: 0, done: false };
    assert(chunk_views(st.chunks@) == Seq::<(Seq<char>, int, int, int)>::empty());
    assert(pv.take(0).len() == 0);
    let mut i: usize = 0;
    while i < paras.len()
        invariant
            i <= paras.len(),
            para_views(paras@) == pv,
            pv == paragraphs(t@),
            t@ == text@,
            text@.len() > 0,
            cc == config.chunk_chars,
            ov == config.overlap_chars,
            maxc == config.max_chunks,
            chunk_fold(pv.take(i as int), cc as int, ov as int, maxc as int) == Some(st.model()),
        decreases paras.len() - i,
    {
        assert(pv.take(i + 1).drop_last() == pv.take(i as int));
        assert(pv.take(i + 1).last() == (paras@[i as int].0@, paras@[i as int].1 as int));
        st = match chunk_step_exec(st, &paras[i].0, paras[i].1, cc, ov, maxc) {
            Some(s) => s,
            None => {
                proof {
                    lemma_chunk_fold_none(pv, i + 1, cc as int, ov as int, maxc as int);
                }
                return None;
            },
        };
        i = i + 1;
    }
    assert(pv.take(paras.len() as int) == pv);
    let raw = match finish_exec(&t, st, config.min_chunk_chars) {
        Some(v) => v,
        None => {
            return None;
        },
    };
    let ghost rv = chunk_views(raw@);
    let mut out: Vec<TextChunk> = Vec::new();
    let mut j: usize = 0;
    while j < raw.len()
        invariant
            j <= raw.len(),
            rv == chunk_views(raw@),
            text_chunk_views(out@) == rv.take(j as int),
        decreases raw.len() - j,
    {
        let c = &raw[j];
        let ghost before = text_chunk_views(out@);
        out.push(TextChunk { text: string_of(&c.0), start_byte: c.1, end_byte: c.2, index: c.3 });
        assert(text_chunk_views(out@) == before.push(rv[j as int]));
        assert(rv.take(j + 1) == rv.take(j as int).push(rv[j as int]));
        j = j + 1;
    }
    assert(rv.take(raw.len() as int) == rv);
    Some(out)
}

/// Splits `text` into overlapping chunks that respect paragraph, sentence and
/// word boundaries (see [`chunk_text_spec`]).
pub fn chunk_text(text: &str, config: &ChunkConfig) -> (r: Vec<TextChunk>)
    requires
        chunk_text_spec(text@, *config) is Some,
    ensures
        text_chunk_views(r@) == chunk_text_spec(text@, *config).unwrap(),
        forall|i: int|
            0 <= i < r@.len() ==> #[trigger] r@[i].start_byte <= r@[i].end_byte && r@[i].end_byte <= blen(text@),
{
    let r = match try_chunk_text(text, config) {
        Some(v) => v,
        None => Vec::new(),
    };
    proof {
        lemma_chunk_offsets_ordered(text@, *config);
        crate::chunk_bounds::lemma_chunk_ends_within_text(text@, *config);
        assert forall|i: int| 0 <= i < r@.len() implies #[trigger] r@[i].start_byte <= r@[i].end_byte
            && r@[i].end_byte <= blen(text@) by {
            let cs = chunk_text_spec(text@, *config).unwrap();
            assert(text_chunk_views(r@)[i] == r@[i]@);
            assert(cs[i].1 <= cs[i].2);
            assert(cs[i].2 <= blen(text@));
        }
    }
    r
}


// ---------------------------------------------------------------------------
// Laws
// ---------------------------------------------------------------------------

/// The most chunks a document yields under a limit of `maxc`: the limit, or
/// one when the limit is zero (the first chunk is emitted before the check).
pub open spec fn chunk_cap(maxc: int) -> int {
    if maxc < 1 {
        1
    } else {
        maxc
    }
}

/// Every piece starts no later than it ends.
pub open spec fn pieces_ok(s: Seq<(Seq<char>, int, int)>) -> bool {
    forall|i: int| 0 <= i < s.len() ==> #[trigger] s[i].1 <= s[i].2
}

/// Chunk `i` has index `i` and starts no later than it ends.
pub open spec fn chunks_ok(s: Seq<(Seq<char>, int, int, int)>) -> bool {
    forall|i: int| #![trigger s[i]] 0 <= i < s.len() ==> s[i].3 == i && s[i].1 <= s[i].2
}

/// What every chunking state keeps: well-formed chunks, the next index equal
/// to their number, and room under the limit while the state is open.
pub open spec fn state_ok(st: ChunkModel, maxc: int) -> bool {
    &&& chunks_ok(st.0)
    &&& st.3 == st.0.len()
    &&& st.0.len() <= chunk_cap(maxc)
    &&& (!st.4 ==> st.0.len() < maxc || st.0.len() == 0)
}

proof fn lemma_emit_ok(out: Seq<(Seq<char>, int, int)>, buf: Seq<char>, base: int, rel: int)
    requires
        pieces_ok(out),
    ensures
        emit(out, buf, base, rel) matches Some(o) ==> pieces_ok(o),
{
    if let Some(o) = emit(out, buf, base, rel) {
        assert forall|i: int| 0 <= i < o.len() implies #[trigger] o[i].1 <= o[i].2 by {
            if i < out.len() {
                assert(o[i] == out[i]);
            }
        }
    }
}

proof fn lemma_flush_ok(st: (Seq<(Seq<char>, int, int)>, Seq<char>, int), next: Seq<char>, base: int, target: int, ov: int)
    requires
        pieces_ok(st.0),
    ensures
        flush_if_full(st, next, base, target, ov) matches Some(s) ==> pieces_ok(s.0),
{
    lemma_emit_ok(st.0, st.1, base, st.2);
}

proof fn lemma_words_fold_ok(ws: Seq<Seq<char>>, init: (Seq<(Seq<char>, int, int)>, Seq<char>, int), base: int, target: int, ov: int)
    requires
        pieces_ok(init.0),
    ensures
        words_fold(ws, init, base, target, ov) matches Some(s) ==> pieces_ok(s.0),
    decreases ws.len(),
{
    if ws.len() > 0 {
        lemma_words_fold_ok(ws.drop_last(), init, base, target, ov);
        if let Some(st) = words_fold(ws.drop_last(), init, base, target, ov) {
            lemma_flush_ok(st, ws.last(), base, target, ov);
        }
    }
}

proof fn lemma_split_by_words_ok(t: Seq<char>, ss: int, base: int, target: int, ov: int)
    ensures
        split_by_words_spec(t, ss, base, target, ov) matches Some(w) ==> pieces_ok(w),
{
    let init = (Seq::<(Seq<char>, int, int)>::empty(), Seq::<char>::empty(), ss);
    lemma_words_fold_ok(words(t), init, base, target, ov);
    if let Some(st) = words_fold(words(t), init, base, target, ov) {
        lemma_emit_ok(st.0, st.1, base, st.2);
    }
}

proof fn lemma_long_step_ok(st: (Seq<(Seq<char>, int, int)>, Seq<char>, int), sent: (Seq<char>, int), base: int, target: int, ov: int)
    requires
        pieces_ok(st.0),
    ensures
        long_step(st, sent, base, target, ov) matches Some(s) ==> pieces_ok(s.0),
{
    let (s, ss) = sent;
    lemma_flush_ok(st, s, base, target, ov);
    if let Some((res1, buf1, rel1)) = flush_if_full(st, s, base, target, ov) {
        lemma_emit_ok(res1, buf1, base, rel1);
        lemma_split_by_words_ok(s, ss, base, target, ov);
        if blen(s) > target {
            let res2 = if buf1.len() > 0 {
                emit(res1, buf1, base, rel1)
            } else {
                Some(res1)
            };
            if let Some(r2) = res2 {
                if let Some(wc) = split_by_words_spec(s, ss, base, target, ov) {
                    let res3 = r2 + wc;
                    assert forall|i: int| 0 <= i < res3.len() implies #[trigger] res3[i].1 <= res3[i].2 by {
                        if i < r2.len() {
                            assert(res3[i] == r2[i]);
                        } else {
                            assert(res3[i] == wc[i - r2.len()]);
                        }
                    }
                }
            }
        }
    }
}

proof fn lemma_long_fold_ok(sents: Seq<(Seq<char>, int)>, base: int, target: int, ov: int)
    ensures
        long_fold(sents, base, target, ov) matches Some(s) ==> pieces_ok(s.0),
    decreases sents.len(),
{
    if sents.len() > 0 {
        lemma_long_fold_ok(sents.drop_last(), base, target, ov);
        if let Some(st) = long_fold(sents.drop_last(), base, target, ov) {
            lemma_long_step_ok(st, sents.last(), base, target, ov);
        }
    }
}

proof fn lemma_long_paragraph_ok(p: Seq<char>, base: int, target: int, ov: int)
    ensures
        long_paragraph_spec(p, base, target, ov) matches Some(ps) ==> pieces_ok(ps),
{
    lemma_long_fold_ok(sentences(p), base, target, ov);
    if let Some(st) = long_fold(sentences(p), base, target, ov) {
        lemma_emit_ok(st.0, st.1, base, st.2);
    }
}

proof fn lemma_chunk_push_ok(chunks: Seq<(Seq<char>, int, int, int)>, text: Seq<char>, start: int, idx: int, maxc: int)
    requires
        chunks_ok(chunks),
        idx == chunks.len(),
        chunks.len() < maxc || chunks.len() == 0,
    ensures
        chunk_push(chunks, text, start, idx) matches Some(c) ==> chunks_ok(c) && c.len() == idx + 1
            && c.len() <= chunk_cap(maxc),
{
    if let Some(c) = chunk_push(chunks, text, start, idx) {
        assert forall|i: int| 0 <= i < c.len() implies #[trigger] c[i].3 == i && c[i].1 <= c[i].2 by {
            if i < chunks.len() {
                assert(c[i] == chunks[i]);
            }
        }
    }
}

proof fn lemma_push_pieces_ok(chunks: Seq<(Seq<char>, int, int, int)>, idx: int, subs: Seq<(Seq<char>, int, int)>, maxc: int)
    requires
        chunks_ok(chunks),
        idx == chunks.len(),
        chunks.len() < maxc || chunks.len() == 0,
        chunks.len() <= chunk_cap(maxc),
        pieces_ok(subs),
    ensures
        push_pieces(chunks, idx, subs, maxc) matches Some((c, i, d)) ==> chunks_ok(c) && i == c.len()
            && c.len() <= chunk_cap(maxc) && (!d ==> c.len() < maxc || c.len() == 0),
    decreases subs.len(),
{
    if subs.len() > 0 && fits(idx) && fits(idx + 1) {
        let c2 = chunks.push((subs[0].0, subs[0].1, subs[0].2, idx));
        assert(subs[0].1 <= subs[0].2);
        assert forall|i: int| 0 <= i < c2.len() implies #[trigger] c2[i].3 == i && c2[i].1 <= c2[i].2 by {
            if i < chunks.len() {
                assert(c2[i] == chunks[i]);
            }
        }
        if c2.len() < maxc {
            assert(pieces_ok(subs.drop_first())) by {
                assert forall|i: int| 0 <= i < subs.drop_first().len() implies #[trigger] subs.drop_first()[i].1
                    <= subs.drop_first()[i].2 by {
                    assert(subs.drop_first()[i] == subs[i + 1]);
                }
            }
            lemma_push_pieces_ok(c2, idx + 1, subs.drop_first(), maxc);
        }
    }
}

proof fn lemma_chunk_step_ok(st: ChunkModel, para: (Seq<char>, int), cc: int, ov: int, maxc: int)
    requires
        state_ok(st, maxc),
    ensures
        chunk_step(st, para, cc, ov, maxc) matches Some(s) ==> state_ok(s, maxc),
{
    let (p, ps) = para;
    if !st.4 {
        lemma_chunk_push_ok(st.0, st.1, st.2, st.3, maxc);
        if let Some(st1) = chunk_flush(st, p, cc, ov, maxc) {
            assert(state_ok(st1, maxc));
            if !st1.4 && blen(p) > cc {
                lemma_chunk_push_ok(st1.0, st1.1, st1.2, st1.3, maxc);
                if let Some(pre) = long_pre(st1, ps, maxc) {
                    assert(state_ok(pre, maxc));
                    if !pre.4 {
                        lemma_long_paragraph_ok(p, ps, cc, ov);
                        if let Some(subs) = long_paragraph_spec(p, ps, cc, ov) {
                            lemma_push_pieces_ok(pre.0, pre.3, subs, maxc);
                        }
                    }
                }
            }
        }
    }
}

proof fn lemma_chunk_fold_ok(paras: Seq<(Seq<char>, int)>, cc: int, ov: int, maxc: int)
    ensures
        chunk_fold(paras, cc, ov, maxc) matches Some(s) ==> state_ok(s, maxc),
    decreases paras.len(),
{
    if paras.len() > 0 {
        lemma_chunk_fold_ok(paras.drop_last(), cc, ov, maxc);
        if let Some(st) = chunk_fold(paras.drop_last(), cc, ov, maxc) {
            lemma_chunk_step_ok(st, paras.last(), cc, ov, maxc);
        }
    }
}

proof fn lemma_chunk_text_ok(t: Seq<char>, cfg: ChunkConfig)
    requires
        chunk_text_spec(t, cfg) is Some,
    ensures
        chunks_ok(chunk_text_spec(t, cfg).unwrap()),
        chunk_text_spec(t, cfg).unwrap().len() <= chunk_cap(cfg.max_chunks as int),
{
    if t.len() > 0 {
        let maxc = cfg.max_chunks as int;
        lemma_chunk_fold_ok(paragraphs(t), cfg.chunk_chars as int, cfg.overlap_chars as int, maxc);
        let st = chunk_fold(paragraphs(t), cfg.chunk_chars as int, cfg.overlap_chars as int, maxc).unwrap();
        if !st.4 {
            lemma_chunk_push_ok(st.0, st.1, st.2, st.3, maxc);
        }
        let r = chunk_text_spec(t, cfg).unwrap();
        if !st.4 && st.1.len() > 0 && blen(st.1) < cfg.min_chunk_chars && st.0.len() > 0 {
            assert forall|i: int| 0 <= i < r.len() implies #[trigger] r[i].3 == i && r[i].1 <= r[i].2 by {
                if i < st.0.len() - 1 {
                    assert(r[i] == st.0[i]);
                } else {
                    assert(st.0[i].1 <= st.0[i].2);
                }
            }
        }
    }
}

/// Chunk indices count up from zero: the chunk at position `i` has index `i`.
pub proof fn lemma_chunk_indices_sequential(t: Seq<char>, cfg: ChunkConfig)
    requires
        chunk_text_spec(t, cfg) is Some,
    ensures
        forall|i: int|
            0 <= i < chunk_text_spec(t, cfg).unwrap().len() ==> #[trigger] chunk_text_spec(t, cfg).unwrap()[i].3 == i,
{
    lemma_chunk_text_ok(t, cfg);
}

/// A document yields at most `max_chunks` chunks (at most one when the limit
/// is zero).
pub proof fn lemma_chunk_count_bounded(t: Seq<char>, cfg: ChunkConfig)
    requires
        chunk_text_spec(t, cfg) is Some,
    ensures
        chunk_text_spec(t, cfg).unwrap().len() <= chunk_cap(cfg.max_chunks as int),
{
    lemma_chunk_text_ok(t, cfg);
}

/// Every chunk starts no later than it ends.
pub proof fn lemma_chunk_offsets_ordered(t: Seq<char>, cfg: ChunkConfig)
    requires
        chunk_text_spec(t, cfg) is Some,
    ensures
        forall|i: int|
            0 <= i < chunk_text_spec(t, cfg).unwrap().len() ==> #[trigger] chunk_text_spec(t, cfg).unwrap()[i].1
                <= chunk_text_spec(t, cfg).unwrap()[i].2,
{
    lemma_chunk_text_ok(t, cfg);
}

/// The empty document has no chunks.
pub proof fn lemma_chunk_empty(cfg: ChunkConfig)
    ensures
        chunk_text_spec(Seq::empty(), cfg) == Some(Seq::<(Seq<char>, int, int, int)>::empty()),
{
}

} // verus!
