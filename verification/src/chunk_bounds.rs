//! Where chunks can end: every chunk of a text ends within the text.
//!
//! Each stage keeps a frontier, the furthest byte its output may reach: the
//! paragraphs lie inside the text, the sentences of a paragraph and the
//! words of a sentence inside their source (joined by single spaces where
//! the source had at least one separator), and every buffer that becomes a
//! chunk ends at or before the frontier of what it has read.

use vstd::prelude::*;
use crate::chunking::{blen, blank_line, emit, flush_if_full, is_term_at, join_space, lemma_blen_ascii, lemma_blen_concat, lemma_blen_push, lemma_overlap_suffix, paragraphs, paras_of, long_fold, long_paragraph_spec, long_step, sentence_piece, sentences, sentences_from, split_blank_from, split_by_words_spec, words_fold, words_step, chunk_finish, chunk_flush, chunk_fold, chunk_long, chunk_push, chunk_step, chunk_text_spec, long_pre, push_pieces, ChunkConfig, ChunkModel};
use crate::text::{all_ascii, is_ascii_c, is_ws, starts_with, trim, trim_end, trim_start, words, words_state};

verus! {

// ---------------------------------------------------------------------------
// Trimming
// ---------------------------------------------------------------------------

proof fn lemma_trim_start_suffix(s: Seq<char>)
    ensures
        trim_start(s).len() <= s.len(),
        trim_start(s) == s.skip(s.len() - trim_start(s).len()),
        s.len() > 0 && is_ws(s[0]) ==> trim_start(s).len() < s.len(),
    decreases s.len(),
{
    if s.len() > 0 && is_ws(s[0]) {
        lemma_trim_start_suffix(s.drop_first());
        let k = s.drop_first().len() - trim_start(s.drop_first()).len();
        assert(s.drop_first().skip(k) == s.skip(k + 1));
    } else {
        assert(s.skip(0) == s);
    }
}

proof fn lemma_trim_end_prefix(s: Seq<char>)
    ensures
        trim_end(s).len() <= s.len(),
        trim_end(s) == s.take(trim_end(s).len() as int),
    decreases s.len(),
{
    if s.len() > 0 && is_ws(s.last()) {
        lemma_trim_end_prefix(s.drop_last());
        let k = trim_end(s.drop_last()).len() as int;
        assert(s.drop_last().take(k) == s.take(k));
    } else {
        assert(s.take(s.len() as int) == s);
    }
}

/// `trim(s)` sits in `s` after `lead` bytes of leading whitespace.
proof fn lemma_trim_bytes(s: Seq<char>)
    ensures
        ({
            let lead = s.len() - trim_start(s).len();
            blen(s.take(lead)) + blen(trim(s)) <= blen(s)
        }),
        trim(s).len() <= s.len(),
        s.len() > 0 && is_ws(s[0]) ==> trim(s).len() < s.len(),
{
    lemma_trim_start_suffix(s);
    let lead = s.len() - trim_start(s).len();
    let q = trim_start(s);
    lemma_trim_end_prefix(q);
    let m = trim_end(q).len() as int;
    assert(s == s.take(lead) + s.skip(lead));
    lemma_blen_concat(s.take(lead), s.skip(lead));
    assert(q == q.take(m) + q.skip(m));
    lemma_blen_concat(q.take(m), q.skip(m));
}

// ---------------------------------------------------------------------------
// Paragraphs
// ---------------------------------------------------------------------------

/// The bytes that `pieces` cover when consecutive pieces are separated by
/// two bytes.
pub open spec fn pieces_span(pieces: Seq<Seq<char>>) -> int
    decreases pieces.len(),
{
    if pieces.len() == 0 {
        0
    } else if pieces.len() == 1 {
        blen(pieces[0]) as int
    } else {
        blen(pieces[0]) + 2 + pieces_span(pieces.drop_first())
    }
}

proof fn lemma_span_nonneg(pieces: Seq<Seq<char>>)
    ensures
        pieces_span(pieces) >= 0,
    decreases pieces.len(),
{
    if pieces.len() > 1 {
        lemma_span_nonneg(pieces.drop_first());
    }
}

proof fn lemma_split_blank_span(s: Seq<char>, cur: Seq<char>)
    ensures
        split_blank_from(s, cur).len() >= 1,
        pieces_span(split_blank_from(s, cur)) == blen(cur) + blen(s),
    decreases s.len(),
{
    if s.len() == 0 {
    } else if starts_with(s, blank_line()) {
        let rest = split_blank_from(s.skip(2), Seq::empty());
        lemma_split_blank_span(s.skip(2), Seq::empty());
        let all = seq![cur] + rest;
        assert(all[0] == cur);
        assert(all.drop_first() == rest);
        assert(s == s.take(2) + s.skip(2));
        lemma_blen_concat(s.take(2), s.skip(2));
        assert(s.take(2) == blank_line());
        assert(blen(blank_line()) == 2) by {
            let b = blank_line();
            assert(b.drop_first() =~= seq!['\n']);
            assert(seq!['\n'].drop_first() =~= Seq::<char>::empty());
            assert(blen(Seq::<char>::empty()) == 0);
            assert(blen(seq!['\n']) == 1);
        }
        assert(blen(Seq::<char>::empty()) == 0);
    } else {
        lemma_split_blank_span(s.drop_first(), cur.push(s[0]));
        lemma_blen_push(cur, s[0]);
    }
}

/// Spans at or after `lo` ending at or before `hi`, in order, consecutive
/// ones at least two bytes apart.
pub open spec fn spans_within(ps: Seq<(Seq<char>, int)>, lo: int, hi: int) -> bool {
    &&& forall|i: int| 0 <= i < ps.len() ==> lo <= #[trigger] ps[i].1 && ps[i].1 + blen(ps[i].0) <= hi
    &&& forall|i: int| 0 < i < ps.len() ==> ps[i - 1].1 + blen(ps[i - 1].0) + 2 <= #[trigger] ps[i].1
}

proof fn lemma_spans_concat(a: Seq<(Seq<char>, int)>, b: Seq<(Seq<char>, int)>, lo: int, mid: int, hi: int)
    requires
        spans_within(a, lo, mid),
        spans_within(b, mid + 2, hi),
        lo <= mid + 2,
        mid <= hi,
    ensures
        spans_within(a + b, lo, hi),
{
    let all = a + b;
    assert forall|i: int| 0 <= i < all.len() implies lo <= #[trigger] all[i].1 && all[i].1 + blen(all[i].0) <= hi by {
        if i >= a.len() {
            assert(all[i] == b[i - a.len()]);
        } else {
            assert(all[i] == a[i]);
        }
    }
    assert forall|i: int| 0 < i < all.len() implies all[i - 1].1 + blen(all[i - 1].0) + 2 <= #[trigger] all[i].1 by {
        if i > a.len() {
            assert(all[i] == b[i - a.len()]);
            assert(all[i - 1] == b[i - 1 - a.len()]);
        } else if i == a.len() {
            assert(all[i] == b[0]);
            assert(all[i - 1] == a[i - 1]);
        } else {
            assert(all[i] == a[i]);
            assert(all[i - 1] == a[i - 1]);
        }
    }
}

proof fn lemma_paras_of_within(pieces: Seq<Seq<char>>, start: int)
    requires
        pieces.len() >= 1,
    ensures
        spans_within(paras_of(pieces, start), start, start + pieces_span(pieces)),
    decreases pieces.len(),
{
    let p = pieces[0];
    let t = trim(p);
    let lead = p.len() - trim_start(p).len();
    lemma_trim_bytes(p);
    let here: Seq<(Seq<char>, int)> = if t.len() > 0 {
        seq![(t, start + blen(p.take(lead)))]
    } else {
        Seq::empty()
    };
    assert(spans_within(here, start, start + blen(p)));
    let rest_pieces = pieces.drop_first();
    let rest = paras_of(rest_pieces, start + blen(p) + 2);
    assert(paras_of(pieces, start) == here + rest);
    if rest_pieces.len() == 0 {
        assert(rest.len() == 0);
        assert(here + rest == here);
        assert(pieces_span(pieces) == blen(p));
    } else {
        lemma_paras_of_within(rest_pieces, start + blen(p) + 2);
        assert(pieces_span(pieces) == blen(p) + 2 + pieces_span(rest_pieces));
        lemma_span_nonneg(rest_pieces);
        lemma_spans_concat(here, rest, start, start + blen(p), start + pieces_span(pieces));
    }
}

/// The paragraphs of a text lie inside it, in order, at least two bytes
/// apart.
pub proof fn lemma_paragraphs_within(text: Seq<char>)
    ensures
        spans_within(paragraphs(text), 0, blen(text) as int),
{
    lemma_split_blank_span(text, Seq::empty());
    lemma_paras_of_within(split_blank_from(text, Seq::empty()), 0);
    assert(blen(Seq::<char>::empty()) == 0);
}

// ---------------------------------------------------------------------------
// Sentences
// ---------------------------------------------------------------------------

/// Where the text of a sentence piece ends, when the piece is a sentence.
pub open spec fn piece_end(t: Seq<char>, a: int, b: int) -> Seq<int> {
    if trim(t.subrange(a, b)).len() > 0 {
        seq![b]
    } else {
        Seq::empty()
    }
}

/// The index where the text of each sentence of [`sentences_from`] ends.
pub open spec fn sentence_ends_from(t: Seq<char>, start: int, pos: int, skipping: bool) -> Seq<int>
    decreases t.len() - pos, (if skipping {
        1int
    } else {
        0int
    }),
{
    if pos < 0 || start < 0 || start > pos {
        Seq::empty()
    } else if pos >= t.len() {
        if start < t.len() {
            piece_end(t, start, t.len() as int)
        } else {
            Seq::empty()
        }
    } else if skipping {
        if t[pos] == ' ' {
            sentence_ends_from(t, pos + 1, pos + 1, true)
        } else {
            sentence_ends_from(t, start, pos, false)
        }
    } else if is_term_at(t, pos) {
        piece_end(t, start, pos + 1) + sentence_ends_from(t, pos + 1, pos + 1, true)
    } else {
        sentence_ends_from(t, start, pos + 1, false)
    }
}

/// Pieces of text in order, each starting at or after `lo` and ending (at
/// its end in `ends`) at or before `hi`, each separated from the one before
/// it (or from `prev`) by at least one character.
pub open spec fn chain_ok(ps: Seq<(Seq<char>, int)>, ends: Seq<int>, prev: int, lo: int, hi: int) -> bool {
    &&& ps.len() == ends.len()
    &&& forall|j: int| 0 <= j < ps.len() ==> lo <= #[trigger] ps[j].1 && ps[j].1 + ps[j].0.len() <= ends[j] && ends[j] <= hi
    &&& forall|j: int| 0 <= j < ps.len() ==> (if j == 0 {
        prev
    } else {
        ends[j - 1]
    }) + 1 + ps[j].0.len() <= #[trigger] ends[j]
}

proof fn lemma_chain_concat(
    a: Seq<(Seq<char>, int)>,
    ea: Seq<int>,
    b: Seq<(Seq<char>, int)>,
    eb: Seq<int>,
    prev: int,
    prev2: int,
    lo: int,
    hi: int,
)
    requires
        chain_ok(a, ea, prev, lo, hi),
        chain_ok(b, eb, prev2, lo, hi),
        a.len() > 0 ==> ea.last() <= prev2,
        a.len() == 0 ==> prev <= prev2,
    ensures
        chain_ok(a + b, ea + eb, prev, lo, hi),
{
    let all = a + b;
    let e = ea + eb;
    assert forall|j: int| 0 <= j < all.len() implies lo <= #[trigger] all[j].1 && all[j].1 + all[j].0.len() <= e[j] && e[j] <= hi by {
        if j < a.len() {
            assert(all[j] == a[j] && e[j] == ea[j]);
        } else {
            assert(all[j] == b[j - a.len()] && e[j] == eb[j - a.len()]);
        }
    }
    assert forall|j: int| 0 <= j < all.len() implies (if j == 0 {
        prev
    } else {
        e[j - 1]
    }) + 1 + all[j].0.len() <= #[trigger] e[j] by {
        if j < a.len() {
            assert(all[j] == a[j] && e[j] == ea[j]);
            if j > 0 {
                assert(e[j - 1] == ea[j - 1]);
            }
        } else {
            let k = j - a.len();
            assert(all[j] == b[k] && e[j] == eb[k]);
            if k > 0 {
                assert(e[j - 1] == eb[k - 1]);
            } else if j > 0 {
                assert(e[j - 1] == ea.last());
            }
        }
    }
}

proof fn lemma_piece_chain(t: Seq<char>, a: int, b: int, prev: int, lo: int)
    requires
        0 <= lo <= a < b <= t.len(),
        -1 <= prev <= a,
        prev < a || is_ws(t[a]),
    ensures
        chain_ok(sentence_piece(t, a, b), piece_end(t, a, b), prev, lo, b),
{
    let x = t.subrange(a, b);
    lemma_trim_bytes(x);
    assert(x[0] == t[a]);
    let ps = sentence_piece(t, a, b);
    let es = piece_end(t, a, b);
    if trim(x).len() > 0 {
        assert(ps == seq![(trim(x), a)]);
        assert(es == seq![b]);
        assert(ps[0].0.len() < x.len() || prev < a);
    }
}

proof fn lemma_sentences_from_chain(t: Seq<char>, start: int, pos: int, skipping: bool, prev: int)
    requires
        0 <= start <= pos <= t.len(),
        -1 <= prev <= start,
        prev < start || (start < t.len() && is_ws(t[start])),
        skipping ==> start == pos,
    ensures
        chain_ok(sentences_from(t, start, pos, skipping), sentence_ends_from(t, start, pos, skipping), prev, start, t.len() as int),
    decreases t.len() - pos, (if skipping {
        1int
    } else {
        0int
    }),
{
    if pos >= t.len() {
        if start < t.len() {
            lemma_piece_chain(t, start, t.len() as int, prev, start);
        }
    } else if skipping {
        if t[pos] == ' ' {
            lemma_sentences_from_chain(t, pos + 1, pos + 1, true, prev);
            lemma_chain_widen(sentences_from(t, pos + 1, pos + 1, true), sentence_ends_from(t, pos + 1, pos + 1, true), prev, pos + 1, start, t.len() as int);
        } else {
            lemma_sentences_from_chain(t, start, pos, false, prev);
        }
    } else if is_term_at(t, pos) {
        lemma_piece_chain(t, start, pos + 1, prev, start);
        lemma_chain_widen(sentence_piece(t, start, pos + 1), piece_end(t, start, pos + 1), prev, start, start, pos + 1);
        assert(is_ws(t[pos + 1]));
        lemma_sentences_from_chain(t, pos + 1, pos + 1, true, pos + 1);
        lemma_chain_widen(sentences_from(t, pos + 1, pos + 1, true), sentence_ends_from(t, pos + 1, pos + 1, true), pos + 1, pos + 1, start, t.len() as int);
        lemma_chain_hi(sentence_piece(t, start, pos + 1), piece_end(t, start, pos + 1), prev, start, pos + 1, t.len() as int);
        lemma_chain_prev(sentences_from(t, pos + 1, pos + 1, true), sentence_ends_from(t, pos + 1, pos + 1, true), pos + 1, prev, start, t.len() as int);
        if sentence_piece(t, start, pos + 1).len() > 0 {
            lemma_chain_concat(sentence_piece(t, start, pos + 1), piece_end(t, start, pos + 1), sentences_from(t, pos + 1, pos + 1, true), sentence_ends_from(t, pos + 1, pos + 1, true), prev, pos + 1, start, t.len() as int);
        } else {
            lemma_chain_concat(sentence_piece(t, start, pos + 1), piece_end(t, start, pos + 1), sentences_from(t, pos + 1, pos + 1, true), sentence_ends_from(t, pos + 1, pos + 1, true), prev, pos + 1, start, t.len() as int);
        }
    } else {
        lemma_sentences_from_chain(t, start, pos + 1, false, prev);
    }
}

proof fn lemma_chain_widen(ps: Seq<(Seq<char>, int)>, ends: Seq<int>, prev: int, lo: int, lo2: int, hi: int)
    requires
        chain_ok(ps, ends, prev, lo, hi),
        lo2 <= lo,
    ensures
        chain_ok(ps, ends, prev, lo2, hi),
{
}

proof fn lemma_chain_hi(ps: Seq<(Seq<char>, int)>, ends: Seq<int>, prev: int, lo: int, hi: int, hi2: int)
    requires
        chain_ok(ps, ends, prev, lo, hi),
        hi <= hi2,
    ensures
        chain_ok(ps, ends, prev, lo, hi2),
{
}

proof fn lemma_chain_prev(ps: Seq<(Seq<char>, int)>, ends: Seq<int>, prev: int, prev2: int, lo: int, hi: int)
    requires
        chain_ok(ps, ends, prev, lo, hi),
        prev2 <= prev,
    ensures
        chain_ok(ps, ends, prev2, lo, hi),
{
    assert forall|j: int| 0 <= j < ps.len() implies (if j == 0 {
        prev2
    } else {
        ends[j - 1]
    }) + 1 + ps[j].0.len() <= #[trigger] ends[j] by {
        assert((if j == 0 {
            prev
        } else {
            ends[j - 1]
        }) + 1 + ps[j].0.len() <= ends[j]);
    }
}

/// The sentences of a paragraph lie inside it, in order, each separated
/// from the one before by at least one character.
pub proof fn lemma_sentences_chain(t: Seq<char>)
    ensures
        chain_ok(sentences(t), sentence_ends_from(t, 0, 0, false), -1, 0, t.len() as int),
{
    lemma_sentences_from_chain(t, 0, 0, false, -1);
}

// ---------------------------------------------------------------------------
// Words
// ---------------------------------------------------------------------------

/// The index after each finished word of [`words_state`].
pub open spec fn word_ends_state(s: Seq<char>) -> Seq<int>
    decreases s.len(),
{
    if s.len() == 0 {
        Seq::empty()
    } else {
        let cur = words_state(s.drop_last()).1;
        let e = word_ends_state(s.drop_last());
        if is_ws(s.last()) && cur.len() > 0 {
            e.push(s.len() - 1)
        } else {
            e
        }
    }
}

/// The index after each word of `s`.
pub open spec fn word_ends(s: Seq<char>) -> Seq<int> {
    if words_state(s).1.len() > 0 {
        word_ends_state(s).push(s.len() as int)
    } else {
        word_ends_state(s)
    }
}

/// Words in order, each ending (at its end in `ends`) at or before `hi`,
/// each separated from the one before by at least one character.
pub open spec fn words_chain(ws: Seq<Seq<char>>, ends: Seq<int>, hi: int) -> bool {
    &&& ws.len() == ends.len()
    &&& forall|k: int| 0 <= k < ws.len() ==> #[trigger] ends[k] <= hi && (if k == 0 {
        -1
    } else {
        ends[k - 1]
    }) + 1 + ws[k].len() <= ends[k]
    &&& forall|k: int| 0 <= k < ws.len() ==> all_ascii(#[trigger] ws[k])
}

proof fn lemma_ascii_push(s: Seq<char>, c: char)
    requires
        all_ascii(s),
        is_ascii_c(c),
    ensures
        all_ascii(s.push(c)),
{
    assert forall|i: int| 0 <= i < s.push(c).len() implies is_ascii_c(#[trigger] s.push(c)[i]) by {
        if i < s.len() {
            assert(s.push(c)[i] == s[i]);
        }
    }
}

proof fn lemma_words_state_chain(s: Seq<char>)
    requires
        all_ascii(s),
    ensures
        ({
            let (done, cur) = words_state(s);
            let e = word_ends_state(s);
            &&& words_chain(done, e, s.len() - 1)
            &&& cur.len() <= s.len()
            &&& (if done.len() == 0 {
                -1
            } else {
                e.last()
            }) + 1 + cur.len() <= s.len()
            &&& all_ascii(cur)
        }),
    decreases s.len(),
{
    if s.len() > 0 {
        let s0 = s.drop_last();
        assert(all_ascii(s0)) by {
            assert forall|i: int| 0 <= i < s0.len() implies is_ascii_c(#[trigger] s0[i]) by {
                assert(s0[i] == s[i]);
            }
        }
        lemma_words_state_chain(s0);
        let (d0, c0) = words_state(s0);
        let e0 = word_ends_state(s0);
        let c = s.last();
        assert(is_ascii_c(c));
        if is_ws(c) {
            if c0.len() > 0 {
                let done = d0.push(c0);
                let e = e0.push(s.len() - 1);
                assert forall|k: int| 0 <= k < done.len() implies #[trigger] e[k] <= s.len() - 1 && (if k == 0 {
                    -1
                } else {
                    e[k - 1]
                }) + 1 + done[k].len() <= e[k] by {
                    if k < d0.len() {
                        assert(e[k] == e0[k] && done[k] == d0[k]);
                        if k > 0 {
                            assert(e[k - 1] == e0[k - 1]);
                        }
                    } else {
                        assert(done[k] == c0);
                        if k > 0 {
                            assert(e[k - 1] == e0.last());
                        }
                    }
                }
                assert forall|k: int| 0 <= k < done.len() implies all_ascii(#[trigger] done[k]) by {
                    if k < d0.len() {
                        assert(done[k] == d0[k]);
                    }
                }
            }
        } else {
            lemma_ascii_push(c0, c);
        }
    }
}

/// The words of an ASCII text lie inside it, in order, at least one
/// character apart.
proof fn lemma_words_chain(s: Seq<char>)
    requires
        all_ascii(s),
    ensures
        words_chain(words(s), word_ends(s), s.len() as int),
{
    lemma_words_state_chain(s);
    let (done, cur) = words_state(s);
    let e = word_ends_state(s);
    if cur.len() > 0 {
        let ws = done.push(cur);
        let es = e.push(s.len() as int);
        assert(words(s) == ws);
        assert(word_ends(s) == es);
        assert forall|k: int| 0 <= k < ws.len() implies #[trigger] es[k] <= s.len() && (if k == 0 {
            -1
        } else {
            es[k - 1]
        }) + 1 + ws[k].len() <= es[k] by {
            if k < done.len() {
                assert(es[k] == e[k] && ws[k] == done[k]);
                if k > 0 {
                    assert(es[k - 1] == e[k - 1]);
                }
            } else {
                assert(ws[k] == cur);
                if k > 0 {
                    assert(es[k - 1] == e.last());
                }
            }
        }
        assert forall|k: int| 0 <= k < ws.len() implies all_ascii(#[trigger] ws[k]) by {
            if k < done.len() {
                assert(ws[k] == done[k]);
            }
        }
    } else {
        assert(words(s) == done);
        assert(word_ends(s) == e);
    }
}

/// A pieces state whose output ends by `base + bound`, whose buffer ends by
/// `bound`, and whose empty buffer starts at most one past it.
pub open spec fn pieces_inv(st: (Seq<(Seq<char>, int, int)>, Seq<char>, int), bound: int, base: int) -> bool {
    let (out, buf, rel) = st;
    &&& forall|i: int| 0 <= i < out.len() ==> #[trigger] out[i].2 <= base + bound
    &&& buf.len() > 0 ==> rel + blen(buf) <= bound
    &&& buf.len() == 0 ==> rel <= bound + 1
}

proof fn lemma_emit_inv(out: Seq<(Seq<char>, int, int)>, buf: Seq<char>, base: int, rel: int, bound: int)
    requires
        forall|i: int| 0 <= i < out.len() ==> #[trigger] out[i].2 <= base + bound,
        rel + blen(buf) <= bound,
    ensures
        emit(out, buf, base, rel) matches Some(o2) ==> forall|i: int| 0 <= i < o2.len() ==> #[trigger] o2[i].2 <= base + bound,
{
    if let Some(o2) = emit(out, buf, base, rel) {
        assert forall|i: int| 0 <= i < o2.len() implies #[trigger] o2[i].2 <= base + bound by {
            if i < out.len() {
                assert(o2[i] == out[i]);
            }
        }
    }
}

proof fn lemma_flush_inv(
    st: (Seq<(Seq<char>, int, int)>, Seq<char>, int),
    next: Seq<char>,
    base: int,
    target: int,
    ov: int,
    bound: int,
)
    requires
        pieces_inv(st, bound, base),
    ensures
        flush_if_full(st, next, base, target, ov) matches Some(st2) ==> pieces_inv(st2, bound, base),
{
    let (out, buf, rel) = st;
    if blen(buf) + blen(next) + 1 > target && buf.len() > 0 {
        lemma_emit_inv(out, buf, base, rel, bound);
        lemma_overlap_suffix(buf, ov);
    }
}

proof fn lemma_words_step_inv(
    st: (Seq<(Seq<char>, int, int)>, Seq<char>, int),
    w: Seq<char>,
    base: int,
    target: int,
    ov: int,
    bound: int,
    bound2: int,
)
    requires
        pieces_inv(st, bound, base),
        bound + 1 + blen(w) <= bound2,
    ensures
        words_step(st, w, base, target, ov) matches Some(st2) ==> pieces_inv(st2, bound2, base),
{
    lemma_flush_inv(st, w, base, target, ov, bound);
    if let Some((out, buf, rel)) = flush_if_full(st, w, base, target, ov) {
        if buf.len() > 0 {
            lemma_blen_push(buf, ' ');
            lemma_blen_concat(buf.push(' '), w);
        }
        assert forall|i: int| 0 <= i < out.len() implies #[trigger] out[i].2 <= base + bound2 by {}
        let b2 = join_space(buf, w);
        if b2.len() > 0 {
            assert(rel + blen(b2) <= bound2);
        }
    }
}

/// The bound of a word fold after the words with these ends.
pub open spec fn words_bound(ss: int, ends: Seq<int>) -> int {
    if ends.len() == 0 {
        ss - 1
    } else {
        ss + ends.last()
    }
}

proof fn lemma_words_fold_inv(ws: Seq<Seq<char>>, es: Seq<int>, hi: int, ss: int, base: int, target: int, ov: int)
    requires
        words_chain(ws, es, hi),
    ensures
        words_fold(ws, (Seq::empty(), Seq::empty(), ss), base, target, ov) matches Some(st) ==> pieces_inv(
            st,
            words_bound(ss, es),
            base,
        ),
    decreases ws.len(),
{
    if ws.len() > 0 {
        let w0 = ws.drop_last();
        let e0 = es.drop_last();
        assert(words_chain(w0, e0, hi)) by {
            assert forall|k: int| 0 <= k < w0.len() implies #[trigger] e0[k] <= hi && (if k == 0 {
                -1
            } else {
                e0[k - 1]
            }) + 1 + w0[k].len() <= e0[k] by {
                assert(e0[k] == es[k] && w0[k] == ws[k]);
                if k > 0 {
                    assert(e0[k - 1] == es[k - 1]);
                }
            }
            assert forall|k: int| 0 <= k < w0.len() implies all_ascii(#[trigger] w0[k]) by {
                assert(w0[k] == ws[k]);
            }
        }
        lemma_words_fold_inv(w0, e0, hi, ss, base, target, ov);
        let k = ws.len() - 1;
        assert(all_ascii(ws[k]));
        lemma_blen_ascii(ws[k]);
        assert(es[k] == es.last());
        if k > 0 {
            assert(e0.last() == es[k - 1]);
        }
        if let Some(st) = words_fold(w0, (Seq::empty(), Seq::empty(), ss), base, target, ov) {
            lemma_words_step_inv(st, ws.last(), base, target, ov, words_bound(ss, e0), words_bound(ss, es));
        }
    } else {
        assert(words_fold(ws, (Seq::empty(), Seq::empty(), ss), base, target, ov) == Some(
            (Seq::<(Seq<char>, int, int)>::empty(), Seq::<char>::empty(), ss),
        ));
    }
}

/// The pieces of a sentence cut between words end by the end of the
/// sentence: `base + sent_start + |s|`.
proof fn lemma_split_by_words_within(s: Seq<char>, ss: int, base: int, target: int, ov: int)
    requires
        all_ascii(s),
    ensures
        split_by_words_spec(s, ss, base, target, ov) matches Some(out) ==> forall|i: int|
            0 <= i < out.len() ==> #[trigger] out[i].2 <= base + ss + s.len(),
{
    lemma_words_chain(s);
    let ws = words(s);
    let es = word_ends(s);
    lemma_words_fold_inv(ws, es, s.len() as int, ss, base, target, ov);
    if let Some(st) = words_fold(ws, (Seq::empty(), Seq::empty(), ss), base, target, ov) {
        let b = words_bound(ss, es);
        assert(b <= ss + s.len()) by {
            if es.len() > 0 {
                assert(es[es.len() - 1] <= s.len());
            }
        }
        let (out, buf, rel) = st;
        if buf.len() > 0 {
            lemma_emit_inv(out, buf, base, rel, b);
        }
    }
}

// ---------------------------------------------------------------------------
// Long paragraphs
// ---------------------------------------------------------------------------

/// Each piece is the trimmed text between its start and its end.
pub open spec fn trimmed_pieces(t: Seq<char>, ps: Seq<(Seq<char>, int)>, ends: Seq<int>) -> bool {
    &&& ps.len() == ends.len()
    &&& forall|j: int| 0 <= j < ps.len() ==> 0 <= #[trigger] ps[j].1 <= ends[j] <= t.len() && ps[j].0 == trim(
        t.subrange(ps[j].1, ends[j]),
    )
}

proof fn lemma_trimmed_concat(t: Seq<char>, a: Seq<(Seq<char>, int)>, ea: Seq<int>, b: Seq<(Seq<char>, int)>, eb: Seq<int>)
    requires
        trimmed_pieces(t, a, ea),
        trimmed_pieces(t, b, eb),
    ensures
        trimmed_pieces(t, a + b, ea + eb),
{
    assert forall|j: int| 0 <= j < (a + b).len() implies 0 <= #[trigger] (a + b)[j].1 <= (ea + eb)[j] <= t.len() && (a
        + b)[j].0 == trim(t.subrange((a + b)[j].1, (ea + eb)[j])) by {
        if j < a.len() {
            assert((a + b)[j] == a[j] && (ea + eb)[j] == ea[j]);
        } else {
            assert((a + b)[j] == b[j - a.len()] && (ea + eb)[j] == eb[j - a.len()]);
        }
    }
}

proof fn lemma_sentences_from_trimmed(t: Seq<char>, start: int, pos: int, skipping: bool)
    requires
        0 <= start <= pos <= t.len(),
    ensures
        trimmed_pieces(t, sentences_from(t, start, pos, skipping), sentence_ends_from(t, start, pos, skipping)),
    decreases t.len() - pos, (if skipping {
        1int
    } else {
        0int
    }),
{
    if pos >= t.len() {
    } else if skipping {
        if t[pos] == ' ' {
            lemma_sentences_from_trimmed(t, pos + 1, pos + 1, true);
        } else {
            lemma_sentences_from_trimmed(t, start, pos, false);
        }
    } else if is_term_at(t, pos) {
        lemma_sentences_from_trimmed(t, pos + 1, pos + 1, true);
        lemma_trimmed_concat(t, sentence_piece(t, start, pos + 1), piece_end(t, start, pos + 1), sentences_from(t, pos + 1, pos + 1, true), sentence_ends_from(t, pos + 1, pos + 1, true));
    } else {
        lemma_sentences_from_trimmed(t, start, pos + 1, false);
    }
}

proof fn lemma_trim_ascii(t: Seq<char>, a: int, b: int)
    requires
        all_ascii(t),
        0 <= a <= b <= t.len(),
    ensures
        all_ascii(trim(t.subrange(a, b))),
{
    let x = t.subrange(a, b);
    lemma_trim_start_suffix(x);
    let q = trim_start(x);
    lemma_trim_end_prefix(q);
    let k = x.len() - q.len();
    let m = trim_end(q).len() as int;
    assert forall|i: int| 0 <= i < trim(x).len() implies is_ascii_c(#[trigger] trim(x)[i]) by {
        assert(trim(x)[i] == q[i]);
        assert(q[i] == x[i + k]);
        assert(x[i + k] == t[a + i + k]);
    }
}

proof fn lemma_long_step_inv(
    st: (Seq<(Seq<char>, int, int)>, Seq<char>, int),
    sent: (Seq<char>, int),
    end: int,
    base: int,
    target: int,
    ov: int,
    bound: int,
)
    requires
        pieces_inv(st, bound, base),
        all_ascii(sent.0),
        bound + 1 + sent.0.len() <= end,
        sent.1 + sent.0.len() <= end,
    ensures
        long_step(st, sent, base, target, ov) matches Some(st2) ==> pieces_inv(st2, end, base),
{
    let (s, ss) = sent;
    lemma_blen_ascii(s);
    lemma_flush_inv(st, s, base, target, ov, bound);
    if let Some((res1, buf1, rel1)) = flush_if_full(st, s, base, target, ov) {
        if blen(s) > target {
            let res2 = if buf1.len() > 0 {
                emit(res1, buf1, base, rel1)
            } else {
                Some(res1)
            };
            if buf1.len() > 0 {
                lemma_emit_inv(res1, buf1, base, rel1, bound);
            }
            if let Some(r2) = res2 {
                lemma_split_by_words_within(s, ss, base, target, ov);
                if let Some(wc) = split_by_words_spec(s, ss, base, target, ov) {
                    let res3 = r2 + wc;
                    assert forall|i: int| 0 <= i < res3.len() implies #[trigger] res3[i].2 <= base + end by {
                        if i < r2.len() {
                            assert(res3[i] == r2[i]);
                        } else {
                            assert(res3[i] == wc[i - r2.len()]);
                        }
                    }
                    if res3.len() > 0 {
                        lemma_overlap_suffix(res3.last().0, ov);
                        assert(res3.last().2 <= base + end);
                    } else {
                        assert(buf1.len() == 0);
                    }
                }
            }
        } else if buf1.len() > 0 {
            lemma_blen_push(buf1, ' ');
            lemma_blen_concat(buf1.push(' '), s);
        }
    }
}

/// The bound of a long-paragraph fold after the sentences with these ends.
pub open spec fn ends_bound(ends: Seq<int>) -> int {
    if ends.len() == 0 {
        -1
    } else {
        ends.last()
    }
}

proof fn lemma_long_fold_inv(
    ps: Seq<(Seq<char>, int)>,
    es: Seq<int>,
    hi: int,
    base: int,
    target: int,
    ov: int,
)
    requires
        chain_ok(ps, es, -1, 0, hi),
        forall|j: int| 0 <= j < ps.len() ==> all_ascii(#[trigger] ps[j].0),
    ensures
        long_fold(ps, base, target, ov) matches Some(st) ==> pieces_inv(st, ends_bound(es), base),
    decreases ps.len(),
{
    if ps.len() > 0 {
        let p0 = ps.drop_last();
        let e0 = es.drop_last();
        assert(chain_ok(p0, e0, -1, 0, hi)) by {
            assert forall|j: int| 0 <= j < p0.len() implies 0 <= #[trigger] p0[j].1 && p0[j].1 + p0[j].0.len() <= e0[j] && e0[j] <= hi by {
                assert(p0[j] == ps[j] && e0[j] == es[j]);
            }
            assert forall|j: int| 0 <= j < p0.len() implies (if j == 0 {
                -1
            } else {
                e0[j - 1]
            }) + 1 + p0[j].0.len() <= #[trigger] e0[j] by {
                assert(p0[j] == ps[j] && e0[j] == es[j]);
                assert(ps[j].0.len() + (if j == 0 { -1 } else { es[j - 1] }) + 1 <= es[j]);
                if j > 0 {
                    assert(e0[j - 1] == es[j - 1]);
                }
            }
        }
        assert forall|j: int| 0 <= j < p0.len() implies all_ascii(#[trigger] p0[j].0) by {
            assert(p0[j] == ps[j]);
        }
        lemma_long_fold_inv(p0, e0, hi, base, target, ov);
        let k = ps.len() - 1;
        assert(all_ascii(ps[k].0));
        assert(ps.last() == ps[k] && es.last() == es[k]);
        assert((if k == 0 { -1 } else { es[k - 1] }) + 1 + ps[k].0.len() <= es[k]);
        if k > 0 {
            assert(e0.last() == es[k - 1]);
        }
        if let Some(st) = long_fold(p0, base, target, ov) {
            lemma_long_step_inv(st, ps.last(), es.last(), base, target, ov, ends_bound(e0));
        }
    }
}

/// The pieces of a long paragraph end within it: by `base + |p|`.
pub proof fn lemma_long_paragraph_within(p: Seq<char>, base: int, target: int, ov: int)
    ensures
        long_paragraph_spec(p, base, target, ov) matches Some(out) ==> forall|i: int|
            0 <= i < out.len() ==> #[trigger] out[i].2 <= base + blen(p),
{
    if all_ascii(p) {
        lemma_blen_ascii(p);
        let ps = sentences(p);
        let es = sentence_ends_from(p, 0, 0, false);
        lemma_sentences_chain(p);
        lemma_sentences_from_trimmed(p, 0, 0, false);
        assert forall|j: int| 0 <= j < ps.len() implies all_ascii(#[trigger] ps[j].0) by {
            lemma_trim_ascii(p, ps[j].1, es[j]);
        }
        lemma_long_fold_inv(ps, es, p.len() as int, base, target, ov);
        if let Some(st) = long_fold(ps, base, target, ov) {
            let b = ends_bound(es);
            assert(b <= p.len()) by {
                if es.len() > 0 {
                    assert(es[es.len() - 1] <= p.len());
                }
            }
            let (out, buf, rel) = st;
            if buf.len() > 0 {
                lemma_emit_inv(out, buf, base, rel, b);
            }
        }
    }
}

// ---------------------------------------------------------------------------
// Chunks
// ---------------------------------------------------------------------------

/// Chunks ending by `f`, and a non-empty buffer ending by `f`.
pub open spec fn chunks_inv(st: ChunkModel, f: int) -> bool {
    &&& forall|i: int| 0 <= i < st.0.len() ==> #[trigger] st.0[i].2 <= f
    &&& st.1.len() > 0 ==> st.2 + blen(st.1) <= f
}

pub open spec fn all_end_by(cs: Seq<(Seq<char>, int, int, int)>, f: int) -> bool {
    forall|i: int| 0 <= i < cs.len() ==> #[trigger] cs[i].2 <= f
}

proof fn lemma_chunk_push_inv(chunks: Seq<(Seq<char>, int, int, int)>, text: Seq<char>, start: int, idx: int, f: int)
    requires
        all_end_by(chunks, f),
        start + blen(text) <= f,
    ensures
        chunk_push(chunks, text, start, idx) matches Some(c) ==> all_end_by(c, f),
{
    if let Some(c) = chunk_push(chunks, text, start, idx) {
        assert forall|i: int| 0 <= i < c.len() implies #[trigger] c[i].2 <= f by {
            if i < chunks.len() {
                assert(c[i] == chunks[i]);
            }
        }
    }
}

proof fn lemma_chunk_flush_inv(st: ChunkModel, p: Seq<char>, cc: int, ov: int, maxc: int, f: int)
    requires
        chunks_inv(st, f),
    ensures
        chunk_flush(st, p, cc, ov, maxc) matches Some(st1) ==> chunks_inv(st1, f) && (st1.1.len() > 0 ==> st.1.len()
            > 0),
{
    let (chunks, buf, bs, idx, done) = st;
    if blen(buf) + blen(p) + 1 > cc && buf.len() > 0 {
        lemma_chunk_push_inv(chunks, buf, bs, idx, f);
        lemma_overlap_suffix(buf, ov);
    }
}

proof fn lemma_push_pieces_inv(
    chunks: Seq<(Seq<char>, int, int, int)>,
    idx: int,
    subs: Seq<(Seq<char>, int, int)>,
    maxc: int,
    f: int,
)
    requires
        all_end_by(chunks, f),
        forall|i: int| 0 <= i < subs.len() ==> #[trigger] subs[i].2 <= f,
    ensures
        push_pieces(chunks, idx, subs, maxc) matches Some(r) ==> all_end_by(r.0, f),
    decreases subs.len(),
{
    if subs.len() > 0 && idx >= 0 {
        let c2 = chunks.push((subs[0].0, subs[0].1, subs[0].2, idx));
        assert(all_end_by(c2, f)) by {
            assert forall|i: int| 0 <= i < c2.len() implies #[trigger] c2[i].2 <= f by {
                if i < chunks.len() {
                    assert(c2[i] == chunks[i]);
                }
            }
        }
        let rest = subs.drop_first();
        assert forall|i: int| 0 <= i < rest.len() implies #[trigger] rest[i].2 <= f by {
            assert(rest[i] == subs[i + 1]);
        }
        lemma_push_pieces_inv(c2, idx + 1, rest, maxc, f);
    }
}

proof fn lemma_chunk_long_inv(st: ChunkModel, p: Seq<char>, ps: int, cc: int, ov: int, maxc: int, f: int)
    requires
        chunks_inv(st, f),
        f <= ps + blen(p),
    ensures
        chunk_long(st, p, ps, cc, ov, maxc) matches Some(st2) ==> chunks_inv(st2, ps + blen(p)),
{
    let f2 = ps + blen(p);
    let (chunks, buf, bs, idx, done) = st;
    if buf.len() > 0 {
        lemma_chunk_push_inv(chunks, buf, bs, idx, f);
    }
    if let Some(pre) = long_pre(st, ps, maxc) {
        assert(chunks_inv(pre, f));
        if !pre.4 {
            lemma_long_paragraph_within(p, ps, cc, ov);
            if let Some(subs) = long_paragraph_spec(p, ps, cc, ov) {
                assert(all_end_by(pre.0, f2)) by {
                    assert forall|i: int| 0 <= i < pre.0.len() implies #[trigger] pre.0[i].2 <= f2 by {
                        assert(pre.0[i].2 <= f);
                    }
                }
                lemma_push_pieces_inv(pre.0, pre.3, subs, maxc, f2);
                if let Some((c2, idx2, d2)) = push_pieces(pre.0, pre.3, subs, maxc) {
                    if !d2 && c2.len() > 0 {
                        lemma_overlap_suffix(c2.last().0, ov);
                        assert(c2.last().2 <= f2);
                    }
                }
            }
        }
    }
}

proof fn lemma_chunk_step_inv(st: ChunkModel, para: (Seq<char>, int), cc: int, ov: int, maxc: int, f: int)
    requires
        chunks_inv(st, f),
        f <= para.1,
        st.1.len() > 0 ==> f + 1 <= para.1,
    ensures
        chunk_step(st, para, cc, ov, maxc) matches Some(st2) ==> chunks_inv(st2, para.1 + blen(para.0)),
{
    let (p, ps) = para;
    let f2 = ps + blen(p);
    if !st.4 {
        lemma_chunk_flush_inv(st, p, cc, ov, maxc, f);
        if let Some(st1) = chunk_flush(st, p, cc, ov, maxc) {
            if !st1.4 {
                if blen(p) > cc {
                    lemma_chunk_long_inv(st1, p, ps, cc, ov, maxc, f);
                } else if st1.1.len() > 0 {
                    lemma_blen_push(st1.1, '\n');
                    lemma_blen_concat(st1.1.push('\n'), p);
                }
            }
        }
    }
}

/// The end of the last paragraph read, or -1 before any.
pub open spec fn frontier(paras: Seq<(Seq<char>, int)>) -> int {
    if paras.len() == 0 {
        -1
    } else {
        paras.last().1 + blen(paras.last().0)
    }
}

proof fn lemma_chunk_fold_inv(paras: Seq<(Seq<char>, int)>, hi: int, cc: int, ov: int, maxc: int)
    requires
        spans_within(paras, 0, hi),
    ensures
        chunk_fold(paras, cc, ov, maxc) matches Some(st) ==> chunks_inv(st, frontier(paras)),
    decreases paras.len(),
{
    if paras.len() > 0 {
        let p0 = paras.drop_last();
        assert(spans_within(p0, 0, hi)) by {
            assert forall|i: int| 0 <= i < p0.len() implies 0 <= #[trigger] p0[i].1 && p0[i].1 + blen(p0[i].0) <= hi by {
                assert(p0[i] == paras[i]);
            }
            assert forall|i: int| 0 < i < p0.len() implies p0[i - 1].1 + blen(p0[i - 1].0) + 2 <= #[trigger] p0[i].1 by {
                assert(p0[i] == paras[i] && p0[i - 1] == paras[i - 1]);
            }
        }
        lemma_chunk_fold_inv(p0, hi, cc, ov, maxc);
        let k = paras.len() - 1;
        assert(paras.last() == paras[k]);
        assert(0 <= paras[k].1);
        if k > 0 {
            assert(p0.last() == paras[k - 1]);
            assert(paras[k - 1].1 + blen(paras[k - 1].0) + 2 <= paras[k].1);
        }
        if let Some(st) = chunk_fold(p0, cc, ov, maxc) {
            lemma_chunk_step_inv(st, paras.last(), cc, ov, maxc, frontier(p0));
        }
    }
}

/// Every chunk of a text ends within the text: its end byte is at most the
/// text's byte length.
pub proof fn lemma_chunk_ends_within_text(t: Seq<char>, cfg: ChunkConfig)
    requires
        chunk_text_spec(t, cfg) is Some,
    ensures
        forall|i: int|
            0 <= i < chunk_text_spec(t, cfg).unwrap().len() ==> #[trigger] chunk_text_spec(t, cfg).unwrap()[i].2
                <= blen(t),
{
    if t.len() > 0 {
        let paras = paragraphs(t);
        lemma_paragraphs_within(t);
        lemma_chunk_fold_inv(paras, blen(t) as int, cfg.chunk_chars as int, cfg.overlap_chars as int, cfg.max_chunks as int);
        if let Some(st) = chunk_fold(paras, cfg.chunk_chars as int, cfg.overlap_chars as int, cfg.max_chunks as int) {
            let f = frontier(paras);
            assert(f <= blen(t)) by {
                if paras.len() > 0 {
                    assert(paras.last() == paras[paras.len() - 1]);
                }
            }
            let (chunks, buf, bs, idx, done) = st;
            if !(done || buf.len() == 0) {
                if blen(buf) < cfg.min_chunk_chars && chunks.len() > 0 {
                    if let Some(cs) = chunk_finish(t, st, cfg.min_chunk_chars as int) {
                        assert forall|i: int| 0 <= i < cs.len() implies #[trigger] cs[i].2 <= blen(t) by {
                            if i < chunks.len() - 1 {
                                assert(cs[i] == chunks[i]);
                            }
                        }
                    }
                } else {
                    assert(all_end_by(chunks, f));
                    lemma_chunk_push_inv(chunks, buf, bs, idx, f);
                }
            }
        }
    }
}

} // verus!
