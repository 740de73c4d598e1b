//! iMessage store reading: the `typedstream` decoder for `attributedBody`,
//! Apple timestamps, message body resolution and AppleScript escaping.
//!
//! `typedstream` layout (byte offsets from the start):
//!
//! ```text
//! 04 0b "streamtyped"   magic
//! 81 e8 03              system version 1000, as an extended-width integer
//! ...                   class chain: NSMutableAttributedString, NSString, ...
//! 84 01 2b              type descriptor of length 1, holding '+' (char string)
//! <len> <bytes>         the UTF-8 string itself
//! ```
//!
//! Integers are variable width: a byte below `0x81` is the value itself (as a
//! signed byte), `0x81` introduces a little-endian `i16`, and `0x82` a
//! little-endian `i32`.

use std::path::{Path, PathBuf};
use vstd::prelude::*;
use crate::paths::path_join;
use crate::text::{
    append_str, chars_eq, chars_of, contains, decimal, ends_with, ends_with_chars, push_decimal,
    replace_all, replace_chars, str_contains, str_eq, string_of,
};

verus! {

/// Apple's epoch (2001-01-01) offset from the Unix epoch, in seconds.
pub const APPLE_EPOCH_OFFSET: i64 = 978_307_200;

/// Above this magnitude a timestamp counts nanoseconds, not seconds.
pub const NANOSECOND_THRESHOLD: i64 = 1_000_000_000_000;

pub const CONNECTOR_ID: &'static str = "imessage";

// ---------------------------------------------------------------------------
// Errors
// ---------------------------------------------------------------------------

/// Why a `typedstream` blob could not be decoded.
#[derive(Debug, Clone, Copy, PartialEq, Eq, Structural)]
pub enum TypedStreamError {
    /// The blob does not start with the `streamtyped` magic.
    MissingMagic,
    /// No `84 01 2b` type descriptor introduces a text payload.
    NoPayload,
    /// The blob ended while reading a one-byte integer.
    EndInInteger,
    /// The blob ended inside a 16-bit integer.
    EndInInt16,
    /// The blob ended inside a 32-bit integer.
    EndInInt32,
    /// The declared text length is negative.
    NegativeLength,
    /// The blob holds fewer bytes than the declared text length.
    ShortPayload(usize),
}

/// The text of each error, as the decoder reports it.
pub open spec fn error_message(e: TypedStreamError) -> Seq<char> {
    match e {
        TypedStreamError::MissingMagic => "not a typedstream archive: missing the streamtyped magic"@,
        TypedStreamError::NoPayload => "typedstream holds no char-string payload"@,
        TypedStreamError::EndInInteger => "typedstream ended while reading an integer"@,
        TypedStreamError::EndInInt16 => "typedstream ended inside a 16-bit integer"@,
        TypedStreamError::EndInInt32 => "typedstream ended inside a 32-bit integer"@,
        TypedStreamError::NegativeLength => "negative string length in typedstream"@,
        TypedStreamError::ShortPayload(n) => "typedstream declares "@ + decimal(n as nat)
            + " bytes of text but holds fewer"@,
    }
}

impl TypedStreamError {
    /// Human-readable description of the error.
    pub fn message(&self) -> (r: String)
        ensures
            r@ == error_message(*self),
    {
        match self {
            TypedStreamError::MissingMagic => String::from_str(
                "not a typedstream archive: missing the streamtyped magic",
            ),
            TypedStreamError::NoPayload => String::from_str(
                "typedstream holds no char-string payload",
            ),
            TypedStreamError::EndInInteger => String::from_str(
                "typedstream ended while reading an integer",
            ),
            TypedStreamError::EndInInt16 => String::from_str(
                "typedstream ended inside a 16-bit integer",
            ),
            TypedStreamError::EndInInt32 => String::from_str(
                "typedstream ended inside a 32-bit integer",
            ),
            TypedStreamError::NegativeLength => String::from_str(
                "negative string length in typedstream",
            ),
            TypedStreamError::ShortPayload(n) => declared_length_message(*n),
        }
    }
}

/// The message for a payload shorter than its declared length `len`.
fn declared_length_message(len: usize) -> (s: String)
    ensures
        s@ == "typedstream declares "@ + decimal(len as nat) + " bytes of text but holds fewer"@,
{
    let mut v = chars_of("typedstream declares ");
    push_decimal(&mut v, len as u64);
    append_str(&mut v, " bytes of text but holds fewer");
    string_of(&v)
}

// ---------------------------------------------------------------------------
// Byte-level model
// ---------------------------------------------------------------------------

/// `\x04\x0bstreamtyped`.
pub open spec fn streamtyped_magic() -> Seq<u8> {
    seq![0x04u8, 0x0bu8, 0x73u8, 0x74u8, 0x72u8, 0x65u8, 0x61u8, 0x6du8, 0x74u8, 0x79u8, 0x70u8, 0x65u8, 0x64u8]
}

/// The type descriptor of the text payload: length 1, holding `+`.
pub open spec fn text_marker() -> Seq<u8> {
    seq![0x84u8, 0x01u8, 0x2bu8]
}

pub open spec fn bytes_at(s: Seq<u8>, p: Seq<u8>, i: int) -> bool {
    0 <= i && i + p.len() <= s.len() && s.subrange(i, i + p.len()) == p
}

/// `i` is the first position of `p` in `s`.
pub open spec fn first_bytes_at(s: Seq<u8>, p: Seq<u8>, i: int) -> bool {
    bytes_at(s, p, i) && forall|j: int| 0 <= j < i ==> !bytes_at(s, p, j)
}

/// Little-endian 16-bit two's complement value of `b0 b1`.
pub open spec fn le_i16(b0: u8, b1: u8) -> int {
    let u = b0 as int + 256 * (b1 as int);
    if u >= 0x8000 {
        u - 0x10000
    } else {
        u
    }
}

/// Little-endian 32-bit two's complement value of `b0 b1 b2 b3`.
pub open spec fn le_i32(b0: u8, b1: u8, b2: u8, b3: u8) -> int {
    let u = b0 as int + 0x100 * (b1 as int) + 0x10000 * (b2 as int) + 0x1000000 * (b3 as int);
    if u >= 0x8000_0000 {
        u - 0x1_0000_0000
    } else {
        u
    }
}

/// The byte read as a signed byte.
pub open spec fn as_i8(b: u8) -> int {
    if b >= 0x80 {
        b as int - 0x100
    } else {
        b as int
    }
}

/// The variable-width integer at `pos`: its value and the position after it,
/// or the error that reading it meets.
pub open spec fn int_at(blob: Seq<u8>, pos: int) -> Result<(int, int), TypedStreamError> {
    if pos < 0 || pos >= blob.len() {
        Err(TypedStreamError::EndInInteger)
    } else if blob[pos] == 0x81 {
        if pos + 3 <= blob.len() {
            Ok((le_i16(blob[pos + 1], blob[pos + 2]), pos + 3))
        } else {
            Err(TypedStreamError::EndInInt16)
        }
    } else if blob[pos] == 0x82 {
        if pos + 5 <= blob.len() {
            Ok((le_i32(blob[pos + 1], blob[pos + 2], blob[pos + 3], blob[pos + 4]), pos + 5))
        } else {
            Err(TypedStreamError::EndInInt32)
        }
    } else {
        Ok((as_i8(blob[pos]), pos + 1))
    }
}

/// Text decoded from bytes that may not be valid UTF-8: each invalid sequence
/// becomes U+FFFD, as `String::from_utf8_lossy` does.
pub uninterp spec fn utf8_lossy(bytes: Seq<u8>) -> Seq<char>;

/// `String::from_utf8_lossy`: valid UTF-8 decodes exactly; each invalid
/// sequence becomes U+FFFD (the replacement itself is only named here).
#[verifier::external_body]
fn decode_utf8_lossy(bytes: &[u8]) -> (s: String)
    ensures
        s@ == utf8_lossy(bytes@),
        vstd::utf8::valid_utf8(bytes@) ==> s@ == vstd::utf8::decode_utf8(bytes@),
{
    String::from_utf8_lossy(bytes).into_owned()
}

/// The text of payload bytes: their UTF-8 decoding when they are valid
/// UTF-8, else the lossy decoding of [`utf8_lossy`].
pub open spec fn typed_text(bytes: Seq<u8>) -> Seq<char> {
    if vstd::utf8::valid_utf8(bytes) {
        vstd::utf8::decode_utf8(bytes)
    } else {
        utf8_lossy(bytes)
    }
}

/// What `decode_text` returns for `blob`.
pub open spec fn decode_text_spec(blob: Seq<u8>) -> Result<Seq<char>, TypedStreamError> {
    if !(streamtyped_magic().len() <= blob.len() && blob.take(streamtyped_magic().len() as int) == streamtyped_magic()) {
        Err(TypedStreamError::MissingMagic)
    } else if !(exists|m: int| bytes_at(blob, text_marker(), m)) {
        Err(TypedStreamError::NoPayload)
    } else {
        let m = choose|m: int| first_bytes_at(blob, text_marker(), m);
        match int_at(blob, m + 3) {
            Err(e) => Err(e),
            Ok((len, pos)) => if len < 0 {
                Err(TypedStreamError::NegativeLength)
            } else if pos + len > blob.len() {
                Err(TypedStreamError::ShortPayload(len as usize))
            } else {
                Ok(typed_text(blob.subrange(pos, pos + len)))
            },
        }
    }
}

// ---------------------------------------------------------------------------
// Decoder
// ---------------------------------------------------------------------------

/// Reads the variable-width integer at `*pos`, advancing it past the value.
pub fn read_int(blob: &[u8], pos: &mut usize) -> (r: Result<i64, TypedStreamError>)
    ensures
        match int_at(blob@, *old(pos) as int) {
            Ok((v, next)) => r == Ok::<i64, TypedStreamError>(v as i64) && *final(pos) == next
                && v == r->Ok_0,
            Err(e) => r == Err::<i64, TypedStreamError>(e),
        },
{
    let p = *pos;
    if p >= blob.len() {
        return Err(TypedStreamError::EndInInteger);
    }
    let first = blob[p];
    *pos = p + 1;
    if first == 0x81 {
        if blob.len() - (p + 1) < 2 {
            return Err(TypedStreamError::EndInInt16);
        }
        let b0 = blob[p + 1];
        let b1 = blob[p + 2];
        *pos = p + 3;
        let u: i64 = b0 as i64 + 256 * (b1 as i64);
        if u >= 0x8000 {
            Ok(u - 0x10000)
        } else {
            Ok(u)
        }
    } else if first == 0x82 {
        if blob.len() - (p + 1) < 4 {
            return Err(TypedStreamError::EndInInt32);
        }
        let b0 = blob[p + 1];
        let b1 = blob[p + 2];
        let b2 = blob[p + 3];
        let b3 = blob[p + 4];
        *pos = p + 5;
        let u: i64 = b0 as i64 + 0x100 * (b1 as i64) + 0x10000 * (b2 as i64) + 0x1000000 * (
        b3 as i64);
        if u >= 0x8000_0000 {
            Ok(u - 0x1_0000_0000)
        } else {
            Ok(u)
        }
    } else if first >= 0x80 {
        Ok(first as i64 - 0x100)
    } else {
        Ok(first as i64)
    }
}

/// The first position of `p` in `s`.
fn find_bytes(s: &[u8], p: &[u8]) -> (r: Option<usize>)
    requires
        p@.len() > 0,
    ensures
        match r {
            Some(i) => first_bytes_at(s@, p@, i as int),
            None => forall|j: int| !bytes_at(s@, p@, j),
        },
{
    if p.len() > s.len() {
        return None;
    }
    let last = s.len() - p.len();
    let mut i: usize = 0;
    loop
        invariant
            i <= last,
            last == s@.len() - p@.len(),
            forall|j: int| 0 <= j < i ==> !bytes_at(s@, p@, j),
        decreases last - i,
    {
        let mut k: usize = 0;
        let mut ok = true;
        while k < p.len()
            invariant
                k <= p.len(),
                i + p.len() <= s.len(),
                ok ==> forall|m: int| 0 <= m < k ==> s@[i + m] == p@[m],
                !ok ==> !bytes_at(s@, p@, i as int),
            decreases p.len() - k,
        {
            if s[i + k] != p[k] {
                assert(s@.subrange(i as int, i + p@.len())[k as int] != p@[k as int]);
                ok = false;
            }
            k = k + 1;
        }
        if ok {
            assert(s@.subrange(i as int, i + p@.len()) == p@);
            return Some(i);
        }
        if i == last {
            return None;
        }
        i = i + 1;
    }
}

/// Extract the plain text of an `NSAttributedString` from a `typedstream` blob.
///
/// Returns `Ok(Some(text))` on success, including `Ok(Some(String::new()))` for
/// an attributed string that is genuinely empty (an attachment-only message).
/// Returns `Err` when the blob is not a `typedstream` archive or is truncated.
/// Text that is not valid UTF-8 is decoded lossily.
pub fn decode_text(blob: &[u8]) -> (r: Result<Option<String>, TypedStreamError>)
    ensures
        match decode_text_spec(blob@) {
            Ok(t) => r matches Ok(Some(s)) && s@ == t,
            Err(e) => r == Err::<Option<String>, TypedStreamError>(e),
        },
{
    let magic: [u8; 13] = [
        0x04u8,
        0x0bu8,
        0x73u8,
        0x74u8,
        0x72u8,
        0x65u8,
        0x61u8,
        0x6du8,
        0x74u8,
        0x79u8,
        0x70u8,
        0x65u8,
        0x64u8,
    ];
    assert(magic@ == streamtyped_magic());
    if blob.len() < 13 {
        return Err(TypedStreamError::MissingMagic);
    }
    let mut k: usize = 0;
    while k < 13
        invariant
            k <= 13,
            blob@.len() >= 13,
            magic@ == streamtyped_magic(),
            forall|m: int| 0 <= m < k ==> blob@[m] == magic@[m],
        decreases 13 - k,
    {
        if blob[k] != magic[k] {
            assert(blob@.take(13)[k as int] != streamtyped_magic()[k as int]);
            return Err(TypedStreamError::MissingMagic);
        }
        k = k + 1;
    }
    assert(blob@.take(13) == streamtyped_magic());
    let marker: [u8; 3] = [0x84u8, 0x01u8, 0x2bu8];
    assert(marker@ == text_marker());
    let m = match find_bytes(blob, &marker) {
        Some(m) => m,
        None => {
            return Err(TypedStreamError::NoPayload);
        },
    };
    proof {
        let c = choose|c: int| first_bytes_at(blob@, text_marker(), c);
        assert(first_bytes_at(blob@, text_marker(), m as int));
        if c < m {
        } else if c > m {
        }
        assert(c == m);
    }
    let mut pos: usize = m + 3;
    let len = match read_int(blob, &mut pos) {
        Ok(v) => v,
        Err(e) => {
            return Err(e);
        },
    };
    if len < 0 {
        return Err(TypedStreamError::NegativeLength);
    }
    assert(len <= 0x7fff_ffff);
    let ulen = len as usize;
    if ulen > blob.len() - pos {
        return Err(TypedStreamError::ShortPayload(ulen));
    }
    let bytes = vstd::slice::slice_subrange(blob, pos, pos + ulen);
    let text = decode_utf8_lossy(bytes);
    Ok(Some(text))
}

// ---------------------------------------------------------------------------
// Rows
// ---------------------------------------------------------------------------

/// Apple timestamp (seconds or nanoseconds since 2001) as Unix seconds.
pub open spec fn apple_time_spec(raw: int) -> int {
    if raw == 0 {
        0
    } else if raw > NANOSECOND_THRESHOLD || raw < -NANOSECOND_THRESHOLD {
        // Rust's integer division truncates toward zero.
        (if raw >= 0 {
            raw / 1_000_000_000
        } else {
            -((-raw) / 1_000_000_000)
        }) + APPLE_EPOCH_OFFSET
    } else {
        raw + APPLE_EPOCH_OFFSET
    }
}

/// Convert an Apple timestamp to Unix seconds.
///
/// Messages has used two encodings in the same column: seconds since 2001 in
/// older databases, and nanoseconds since 2001 since macOS 10.13. The
/// magnitude decides. Zero (never delivered, never read) stays zero.
pub fn apple_time_to_unix(raw: i64) -> (r: i64)
    requires
        raw != i64::MIN,
    ensures
        r == apple_time_spec(raw as int),
{
    if raw == 0 {
        return 0;
    }
    let abs = if raw < 0 {
        -raw
    } else {
        raw
    };
    if abs > NANOSECOND_THRESHOLD {
        let q = abs / 1_000_000_000;
        let t = if raw < 0 {
            -q
        } else {
            q
        };
        t + APPLE_EPOCH_OFFSET
    } else {
        raw + APPLE_EPOCH_OFFSET
    }
}

/// What `resolve_body` returns: the `text` column when it has content,
/// otherwise the decoded `attributedBody`, otherwise `text` as it was.
pub open spec fn resolve_body_spec(text: Option<Seq<char>>, blob: Option<Seq<u8>>) -> Option<
    Seq<char>,
> {
    match text {
        Some(t) if t.len() > 0 => Some(t),
        _ => match blob {
            Some(b) => match decode_text_spec(b) {
                Ok(d) => Some(d),
                Err(_) => text,
            },
            None => text,
        },
    }
}

/// Resolve the body of a message row, preferring `text` and falling back to
/// decoding `attributedBody`. An undecodable blob does not lose the row: the
/// `text` column, if any, is kept.
pub fn resolve_body(text: Option<&str>, attributed_body: Option<&[u8]>) -> (r: Option<String>)
    ensures
        r.is_some() == resolve_body_spec(
            match text {
                Some(t) => Some(t@),
                None => None,
            },
            match attributed_body {
                Some(b) => Some(b@),
                None => None,
            },
        ).is_some(),
        r matches Some(s) ==> Some(s@) == resolve_body_spec(
            match text {
                Some(t) => Some(t@),
                None => None,
            },
            match attributed_body {
                Some(b) => Some(b@),
                None => None,
            },
        ),
{
    if let Some(t) = text {
        if !t.is_empty() {
            return Some(t.to_owned());
        }
    }
    match attributed_body {
        Some(blob) => match decode_text(blob) {
            Ok(decoded) => decoded,
            Err(_) => match text {
                Some(t) => Some(t.to_owned()),
                None => None,
            },
        },
        None => match text {
            Some(t) => Some(t.to_owned()),
            None => None,
        },
    }
}

// ---------------------------------------------------------------------------
// AppleScript
// ---------------------------------------------------------------------------

/// `s` with `\` doubled and `"` escaped, in that order.
pub open spec fn applescript_escaped(s: Seq<char>) -> Seq<char> {
    replace_all(replace_all(s, seq!['\\'], seq!['\\', '\\']), seq!['"'], seq!['\\', '"'])
}

/// Escapes a string so it can be embedded in a double-quoted AppleScript
/// string literal: only `\` and `"` are rewritten; newlines, tabs and
/// non-ASCII text pass through unchanged.
pub fn escape_applescript_string(s: &str) -> (r: String)
    ensures
        r@ == applescript_escaped(s@),
{
    let v = chars_of(s);
    let back: Vec<char> = vec!['\\'];
    let back2: Vec<char> = vec!['\\', '\\'];
    let quote: Vec<char> = vec!['"'];
    let quote_esc: Vec<char> = vec!['\\', '"'];
    assert(back@ == seq!['\\']);
    assert(back2@ == seq!['\\', '\\']);
    assert(quote@ == seq!['"']);
    assert(quote_esc@ == seq!['\\', '"']);
    let a = replace_chars(&v, &back, &back2);
    let b = replace_chars(&a, &quote, &quote_esc);
    string_of(&b)
}


/// `s` with every `c` replaced by `r`.
pub open spec fn subst(s: Seq<char>, c: char, r: Seq<char>) -> Seq<char>
    decreases s.len(),
{
    if s.len() == 0 {
        Seq::empty()
    } else {
        (if s[0] == c {
            r
        } else {
            seq![s[0]]
        }) + subst(s.drop_first(), c, r)
    }
}

proof fn lemma_replace_one_char(s: Seq<char>, c: char, r: Seq<char>)
    ensures
        replace_all(s, seq![c], r) == subst(s, c, r),
    decreases s.len(),
{
    if s.len() > 0 {
        lemma_replace_one_char(s.drop_first(), c, r);
        assert(s.skip(1) == s.drop_first());
        if s[0] == c {
            assert(s.take(1) == seq![c]);
        } else {
            assert(s.take(1)[0] != seq![c][0]);
        }
    }
}

proof fn lemma_subst_concat(a: Seq<char>, b: Seq<char>, c: char, r: Seq<char>)
    ensures
        subst(a + b, c, r) == subst(a, c, r) + subst(b, c, r),
    decreases a.len(),
{
    if a.len() == 0 {
        assert(a + b == b);
    } else {
        assert((a + b).drop_first() == a.drop_first() + b);
        assert((a + b)[0] == a[0]);
        lemma_subst_concat(a.drop_first(), b, c, r);
    }
}

/// How AppleScript reads the inside of a double-quoted string literal: a
/// backslash takes the next character as it is, and an unescaped `"` ends the
/// literal early (`None`, as does a trailing lone backslash).
pub open spec fn literal_read(t: Seq<char>) -> Option<Seq<char>>
    decreases t.len(),
{
    if t.len() == 0 {
        Some(Seq::empty())
    } else if t[0] == '\\' {
        if t.len() >= 2 {
            match literal_read(t.skip(2)) {
                Some(rest) => Some(seq![t[1]] + rest),
                None => None,
            }
        } else {
            None
        }
    } else if t[0] == '"' {
        None
    } else {
        match literal_read(t.drop_first()) {
            Some(rest) => Some(seq![t[0]] + rest),
            None => None,
        }
    }
}

/// An escaped string read back inside a double-quoted AppleScript literal is
/// the unescaped string, whole: no character of it ends the literal, so no
/// recipient or body can become script.
pub proof fn lemma_escape_reads_back(s: Seq<char>)
    ensures
        literal_read(applescript_escaped(s)) == Some(s),
    decreases s.len(),
{
    let bs = seq!['\\', '\\'];
    let bq = seq!['\\', '"'];
    lemma_replace_one_char(s, '\\', bs);
    lemma_replace_one_char(subst(s, '\\', bs), '"', bq);
    if s.len() > 0 {
        let x = s[0];
        let rest = s.drop_first();
        lemma_escape_reads_back(rest);
        lemma_replace_one_char(rest, '\\', bs);
        lemma_replace_one_char(subst(rest, '\\', bs), '"', bq);
        let head: Seq<char> = if x == '\\' {
            bs
        } else {
            seq![x]
        };
        assert(subst(s, '\\', bs) == head + subst(rest, '\\', bs));
        lemma_subst_concat(head, subst(rest, '\\', bs), '"', bq);
        let e_rest = subst(subst(rest, '\\', bs), '"', bq);
        let e_head = subst(head, '"', bq);
        assert(applescript_escaped(s) == e_head + e_rest);
        if x == '\\' {
            assert(bs.drop_first() == seq!['\\']);
            assert(seq!['\\'].drop_first() == Seq::<char>::empty());
            assert(subst(Seq::<char>::empty(), '"', bq) == Seq::<char>::empty());
            assert(subst(seq!['\\'], '"', bq) == seq!['\\'] + Seq::<char>::empty());
            assert(subst(bs, '"', bq) == seq!['\\'] + subst(seq!['\\'], '"', bq));
            assert(e_head == bs);
            let t = e_head + e_rest;
            assert(t.skip(2) == e_rest);
            assert(t[1] == '\\');
            assert(seq![t[1]] + rest == s);
        } else if x == '"' {
            assert(seq![x].drop_first() == Seq::<char>::empty());
            assert(subst(Seq::<char>::empty(), '"', bq) == Seq::<char>::empty());
            assert(subst(seq![x], '"', bq) == bq + Seq::<char>::empty());
            assert(e_head == bq);
            let t = e_head + e_rest;
            assert(t.skip(2) == e_rest);
            assert(t[1] == '"');
            assert(seq![t[1]] + rest == s);
        } else {
            assert(seq![x].drop_first() == Seq::<char>::empty());
            assert(subst(Seq::<char>::empty(), '"', bq) == Seq::<char>::empty());
            assert(seq![x][0] == x);
            assert(subst(seq![x], '"', bq) == seq![x] + Seq::<char>::empty());
            assert(e_head == seq![x]);
            let t = e_head + e_rest;
            assert(t.drop_first() == e_rest);
            assert(seq![t[0]] + rest == s);
        }
    } else {
        assert(subst(s, '\\', bs).len() == 0);
    }
}

/// Unescaping read left to right: a backslash and the character after it
/// stand for that character; any other character stands for itself.
pub open spec fn unescape(t: Seq<char>) -> Seq<char>
    decreases t.len(),
{
    if t.len() == 0 {
        Seq::empty()
    } else if t[0] == '\\' && t.len() >= 2 {
        seq![t[1]] + unescape(t.skip(2))
    } else {
        seq![t[0]] + unescape(t.drop_first())
    }
}

/// The number of backslashes that immediately precede index `i` of `t`.
pub open spec fn backslashes_before(t: Seq<char>, i: int) -> nat
    decreases i,
{
    if 0 < i <= t.len() && t[i - 1] == '\\' {
        1 + backslashes_before(t, i - 1)
    } else {
        0
    }
}

proof fn lemma_read_is_unescape(t: Seq<char>)
    requires
        literal_read(t) is Some,
    ensures
        unescape(t) == literal_read(t).unwrap(),
    decreases t.len(),
{
    if t.len() > 0 {
        if t[0] == '\\' {
            lemma_read_is_unescape(t.skip(2));
        } else {
            lemma_read_is_unescape(t.drop_first());
        }
    }
}

proof fn lemma_backslashes_concat(a: Seq<char>, b: Seq<char>, i: int)
    requires
        0 <= i <= b.len(),
    ensures
        backslashes_before(a + b, a.len() + i) == if backslashes_before(b, i) == i {
            i + backslashes_before(a, a.len() as int)
        } else {
            backslashes_before(b, i) as int
        },
    decreases i,
{
    if i > 0 {
        assert((a + b)[a.len() + i - 1] == b[i - 1]);
        lemma_backslashes_concat(a, b, i - 1);
    } else {
        lemma_backslashes_prefix(a, b, a.len() as int);
    }
}

proof fn lemma_backslashes_prefix(a: Seq<char>, b: Seq<char>, i: int)
    requires
        0 <= i <= a.len(),
    ensures
        backslashes_before(a + b, i) == backslashes_before(a, i),
    decreases i,
{
    if i > 0 {
        assert((a + b)[i - 1] == a[i - 1]);
        lemma_backslashes_prefix(a, b, i - 1);
    }
}

proof fn lemma_read_quotes_escaped(t: Seq<char>)
    requires
        literal_read(t) is Some,
    ensures
        forall|i: int| 0 <= i < t.len() && #[trigger] t[i] == '"' ==> backslashes_before(t, i) % 2 == 1,
    decreases t.len(),
{
    if t.len() > 0 {
        let k: int = if t[0] == '\\' {
            2
        } else {
            1
        };
        let head = t.take(k);
        let rest = t.skip(k);
        assert(t == head + rest);
        lemma_read_quotes_escaped(rest);
        let hb = backslashes_before(head, k);
        if k == 1 {
            assert(head[0] != '\\');
            assert(hb == 0);
        } else {
            assert(head[0] == '\\');
            if head[1] == '\\' {
                assert(backslashes_before(head, 0) == 0);
                assert(backslashes_before(head, 1) == 1);
                assert(hb == 2);
            } else {
                assert(hb == 0);
            }
        }
        assert forall|i: int| 0 <= i < t.len() && #[trigger] t[i] == '"' implies backslashes_before(t, i) % 2 == 1 by {
            if i < k {
                if i == 0 {
                    assert(t[0] != '"');
                } else {
                    assert(t[0] == '\\');
                    assert(backslashes_before(t, 0) == 0);
                    assert(backslashes_before(t, 1) == 1);
                }
            } else {
                let j = i - k;
                assert(rest[j] == t[i]);
                lemma_backslashes_concat(head, rest, j);
                assert(head.len() + j == i);
            }
        }
    }
}

/// Escaping can be undone: unescaping the escaped text, left to right,
/// gives the string back; and every double quote in the escaped text
/// follows an odd run of backslashes, so none can end the AppleScript
/// string literal it stands in.
pub proof fn lemma_escape_unescapes(s: Seq<char>)
    ensures
        unescape(applescript_escaped(s)) == s,
        forall|i: int|
            0 <= i < applescript_escaped(s).len() && #[trigger] applescript_escaped(s)[i] == '"'
                ==> backslashes_before(applescript_escaped(s), i) % 2 == 1,
{
    lemma_escape_reads_back(s);
    lemma_read_is_unescape(applescript_escaped(s));
    lemma_read_quotes_escaped(applescript_escaped(s));
}

// ---------------------------------------------------------------------------
// Sending
// ---------------------------------------------------------------------------

/// What to send: text, or a file (its path when that is valid UTF-8) with an
/// optional caption.
#[derive(Debug, Clone)]
pub enum OutgoingContent {
    Text(String),
    File { path: Option<String>, caption: Option<String> },
}

/// The script that sends `payload` (an escaped literal, or a `POSIX file`
/// expression) to the buddy `to` over iMessage.
pub open spec fn send_block(to: Seq<char>, payload: Seq<char>) -> Seq<char> {
    "tell application \"Messages\"\n    set targetService to 1st service whose service type = iMessage\n    set targetBuddy to buddy \""@
        + applescript_escaped(to) + "\" of targetService\n    send "@ + payload + " to targetBuddy\nend tell"@
}

pub open spec fn quoted(s: Seq<char>) -> Seq<char> {
    "\""@ + applescript_escaped(s) + "\""@
}

/// The AppleScript for a send, or the error for a file path that is not UTF-8:
/// a text is sent as a literal; a file as a `POSIX file`, followed after
/// half a second by its caption when that is not blank.
pub open spec fn applescript_spec(to: Seq<char>, content: OutgoingContent) -> Result<Seq<char>, Seq<char>> {
    match content {
        OutgoingContent::Text(body) => Ok(send_block(to, quoted(body@))),
        OutgoingContent::File { path, caption } => match path {
            None => Err("attachment path is not valid UTF-8"@),
            Some(p) => {
                let file = send_block(to, "(POSIX file "@ + quoted(p@) + ")"@);
                match caption {
                    Some(c) => if crate::text::trim(c@).len() > 0 {
                        Ok(file + "\ndelay 0.5\n"@ + send_block(to, quoted(c@)))
                    } else {
                        Ok(file)
                    },
                    None => Ok(file),
                }
            },
        },
    }
}

fn push_send_block(v: &mut Vec<char>, to: &str, payload: &Vec<char>)
    ensures
        final(v)@ == old(v)@ + send_block(to@, payload@),
{
    append_str(v, "tell application \"Messages\"\n    set targetService to 1st service whose service type = iMessage\n    set targetBuddy to buddy \"");
    let e = escape_applescript_string(to);
    append_str(v, e.as_str());
    append_str(v, "\" of targetService\n    send ");
    crate::text::append_chars(v, payload);
    append_str(v, " to targetBuddy\nend tell");
}

fn quoted_exec(s: &str) -> (r: Vec<char>)
    ensures
        r@ == quoted(s@),
{
    let mut v = chars_of("\"");
    let e = escape_applescript_string(s);
    append_str(&mut v, e.as_str());
    append_str(&mut v, "\"");
    v
}

/// Builds the AppleScript that sends `content` to `to` (see
/// [`applescript_spec`]).
pub fn build_applescript(to: &str, content: &OutgoingContent) -> (r: Result<String, String>)
    ensures
        match applescript_spec(to@, *content) {
            Ok(s) => r matches Ok(x) && x@ == s,
            Err(e) => r matches Err(x) && x@ == e,
        },
{
    match content {
        OutgoingContent::Text(body) => {
            let mut v: Vec<char> = Vec::new();
            push_send_block(&mut v, to, &quoted_exec(body.as_str()));
            assert(v@ == send_block(to@, quoted(body@)));
            Ok(string_of(&v))
        },
        OutgoingContent::File { path, caption } => {
            let p = match path {
                Some(p) => p,
                None => {
                    return Err(String::from_str("attachment path is not valid UTF-8"));
                },
            };
            let mut payload = chars_of("(POSIX file ");
            crate::text::append_chars(&mut payload, &quoted_exec(p.as_str()));
            append_str(&mut payload, ")");
            let mut v: Vec<char> = Vec::new();
            push_send_block(&mut v, to, &payload);
            assert(v@ == send_block(to@, "(POSIX file "@ + quoted(p@) + ")"@));
            if let Some(c) = caption {
                let t = crate::text::trim_str(c.as_str());
                if t.len() > 0 {
                    append_str(&mut v, "\ndelay 0.5\n");
                    push_send_block(&mut v, to, &quoted_exec(c.as_str()));
                }
            }
            Ok(string_of(&v))
        },
    }
}

/// The earliest Apple timestamp (nanoseconds since 2001) of a message sent
/// at Unix time `now_unix`, with two seconds of slack.
pub fn apple_cutoff(now_unix: i64) -> (r: i64)
    requires
        i64::MIN <= (now_unix - APPLE_EPOCH_OFFSET - 2) * 1_000_000_000 <= i64::MAX,
    ensures
        r == (now_unix - APPLE_EPOCH_OFFSET - 2) * 1_000_000_000,
{
    (now_unix - APPLE_EPOCH_OFFSET - 2) * 1_000_000_000
}

// ---------------------------------------------------------------------------
// The store
// ---------------------------------------------------------------------------

/// Why the store could not be read (paths as displayed).
#[derive(Debug, Clone)]
pub enum StoreError {
    Missing(String),
    /// macOS denied the read: the file is there, the bytes are refused.
    AccessDenied(String),
    Open { path: String, source: String },
}

/// The text of each store error.
pub open spec fn store_error_message(e: StoreError) -> Seq<char> {
    match e {
        StoreError::Missing(p) => "the Messages database does not exist at "@ + p@,
        StoreError::AccessDenied(p) => "macOS denied access to the Messages database at "@ + p@
            + ".\nGrant Full Disk Access to the binary running void:\nSystem Settings > Privacy & Security > Full Disk Access.\nNote that the file's size is readable without the grant, so an\nexistence check is not enough to tell the two cases apart."@,
        StoreError::Open { path, source } => "could not open the Messages database at "@ + path@ + ": "@
            + source@,
    }
}

impl StoreError {
    /// Human-readable description of the error.
    pub fn message(&self) -> (r: String)
        ensures
            r@ == store_error_message(*self),
    {
        match self {
            StoreError::Missing(p) => {
                let mut v = chars_of("the Messages database does not exist at ");
                append_str(&mut v, p.as_str());
                string_of(&v)
            },
            StoreError::AccessDenied(p) => {
                let mut v = chars_of("macOS denied access to the Messages database at ");
                append_str(&mut v, p.as_str());
                append_str(
                    &mut v,
                    ".\nGrant Full Disk Access to the binary running void:\nSystem Settings > Privacy & Security > Full Disk Access.\nNote that the file's size is readable without the grant, so an\nexistence check is not enough to tell the two cases apart.",
                );
                string_of(&v)
            },
            StoreError::Open { path, source } => {
                let mut v = chars_of("could not open the Messages database at ");
                append_str(&mut v, path.as_str());
                append_str(&mut v, ": ");
                append_str(&mut v, source.as_str());
                string_of(&v)
            },
        }
    }
}

/// Whether a SQLite failure is macOS refusing the read: an authorization or
/// cannot-open code, or a message that says "authorization denied".
pub fn is_access_denied(code_denies: bool, message: Option<&str>) -> (r: bool)
    ensures
        r == (code_denies || (message matches Some(m) && crate::text::contains(m@, "authorization denied"@))),
{
    if code_denies {
        return true;
    }
    match message {
        Some(m) => crate::text::str_contains(m, "authorization denied"),
        None => false,
    }
}

/// One message as the store yields it.
#[derive(Debug, Clone, PartialEq, Eq)]
pub struct ImessageRow {
    pub rowid: i64,
    pub guid: String,
    pub body: Option<String>,
    pub handle: Option<String>,
    pub chat_guid: Option<String>,
    pub service: Option<String>,
    pub is_from_me: bool,
    pub date_unix: i64,
    pub date_delivered_unix: i64,
    pub date_read_unix: i64,
}

pub open spec fn opt_i64(o: Option<i64>) -> i64 {
    match o {
        Some(v) => v,
        None => 0,
    }
}

impl ImessageRow {
    /// The row of the message columns: the body resolved from `text` and
    /// `attributed_body`, `is_from_me` nonzero, dates converted to Unix time
    /// (a missing delivery or read date counting as 0).
    pub fn from_columns(
        rowid: i64,
        guid: String,
        text: Option<&str>,
        attributed_body: Option<&[u8]>,
        handle: Option<String>,
        chat_guid: Option<String>,
        service: Option<String>,
        is_from_me: i64,
        date: i64,
        date_delivered: Option<i64>,
        date_read: Option<i64>,
    ) -> (r: ImessageRow)
        requires
            date != i64::MIN,
            opt_i64(date_delivered) != i64::MIN,
            opt_i64(date_read) != i64::MIN,
        ensures
            r.rowid == rowid,
            r.guid == guid,
            match r.body {
                Some(b) => resolve_body_spec(
                    match text {
                        Some(t) => Some(t@),
                        None => None,
                    },
                    match attributed_body {
                        Some(a) => Some(a@),
                        None => None,
                    },
                ) == Some(b@),
                None => resolve_body_spec(
                    match text {
                        Some(t) => Some(t@),
                        None => None,
                    },
                    match attributed_body {
                        Some(a) => Some(a@),
                        None => None,
                    },
                ) is None,
            },
            r.handle == handle,
            r.chat_guid == chat_guid,
            r.service == service,
            r.is_from_me == (is_from_me != 0),
            r.date_unix == apple_time_spec(date as int),
            r.date_delivered_unix == apple_time_spec(opt_i64(date_delivered) as int),
            r.date_read_unix == apple_time_spec(opt_i64(date_read) as int),
    {
        let dd = match date_delivered {
            Some(v) => v,
            None => 0,
        };
        let dr = match date_read {
            Some(v) => v,
            None => 0,
        };
        ImessageRow {
            rowid,
            guid,
            body: resolve_body(text, attributed_body),
            handle,
            chat_guid,
            service,
            is_from_me: is_from_me != 0,
            date_unix: apple_time_to_unix(date),
            date_delivered_unix: apple_time_to_unix(dd),
            date_read_unix: apple_time_to_unix(dr),
        }
    }
}

/// The connector's configuration: its id, where the Messages store is, and
/// how often to poll it.
pub struct ImessageConnector {
    pub config_id: String,
    pub db_path: std::path::PathBuf,
    pub poll_interval_secs: u64,
}

impl ImessageConnector {
    pub fn new(connection_id: &str, db_path: std::path::PathBuf, poll_interval_secs: u64) -> (c: ImessageConnector)
        ensures
            c.config_id@ == connection_id@,
            c.db_path == db_path,
            c.poll_interval_secs == poll_interval_secs,
    {
        ImessageConnector { config_id: String::from_str(connection_id), db_path, poll_interval_secs }
    }
}

// ---------------------------------------------------------------------------
// Store location
// ---------------------------------------------------------------------------

/// Where the Messages store lives: `Library/Messages/chat.db` under the home
/// directory, on macOS only. Off macOS, or without a home directory, it is
/// an error rather than a guess.
pub fn messages_db_path(home: Option<&Path>, on_macos: bool) -> (r: Result<PathBuf, String>)
    ensures
        !on_macos ==> (r matches Err(m) && m@ == "the Messages database only exists on macOS"@),
        on_macos && home is None ==> (r matches Err(m)
            && m@ == "HOME is not set, cannot locate the Messages database"@),
        on_macos && home is Some ==> r is Ok,
{
    if !on_macos {
        return Err(String::from_str("the Messages database only exists on macOS"));
    }
    match home {
        Some(h) => Ok(path_join(h, "Library/Messages/chat.db")),
        None => Err(String::from_str("HOME is not set, cannot locate the Messages database")),
    }
}

// ---------------------------------------------------------------------------
// Send confirmation
// ---------------------------------------------------------------------------

/// An outgoing message row as the store joins it: its GUID, its handle and
/// the identifier and GUID of its chat, each absent where the join finds
/// none.
#[derive(Debug, Clone)]
pub struct SentRow {
    pub guid: String,
    pub handle: Option<String>,
    pub chat_identifier: Option<String>,
    pub chat_guid: Option<String>,
}

/// `x` holds exactly `to`.
pub open spec fn holds(x: Option<String>, to: Seq<char>) -> bool {
    match x {
        Some(s) => s@ == to,
        None => false,
    }
}

/// The chat GUID holds `to` somewhere in it.
pub open spec fn guid_mentions(x: Option<String>, to: Seq<char>) -> bool {
    match x {
        Some(g) => contains(g@, to),
        None => false,
    }
}

/// A non-empty handle that ends `to`, or that `to` ends: the store keeps
/// handles normalized, with or without the country code the caller used.
pub open spec fn handle_suffix_match(x: Option<String>, to: Seq<char>) -> bool {
    match x {
        Some(h) => h@.len() > 0 && (ends_with(to, h@) || ends_with(h@, to)),
        None => false,
    }
}

/// Whether an outgoing row confirms a send to `to`. Every comparison is
/// literal text, so no character of `to` acts as a wildcard, and an empty
/// recipient confirms nothing.
pub open spec fn confirms_send(to: Seq<char>, row: SentRow) -> bool {
    to.len() > 0 && (holds(row.handle, to) || holds(row.chat_identifier, to)
        || guid_mentions(row.chat_guid, to) || handle_suffix_match(row.handle, to))
}

/// Decides [`confirms_send`] for one row.
pub fn row_confirms_send(to: &str, row: &SentRow) -> (r: bool)
    ensures
        r == confirms_send(to@, *row),
{
    let t = chars_of(to);
    if t.len() == 0 {
        return false;
    }
    if let Some(h) = &row.handle {
        let hv = chars_of(h.as_str());
        if chars_eq(&hv, &t) {
            return true;
        }
        if hv.len() > 0 && (ends_with_chars(&t, &hv) || ends_with_chars(&hv, &t)) {
            return true;
        }
    }
    if let Some(c) = &row.chat_identifier {
        if str_eq(c.as_str(), to) {
            return true;
        }
    }
    if let Some(g) = &row.chat_guid {
        if str_contains(g.as_str(), to) {
            return true;
        }
    }
    false
}

/// The GUID of the first of `rows` (the store lists them newest first)
/// that confirms a send to `to`; none when no row does.
pub fn confirmed_guid(to: &str, rows: &Vec<SentRow>) -> (r: Option<String>)
    ensures
        match r {
            Some(g) => exists|i: int|
                0 <= i < rows@.len() && #[trigger] confirms_send(to@, rows@[i]) && g@ == rows@[i].guid@
                    && forall|j: int| 0 <= j < i ==> !confirms_send(to@, #[trigger] rows@[j]),
            None => forall|i: int| 0 <= i < rows@.len() ==> !confirms_send(to@, #[trigger] rows@[i]),
        },
{
    let mut i: usize = 0;
    while i < rows.len()
        invariant
            i <= rows@.len(),
            forall|j: int| 0 <= j < i ==> !confirms_send(to@, #[trigger] rows@[j]),
        decreases rows.len() - i,
    {
        if row_confirms_send(to, &rows[i]) {
            let g = rows[i].guid.clone();
            assert(confirms_send(to@, rows@[i as int]));
            return Some(g);
        }
        i = i + 1;
    }
    None
}

/// An empty recipient is confirmed by no row; and a row whose only match
/// could be an empty handle confirms no recipient.
pub proof fn lemma_empty_never_confirms(row: SentRow, to: Seq<char>)
    ensures
        !confirms_send(Seq::empty(), row),
        (row.handle matches Some(h) && h@.len() == 0 && row.chat_identifier is None
            && row.chat_guid is None && to.len() > 0) ==> !confirms_send(to, row),
{
}

} // verus!
