//! Composing outgoing Gmail messages: RFC 2047 header words, address headers
//! guarded against header injection, RFC 2822 messages with a base64 HTML
//! body, forwarded bodies, HTML detection and signatures.

use vstd::prelude::*;
use base64::Engine;
use crate::chunking::blen;
use crate::text::{append_chars, append_str, chars_of, contains, find_char, find_chars, first_char_index, first_occurrence, is_ascii_control_c, replace_all, slice_chars, starts_with, str_contains, str_replace, str_starts_with, string_of, strip_prefix_all, strip_suffix_char_all, strip_suffix_char_all_chars, trim, trim_chars, trim_start, trim_start_index, trim_str};

verus! {

// ---------------------------------------------------------------------------
// Base64
// ---------------------------------------------------------------------------

/// The base64 digit of the sextet `v < 64` (RFC 4648): `A`-`Z`, `a`-`z`,
/// `0`-`9`, then `+` and `/`, or `-` and `_` in the URL-safe alphabet.
pub open spec fn b64_digit(v: int, url_safe: bool) -> char {
    if v < 26 {
        (65 + v) as char
    } else if v < 52 {
        (71 + v) as char
    } else if v < 62 {
        (v - 4) as char
    } else if v == 62 {
        if url_safe {
            '-'
        } else {
            '+'
        }
    } else if url_safe {
        '_'
    } else {
        '/'
    }
}

/// Base64 of `data` (RFC 4648): each group of three bytes, read as a 24-bit
/// number, gives four digits of six bits, high bits first; a last group of
/// two bytes gives three digits and one of one byte two, followed by `=`
/// up to four characters when `padded`.
#[verifier::opaque]
pub open spec fn b64_encode(data: Seq<u8>, url_safe: bool, padded: bool) -> Seq<char>
    decreases data.len(),
{
    if data.len() == 0 {
        Seq::empty()
    } else if data.len() >= 3 {
        let n = data[0] * 65536 + data[1] * 256 + data[2];
        seq![
            b64_digit(n / 262144, url_safe),
            b64_digit(n / 4096 % 64, url_safe),
            b64_digit(n / 64 % 64, url_safe),
            b64_digit(n % 64, url_safe),
        ] + b64_encode(data.skip(3), url_safe, padded)
    } else if data.len() == 2 {
        let n = data[0] * 65536 + data[1] * 256;
        seq![
            b64_digit(n / 262144, url_safe),
            b64_digit(n / 4096 % 64, url_safe),
            b64_digit(n / 64 % 64, url_safe),
        ] + if padded {
            seq!['=']
        } else {
            Seq::empty()
        }
    } else {
        let n = data[0] * 65536;
        seq![b64_digit(n / 262144, url_safe), b64_digit(n / 4096 % 64, url_safe)] + if padded {
            seq!['=', '=']
        } else {
            Seq::empty()
        }
    }
}

/// Standard base64 (RFC 4648 alphabet, with `=` padding) of `data`.
pub open spec fn base64_standard(data: Seq<u8>) -> Seq<char> {
    b64_encode(data, false, true)
}

/// A character of the standard base64 alphabet or its padding.
pub open spec fn base64_char(c: char) -> bool {
    ('A' <= c <= 'Z') || ('a' <= c <= 'z') || ('0' <= c <= '9') || c == '+' || c == '/' || c == '='
}

/// The encoded length of `n` bytes fits in `usize` (the encoder panics
/// otherwise).
pub open spec fn b64_fits(n: nat) -> bool {
    (n + 2) / 3 * 4 <= usize::MAX
}

/// `Engine::encode` of base64 with the `STANDARD` engine. Claimed: its result
/// is [`base64_standard`] of `data`, made of the standard alphabet and `=`. It panics when the encoded length overflows
/// `usize`, which `requires` excludes.
#[verifier::external_body]
pub(crate) fn base64_encode(data: &[u8]) -> (r: String)
    requires
        b64_fits(data@.len()),
    ensures
        r@ == base64_standard(data@),
        forall|i: int| 0 <= i < r@.len() ==> base64_char(#[trigger] r@[i]),
{
    base64::engine::general_purpose::STANDARD.encode(data)
}

/// The UTF-8 bytes of `s`.
pub open spec fn utf8(s: Seq<char>) -> Seq<u8> {
    vstd::utf8::encode_utf8(s)
}

pub(crate) fn utf8_len_is_blen(s: &str)
    ensures
        utf8(s@).len() == blen(s@),
{
    proof {
        crate::chunking::lemma_blen_utf8(s@);
    }
}

// ---------------------------------------------------------------------------
// Header words
// ---------------------------------------------------------------------------

/// `value` itself when it is ASCII, else `=?UTF-8?B?{base64}?=`.
pub open spec fn rfc2047_spec(value: Seq<char>) -> Seq<char> {
    if vstd::utf8::is_ascii_chars(value) {
        value
    } else {
        "=?UTF-8?B?"@ + base64_standard(utf8(value)) + "?="@
    }
}

/// RFC 2047 encodes a header value if it contains non-ASCII characters.
pub fn encode_rfc2047(value: &str) -> (r: String)
    requires
        b64_fits(blen(value@)),
    ensures
        r@ == rfc2047_spec(value@),
{
    if value.is_ascii() {
        return value.to_owned();
    }
    utf8_len_is_blen(value);
    let encoded = base64_encode(value.as_bytes());
    let mut v = chars_of("=?UTF-8?B?");
    append_str(&mut v, encoded.as_str());
    append_str(&mut v, "?=");
    string_of(&v)
}

// ---------------------------------------------------------------------------
// Recipients
// ---------------------------------------------------------------------------

/// Addressing headers for an outgoing message: `cc` and `bcc` are optional
/// comma-separated address lists.
#[derive(Debug, Clone, Copy)]
pub struct ComposeRecipients<'a> {
    pub to: &'a str,
    pub cc: Option<&'a str>,
    pub bcc: Option<&'a str>,
}

impl<'a> ComposeRecipients<'a> {
    /// Recipients with only a `To` list.
    pub fn to_only(to: &'a str) -> (r: ComposeRecipients<'a>)
        ensures
            r.to == to,
            r.cc is None,
            r.bcc is None,
    {
        ComposeRecipients { to, cc: None, bcc: None }
    }
}

impl<'a> Default for ComposeRecipients<'a> {
    fn default() -> (r: ComposeRecipients<'a>)
        ensures
            r.to@.len() == 0,
            r.cc is None,
            r.bcc is None,
    {
        proof {
            reveal_strlit("");
        }
        ComposeRecipients { to: "", cc: None, bcc: None }
    }
}

/// Addressing for a draft: `to` may be omitted when recipients are derived
/// from the message replied to.
#[derive(Debug, Clone, Copy)]
pub struct DraftRecipients<'a> {
    pub to: Option<&'a str>,
    pub cc: Option<&'a str>,
    pub bcc: Option<&'a str>,
}

impl<'a> Default for DraftRecipients<'a> {
    fn default() -> (r: DraftRecipients<'a>)
        ensures
            r.to is None,
            r.cc is None,
            r.bcc is None,
    {
        DraftRecipients { to: None, cc: None, bcc: None }
    }
}

pub open spec fn has_control(s: Seq<char>) -> bool {
    exists|i: int| 0 <= i < s.len() && is_ascii_control_c(#[trigger] s[i])
}

/// The error for an address field holding a control character.
pub open spec fn injection_error(field: Seq<char>) -> Seq<char> {
    "invalid "@ + field + ": address fields must not contain control characters (e.g. CR/LF)"@
}

/// Rejects CR/LF and the other ASCII controls so that an address field
/// cannot inject headers.
fn reject_header_injection(field: &str, value: &str) -> (r: Result<(), String>)
    ensures
        has_control(value@) ==> (r matches Err(e) && e@ == injection_error(field@)),
        !has_control(value@) ==> r is Ok,
{
    let cs = chars_of(value);
    let mut i: usize = 0;
    while i < cs.len()
        invariant
            i <= cs.len(),
            cs@ == value@,
            forall|k: int| 0 <= k < i ==> !is_ascii_control_c(#[trigger] cs@[k]),
        decreases cs.len() - i,
    {
        let u = cs[i] as u32;
        if u < 0x20 || u == 0x7f {
            let mut m = chars_of("invalid ");
            append_str(&mut m, field);
            append_str(&mut m, ": address fields must not contain control characters (e.g. CR/LF)");
            return Err(string_of(&m));
        }
        i = i + 1;
    }
    Ok(())
}

/// An optional list trimmed, when it is not blank.
pub open spec fn nonblank(o: Option<&str>) -> Option<Seq<char>> {
    match o {
        Some(s) => if trim(s@).len() > 0 {
            Some(trim(s@))
        } else {
            None
        },
        None => None,
    }
}

/// One optional address header: nothing when absent, else `Name: list\r\n`,
/// or the injection error.
pub open spec fn optional_header(name: Seq<char>, list: Option<Seq<char>>) -> Result<Seq<char>, Seq<char>> {
    match list {
        Some(l) => if has_control(l) {
            Err(injection_error(name))
        } else {
            Ok(name + ": "@ + l + "\r\n"@)
        },
        None => Ok(Seq::empty()),
    }
}

/// The `To`, `Cc` and `Bcc` headers, in that order, or the error for the
/// first field that holds a control character.
pub open spec fn address_headers(r: ComposeRecipients) -> Result<Seq<char>, Seq<char>> {
    if has_control(r.to@) {
        Err(injection_error("To"@))
    } else {
        match optional_header("Cc"@, nonblank(r.cc)) {
            Err(e) => Err(e),
            Ok(cc) => match optional_header("Bcc"@, nonblank(r.bcc)) {
                Err(e) => Err(e),
                Ok(bcc) => Ok("To: "@ + r.to@ + "\r\n"@ + cc + bcc),
            },
        }
    }
}

fn push_optional_header(headers: &mut Vec<char>, name: &str, list: Option<&str>) -> (r: Result<(), String>)
    ensures
        match optional_header(name@, nonblank(list)) {
            Ok(h) => r is Ok && final(headers)@ == old(headers)@ + h,
            Err(e) => r matches Err(m) && m@ == e,
        },
{
    if let Some(l) = list {
        let t = trim_str(l);
        if t.len() > 0 {
            let ts = string_of(&t);
            match reject_header_injection(name, ts.as_str()) {
                Err(e) => {
                    return Err(e);
                },
                Ok(()) => {},
            }
            append_str(headers, name);
            append_str(headers, ": ");
            append_chars(headers, &t);
            append_str(headers, "\r\n");
            return Ok(());
        }
    }
    assert(headers@ == old(headers)@ + Seq::<char>::empty());
    Ok(())
}

fn push_address_headers(headers: &mut Vec<char>, recipients: ComposeRecipients) -> (r: Result<(), String>)
    ensures
        match address_headers(recipients) {
            Ok(h) => r is Ok && final(headers)@ == old(headers)@ + h,
            Err(e) => r matches Err(m) && m@ == e,
        },
{
    match reject_header_injection("To", recipients.to) {
        Err(e) => {
            return Err(e);
        },
        Ok(()) => {},
    }
    append_str(headers, "To: ");
    append_str(headers, recipients.to);
    append_str(headers, "\r\n");
    let ghost after_to = headers@;
    match push_optional_header(headers, "Cc", recipients.cc) {
        Err(e) => {
            return Err(e);
        },
        Ok(()) => {},
    }
    let ghost after_cc = headers@;
    match push_optional_header(headers, "Bcc", recipients.bcc) {
        Err(e) => {
            return Err(e);
        },
        Ok(()) => {},
    }
    Ok(())
}

// ---------------------------------------------------------------------------
// HTML detection
// ---------------------------------------------------------------------------

/// Whether a synced body reads as HTML: a document start, or a closed `div`,
/// `table` or `body` element.
pub open spec fn looks_like_html_spec(text: Seq<char>) -> bool {
    let t = trim_start(text);
    starts_with(t, "<!DOCTYPE"@) || starts_with(t, "<!doctype"@) || starts_with(t, "<html"@)
        || starts_with(t, "<HTML"@) || (contains(t, "<div"@) && contains(t, "</div>"@)) || (
    contains(t, "<table"@) && contains(t, "</table>"@)) || (contains(t, "<body"@) && contains(
        t,
        "</body>"@,
    ))
}

/// Heuristic for whether a synced message body should be treated as HTML.
pub fn looks_like_html(text: &str) -> (r: bool)
    ensures
        r == looks_like_html_spec(text@),
{
    let v = chars_of(text);
    let i = trim_start_index(&v);
    let t = string_of(&slice_chars(&v, i, v.len()));
    let s = t.as_str();
    str_starts_with(s, "<!DOCTYPE") || str_starts_with(s, "<!doctype") || str_starts_with(s, "<html")
        || str_starts_with(s, "<HTML") || (str_contains(s, "<div") && str_contains(s, "</div>")) || (
    str_contains(s, "<table") && str_contains(s, "</table>")) || (str_contains(s, "<body")
        && str_contains(s, "</body>"))
}

/// Whether an outgoing body reads as HTML: as [`looks_like_html_spec`], or
/// holding a `<br`, or a closed anchor.
pub open spec fn looks_like_html_for_compose_spec(text: Seq<char>) -> bool {
    let t = trim_start(text);
    looks_like_html_spec(text) || contains(t, "<br"@) || contains(t, "<BR"@) || (contains(t, "<a "@)
        && contains(t, "</a>"@))
}

/// Heuristic for whether an outgoing body should be treated as HTML.
pub fn looks_like_html_for_compose(text: &str) -> (r: bool)
    ensures
        r == looks_like_html_for_compose_spec(text@),
{
    if looks_like_html(text) {
        return true;
    }
    let v = chars_of(text);
    let i = trim_start_index(&v);
    let t = string_of(&slice_chars(&v, i, v.len()));
    let s = t.as_str();
    str_contains(s, "<br") || str_contains(s, "<BR") || (str_contains(s, "<a ") && str_contains(
        s,
        "</a>",
    ))
}

/// What reads as HTML when synced also reads as HTML when composed: the
/// compose test only adds cues (`<br`, `<BR`, a link) to the sync test.
pub proof fn lemma_compose_test_widens_sync_test(text: Seq<char>)
    ensures
        looks_like_html_spec(text) ==> looks_like_html_for_compose_spec(text),
{
}

// ---------------------------------------------------------------------------
// RFC 2822 messages
// ---------------------------------------------------------------------------

/// `s` cut into lines of `n` characters (the last one shorter) joined by CRLF.
pub open spec fn wrap_lines(s: Seq<char>, n: nat) -> Seq<char>
    decreases s.len(),
{
    if n == 0 || s.len() <= n {
        s
    } else {
        s.take(n as int) + "\r\n"@ + wrap_lines(s.skip(n as int), n)
    }
}

/// Wraps `s` into CRLF-separated lines of 76 characters.
fn wrap76(s: &str) -> (r: Vec<char>)
    ensures
        r@ == wrap_lines(s@, 76),
{
    let v = chars_of(s);
    let mut out: Vec<char> = Vec::new();
    let mut i: usize = 0;
    assert(v@.skip(0) == v@);
    while v.len() - i > 76
        invariant
            i <= v.len(),
            wrap_lines(s@, 76) == out@ + wrap_lines(v@.skip(i as int), 76),
            v@ == s@,
        decreases v.len() - i,
    {
        let ghost rest = v@.skip(i as int);
        let line = slice_chars(&v, i, i + 76);
        assert(line@ == rest.take(76));
        assert(rest.skip(76) == v@.skip(i + 76));
        append_chars(&mut out, &line);
        append_str(&mut out, "\r\n");
        i = i + 76;
    }
    let last = slice_chars(&v, i, v.len());
    assert(last@ == v@.skip(i as int));
    append_chars(&mut out, &last);
    out
}

/// The body as sent: itself when HTML, else with `<br>` before each newline.
pub open spec fn html_body_text(body: Seq<char>, is_html: bool) -> Seq<char> {
    if is_html {
        body
    } else {
        replace_all(body, "\n"@, "<br>\n"@)
    }
}

/// Whether the body is sent as HTML: as forced, else as it reads.
pub open spec fn body_is_html_spec(body: Seq<char>, forced: Option<bool>) -> bool {
    match forced {
        Some(b) => b,
        None => looks_like_html_for_compose_spec(body),
    }
}

pub open spec fn opt_header(name: Seq<char>, v: Option<&str>) -> Seq<char> {
    match v {
        Some(x) => name + ": "@ + x@ + "\r\n"@,
        None => Seq::empty(),
    }
}

/// The message: address headers, subject (RFC 2047), HTML content headers,
/// threading headers, a blank line, and the base64 body in lines of 76.
pub open spec fn compose_spec(
    recipients: ComposeRecipients,
    subject: Seq<char>,
    body: Seq<char>,
    in_reply_to: Option<&str>,
    references: Option<&str>,
    body_is_html: Option<bool>,
) -> Result<Seq<char>, Seq<char>> {
    match address_headers(recipients) {
        Err(e) => Err(e),
        Ok(h) => Ok(
            h + "Subject: "@ + rfc2047_spec(subject)
                + "\r\nContent-Type: text/html; charset=utf-8\r\nContent-Transfer-Encoding: base64\r\n"@
                + opt_header("In-Reply-To"@, in_reply_to) + opt_header("References"@, references)
                + "\r\n"@ + wrap_lines(
                base64_standard(utf8(html_body_text(body, body_is_html_spec(body, body_is_html)))),
                76,
            ),
        ),
    }
}

/// The sizes under which composing cannot overflow: the subject and the
/// body as sent have base64 encodings whose length fits in `usize`.
pub open spec fn compose_fits(subject: Seq<char>, body: Seq<char>, body_is_html: Option<bool>) -> bool {
    b64_fits(blen(subject)) && b64_fits(blen(html_body_text(body, body_is_html_spec(body, body_is_html))))
}

fn push_opt_header(v: &mut Vec<char>, name: &str, x: Option<&str>)
    ensures
        final(v)@ == old(v)@ + opt_header(name@, x),
{
    match x {
        Some(s) => {
            append_str(v, name);
            append_str(v, ": ");
            append_str(v, s);
            append_str(v, "\r\n");
        },
        None => {
            assert(v@ == old(v)@ + Seq::<char>::empty());
        },
    }
}

/// An address field holding a control character (such as CR or LF) is
/// refused with the error naming it, so no header can be injected through
/// `To`, `Cc` or `Bcc`; a message is composed only from clean fields.
pub proof fn lemma_header_injection_refused(
    recipients: ComposeRecipients,
    subject: Seq<char>,
    body: Seq<char>,
    in_reply_to: Option<&str>,
    references: Option<&str>,
    body_is_html: Option<bool>,
)
    ensures
        has_control(recipients.to@) ==> compose_spec(recipients, subject, body, in_reply_to, references, body_is_html)
            == Err::<Seq<char>, Seq<char>>(injection_error("To"@)),
        (nonblank(recipients.cc) matches Some(c) && has_control(c)) ==> compose_spec(
            recipients,
            subject,
            body,
            in_reply_to,
            references,
            body_is_html,
        ) is Err,
        (nonblank(recipients.bcc) matches Some(b) && has_control(b)) ==> compose_spec(
            recipients,
            subject,
            body,
            in_reply_to,
            references,
            body_is_html,
        ) is Err,
        compose_spec(recipients, subject, body, in_reply_to, references, body_is_html) is Ok ==> {
            &&& !has_control(recipients.to@)
            &&& !(nonblank(recipients.cc) matches Some(c) && has_control(c))
            &&& !(nonblank(recipients.bcc) matches Some(b) && has_control(b))
        },
{
}

proof fn lemma_b64_digit_ascii(v: int, url_safe: bool)
    requires
        v >= 0,
    ensures
        '\0' <= b64_digit(v, url_safe) <= '\u{7f}',
{
}

proof fn lemma_b64_ascii(data: Seq<u8>, url_safe: bool, padded: bool)
    ensures
        vstd::utf8::is_ascii_chars(b64_encode(data, url_safe, padded)),
    decreases data.len(),
{
    reveal(b64_encode);
    let e = b64_encode(data, url_safe, padded);
    if data.len() == 0 {
    } else if data.len() >= 3 {
        let n = data[0] * 65536 + data[1] * 256 + data[2];
        lemma_b64_digit_ascii(n / 262144, url_safe);
        lemma_b64_digit_ascii(n / 4096 % 64, url_safe);
        lemma_b64_digit_ascii(n / 64 % 64, url_safe);
        lemma_b64_digit_ascii(n % 64, url_safe);
        lemma_b64_ascii(data.skip(3), url_safe, padded);
        let rest = b64_encode(data.skip(3), url_safe, padded);
        assert forall|i: int| 0 <= i < e.len() implies '\0' <= #[trigger] e[i] <= '\u{7f}' by {
            if i >= 4 {
                assert(e[i] == rest[i - 4]);
            }
        }
    } else if data.len() == 2 {
        let n = data[0] * 65536 + data[1] * 256;
        lemma_b64_digit_ascii(n / 262144, url_safe);
        lemma_b64_digit_ascii(n / 4096 % 64, url_safe);
        lemma_b64_digit_ascii(n / 64 % 64, url_safe);
    } else {
        let n = data[0] * 65536;
        lemma_b64_digit_ascii(n / 262144, url_safe);
        lemma_b64_digit_ascii(n / 4096 % 64, url_safe);
    }
}

/// The subject line of a composed message follows the address headers and
/// carries the RFC 2047 form of the subject: the subject itself when it is
/// ASCII, else `=?UTF-8?B?`, the standard base64 of its UTF-8 bytes, and
/// `?=`. Either way that header value is ASCII.
pub proof fn lemma_composed_subject_is_rfc2047(
    recipients: ComposeRecipients,
    subject: Seq<char>,
    body: Seq<char>,
    in_reply_to: Option<&str>,
    references: Option<&str>,
    body_is_html: Option<bool>,
)
    ensures
        ({
            let value = if vstd::utf8::is_ascii_chars(subject) {
                subject
            } else {
                "=?UTF-8?B?"@ + base64_standard(utf8(subject)) + "?="@
            };
            &&& vstd::utf8::is_ascii_chars(value)
            &&& compose_spec(recipients, subject, body, in_reply_to, references, body_is_html) matches Ok(m)
                ==> (address_headers(recipients) matches Ok(h) && starts_with(
                m.skip(h.len() as int),
                "Subject: "@ + value + "\r\n"@,
            ))
        }),
{
    reveal_strlit("=?UTF-8?B?");
    reveal_strlit("?=");
    let b = base64_standard(utf8(subject));
    lemma_b64_ascii(utf8(subject), false, true);
    let pre = "=?UTF-8?B?"@;
    let post = "?="@;
    let enc = pre + b + post;
    assert forall|i: int| 0 <= i < enc.len() implies '\0' <= #[trigger] enc[i] <= '\u{7f}' by {
        if i < pre.len() {
            assert(enc[i] == pre[i]);
        } else if i < pre.len() + b.len() {
            assert(enc[i] == b[i - pre.len()]);
        } else {
            assert(enc[i] == post[i - pre.len() - b.len()]);
        }
    }
    match compose_spec(recipients, subject, body, in_reply_to, references, body_is_html) {
        Ok(m) => {
            let h = address_headers(recipients)->Ok_0;
            let line = "Subject: "@ + rfc2047_spec(subject) + "\r\n"@;
            let tail = m.skip(h.len() as int);
            assert(m == h + ("Subject: "@ + rfc2047_spec(subject)
                + "\r\nContent-Type: text/html; charset=utf-8\r\nContent-Transfer-Encoding: base64\r\n"@
                + opt_header("In-Reply-To"@, in_reply_to) + opt_header("References"@, references)
                + "\r\n"@ + wrap_lines(
                base64_standard(utf8(html_body_text(body, body_is_html_spec(body, body_is_html)))),
                76,
            )));
            reveal_strlit("\r\n");
            reveal_strlit("\r\nContent-Type: text/html; charset=utf-8\r\nContent-Transfer-Encoding: base64\r\n");
            assert(tail.take(line.len() as int) =~= line);
        },
        Err(_) => {},
    }
}

/// Builds an RFC 2822 message with Cc/Bcc and optional forced HTML handling
/// (see [`compose_spec`]).
pub fn compose_rfc2822_ex(
    recipients: ComposeRecipients,
    subject: &str,
    body: &str,
    in_reply_to: Option<&str>,
    references: Option<&str>,
    body_is_html: Option<bool>,
) -> (r: Result<String, String>)
    requires
        compose_fits(subject@, body@, body_is_html),
    ensures
        match compose_spec(recipients, subject@, body@, in_reply_to, references, body_is_html) {
            Ok(m) => r matches Ok(s) && s@ == m,
            Err(e) => r matches Err(x) && x@ == e,
        },
{
    let subject_enc = encode_rfc2047(subject);
    let is_html = match body_is_html {
        Some(b) => b,
        None => looks_like_html_for_compose(body),
    };
    lemma_one_char_literals();
    let final_body = if is_html {
        body.to_owned()
    } else {
        let bv = chars_of(body);
        string_of(&str_replace(&bv, "\n", "<br>\n"))
    };
    let mut headers: Vec<char> = Vec::new();
    match push_address_headers(&mut headers, recipients) {
        Err(e) => {
            return Err(e);
        },
        Ok(()) => {},
    }
    append_str(&mut headers, "Subject: ");
    append_str(&mut headers, subject_enc.as_str());
    append_str(&mut headers, "\r\nContent-Type: text/html; charset=utf-8\r\nContent-Transfer-Encoding: base64\r\n");
    push_opt_header(&mut headers, "In-Reply-To", in_reply_to);
    push_opt_header(&mut headers, "References", references);
    utf8_len_is_blen(final_body.as_str());
    let encoded = base64_encode(final_body.as_str().as_bytes());
    let wrapped = wrap76(encoded.as_str());
    append_str(&mut headers, "\r\n");
    append_chars(&mut headers, &wrapped);
    Ok(string_of(&headers))
}

/// Builds an RFC 2822 message to `to` (see [`compose_spec`]).
pub fn compose_rfc2822(
    to: &str,
    subject: &str,
    body: &str,
    in_reply_to: Option<&str>,
    references: Option<&str>,
) -> (r: Result<String, String>)
    requires
        compose_fits(subject@, body@, None),
    ensures
        match compose_spec(ComposeRecipients { to, cc: None, bcc: None }, subject@, body@, in_reply_to, references, None) {
            Ok(m) => r matches Ok(s) && s@ == m,
            Err(e) => r matches Err(x) && x@ == e,
        },
{
    compose_rfc2822_ex(ComposeRecipients::to_only(to), subject, body, in_reply_to, references, None)
}

/// The boundary between the parts of a message with an attachment.
pub const BOUNDARY: &'static str = "void_boundary_001";

/// The part headers of an attachment named `filename` of type `mime`.
pub open spec fn attachment_part_headers(mime: Seq<char>, filename: Seq<char>) -> Seq<char> {
    "Content-Type: "@ + mime + "; name=\""@ + filename + "\"\r\nContent-Disposition: attachment; filename=\""@
        + filename + "\"\r\nContent-Transfer-Encoding: base64\r\n\r\n"@
}

/// The headers after the address headers of a message with an attachment.
pub open spec fn multipart_head(subject: Seq<char>, in_reply_to: Option<&str>, references: Option<&str>) -> Seq<char> {
    "Subject: "@ + rfc2047_spec(subject) + "\r\nMIME-Version: 1.0\r\nContent-Type: multipart/mixed; boundary=\""@
        + BOUNDARY@ + "\"\r\n"@ + opt_header("In-Reply-To"@, in_reply_to) + opt_header("References"@, references)
}

/// The blank line ending the headers, then the HTML part holding the body as
/// sent, in base64.
pub open spec fn multipart_body(body: Seq<char>) -> Seq<char> {
    "\r\n--"@ + BOUNDARY@ + "\r\nContent-Type: text/html; charset=utf-8\r\nContent-Transfer-Encoding: base64\r\n\r\n"@
        + wrap_lines(base64_standard(utf8(html_body_text(body, looks_like_html_for_compose_spec(body)))), 76)
}

/// The attachment part, in base64, and the closing boundary.
pub open spec fn multipart_file(mime: Seq<char>, filename: Seq<char>, file: Seq<u8>) -> Seq<char> {
    "\r\n--"@ + BOUNDARY@ + "\r\n"@ + attachment_part_headers(mime, filename) + wrap_lines(base64_standard(file), 76)
        + "\r\n--"@ + BOUNDARY@ + "--"@
}

/// A `multipart/mixed` message: the address headers of [`compose_spec`],
/// [`multipart_head`], [`multipart_body`] and [`multipart_file`]. The file
/// name defaults to `attachment`, the type to `application/octet-stream`.
pub open spec fn attachment_compose_spec(
    recipients: ComposeRecipients,
    subject: Seq<char>,
    body: Seq<char>,
    file_name: Option<&str>,
    file: Seq<u8>,
    mime_type: Option<&str>,
    in_reply_to: Option<&str>,
    references: Option<&str>,
) -> Result<Seq<char>, Seq<char>> {
    let filename = match file_name {
        Some(n) => n@,
        None => "attachment"@,
    };
    let mime = match mime_type {
        Some(m) => m@,
        None => "application/octet-stream"@,
    };
    match address_headers(recipients) {
        Err(e) => Err(e),
        Ok(h) => Ok(
            h + multipart_head(subject, in_reply_to, references) + multipart_body(body) + multipart_file(
                mime,
                filename,
                file,
            ),
        ),
    }
}

fn multipart_head_exec(subject: &str, in_reply_to: Option<&str>, references: Option<&str>) -> (r: Vec<char>)
    requires
        b64_fits(blen(subject@)),
    ensures
        r@ == multipart_head(subject@, in_reply_to, references),
{
    let subject_enc = encode_rfc2047(subject);
    let mut v = chars_of("Subject: ");
    append_str(&mut v, subject_enc.as_str());
    append_str(&mut v, "\r\nMIME-Version: 1.0\r\nContent-Type: multipart/mixed; boundary=\"");
    append_str(&mut v, BOUNDARY);
    append_str(&mut v, "\"\r\n");
    push_opt_header(&mut v, "In-Reply-To", in_reply_to);
    push_opt_header(&mut v, "References", references);
    v
}

fn multipart_body_exec(body: &str) -> (r: Vec<char>)
    requires
        b64_fits(blen(html_body_text(body@, body_is_html_spec(body@, None)))),
    ensures
        r@ == multipart_body(body@),
{
    let is_html = looks_like_html_for_compose(body);
    lemma_one_char_literals();
    let final_body = if is_html {
        body.to_owned()
    } else {
        let bv = chars_of(body);
        string_of(&str_replace(&bv, "\n", "<br>\n"))
    };
    utf8_len_is_blen(final_body.as_str());
    let encoded_body = base64_encode(final_body.as_str().as_bytes());
    let wrapped_body = wrap76(encoded_body.as_str());
    let mut v = chars_of("\r\n--");
    append_str(&mut v, BOUNDARY);
    append_str(&mut v, "\r\nContent-Type: text/html; charset=utf-8\r\nContent-Transfer-Encoding: base64\r\n\r\n");
    append_chars(&mut v, &wrapped_body);
    v
}

fn multipart_file_exec(mime: &str, filename: &str, file: &[u8]) -> (r: Vec<char>)
    requires
        b64_fits(file@.len()),
    ensures
        r@ == multipart_file(mime@, filename@, file@),
{
    let encoded_file = base64_encode(file);
    let wrapped_file = wrap76(encoded_file.as_str());
    let mut v = chars_of("\r\n--");
    append_str(&mut v, BOUNDARY);
    append_str(&mut v, "\r\n");
    append_str(&mut v, "Content-Type: ");
    append_str(&mut v, mime);
    append_str(&mut v, "; name=\"");
    append_str(&mut v, filename);
    append_str(&mut v, "\"\r\nContent-Disposition: attachment; filename=\"");
    append_str(&mut v, filename);
    append_str(&mut v, "\"\r\nContent-Transfer-Encoding: base64\r\n\r\n");
    let ghost hv = v@;
    assert(hv =~= "\r\n--"@ + BOUNDARY@ + "\r\n"@ + attachment_part_headers(mime@, filename@));
    append_chars(&mut v, &wrapped_file);
    append_str(&mut v, "\r\n--");
    append_str(&mut v, BOUNDARY);
    append_str(&mut v, "--");
    v
}

/// Builds a message with one attachment whose bytes the caller read (see
/// [`attachment_compose_spec`]).
pub fn compose_rfc2822_with_attachment(
    recipients: ComposeRecipients,
    subject: &str,
    body: &str,
    file_name: Option<&str>,
    file: &[u8],
    mime_type: Option<&str>,
    in_reply_to: Option<&str>,
    references: Option<&str>,
) -> (r: Result<String, String>)
    requires
        compose_fits(subject@, body@, None),
        b64_fits(file@.len()),
    ensures
        match attachment_compose_spec(recipients, subject@, body@, file_name, file@, mime_type, in_reply_to, references) {
            Ok(m) => r matches Ok(s) && s@ == m,
            Err(e) => r matches Err(x) && x@ == e,
        },
{
    let filename = match file_name {
        Some(n) => n,
        None => "attachment",
    };
    let mime = match mime_type {
        Some(m) => m,
        None => "application/octet-stream",
    };
    let mut raw: Vec<char> = Vec::new();
    match push_address_headers(&mut raw, recipients) {
        Err(e) => {
            return Err(e);
        },
        Ok(()) => {},
    }
    let head = multipart_head_exec(subject, in_reply_to, references);
    let body_part = multipart_body_exec(body);
    let file_part = multipart_file_exec(mime, filename, file);
    append_chars(&mut raw, &head);
    append_chars(&mut raw, &body_part);
    append_chars(&mut raw, &file_part);
    Ok(string_of(&raw))
}

// ---------------------------------------------------------------------------
// Drafts, replies and forwards
// ---------------------------------------------------------------------------

/// A plain-text draft: `To`, the subject (RFC 2047), the content type, the
/// threading headers naming `reply_to` when it is given, a blank line and
/// the body.
pub open spec fn draft_spec(to: Seq<char>, subject: Seq<char>, body: Seq<char>, reply_to: Option<&str>) -> Seq<char> {
    "To: "@ + to + "\r\nSubject: "@ + rfc2047_spec(subject) + "\r\nContent-Type: text/plain; charset=utf-8\r\n"@
        + match reply_to {
        Some(r) => "In-Reply-To: "@ + r@ + "\r\nReferences: "@ + r@ + "\r\n"@,
        None => Seq::empty(),
    } + "\r\n"@ + body
}

/// Builds a plain-text draft (see [`draft_spec`]).
pub fn draft_rfc2822(to: &str, subject: &str, body: &str, reply_to: Option<&str>) -> (r: String)
    requires
        b64_fits(blen(subject@)),
    ensures
        r@ == draft_spec(to@, subject@, body@, reply_to),
{
    let subject_enc = encode_rfc2047(subject);
    let mut v = chars_of("To: ");
    append_str(&mut v, to);
    append_str(&mut v, "\r\nSubject: ");
    append_str(&mut v, subject_enc.as_str());
    append_str(&mut v, "\r\nContent-Type: text/plain; charset=utf-8\r\n");
    let ghost before = v@;
    match reply_to {
        Some(r) => {
            append_str(&mut v, "In-Reply-To: ");
            append_str(&mut v, r);
            append_str(&mut v, "\r\nReferences: ");
            append_str(&mut v, r);
            append_str(&mut v, "\r\n");
        },
        None => {},
    }
    assert(v@ == before + match reply_to {
        Some(r) => "In-Reply-To: "@ + r@ + "\r\nReferences: "@ + r@ + "\r\n"@,
        None => Seq::<char>::empty(),
    });
    append_str(&mut v, "\r\n");
    append_str(&mut v, body);
    string_of(&v)
}

/// The recipients of a draft, when they are known without the message
/// replied to: the explicit list; `None` when they are to be derived from
/// the message replied to; the error when neither is given.
pub fn draft_recipients(to: Option<&str>, reply_to_message_id: Option<&str>) -> (r: Result<Option<String>, String>)
    ensures
        match to {
            Some(t) => r matches Ok(Some(x)) && x@ == t@,
            None => match reply_to_message_id {
                Some(_) => r matches Ok(None),
                None => r matches Err(e) && e@ == "--to is required when --reply-to is not set"@,
            },
        },
{
    match to {
        Some(t) => Ok(Some(t.to_string())),
        None => match reply_to_message_id {
            Some(_) => Ok(None),
            None => Err(String::from_str("--to is required when --reply-to is not set")),
        },
    }
}

/// The recipients derived from the message replied to: its reply-all list,
/// or the error naming the message when that list is empty.
pub fn derived_recipients(reply_all: String, msg_id: &str) -> (r: Result<String, String>)
    ensures
        reply_all@.len() > 0 ==> (r matches Ok(x) && x@ == reply_all@),
        reply_all@.len() == 0 ==> (r matches Err(e) && e@ == "could not determine recipients from message "@ + msg_id@
            + "; provide --to explicitly"@),
{
    if reply_all.as_str().is_empty() {
        let mut v = chars_of("could not determine recipients from message ");
        append_str(&mut v, msg_id);
        append_str(&mut v, "; provide --to explicitly");
        Err(string_of(&v))
    } else {
        Ok(reply_all)
    }
}

/// The subject of a reply: the replied-to subject (or `(no subject)`) with `Re: ` in
/// front unless it already starts with `Re:`.
pub open spec fn reply_subject_spec(subject: Option<Seq<char>>) -> Seq<char> {
    let s = match subject {
        Some(x) => x,
        None => "(no subject)"@,
    };
    if starts_with(s, "Re:"@) {
        s
    } else {
        "Re: "@ + s
    }
}

/// The subject of a reply (see [`reply_subject_spec`]).
pub fn reply_subject(subject: Option<&str>) -> (r: String)
    ensures
        r@ == reply_subject_spec(
            match subject {
                Some(x) => Some(x@),
                None => None,
            },
        ),
{
    let s = match subject {
        Some(x) => x,
        None => "(no subject)",
    };
    if str_starts_with(s, "Re:") {
        s.to_string()
    } else {
        let mut v = chars_of("Re: ");
        append_str(&mut v, s);
        string_of(&v)
    }
}

/// The subject of a forward: the forwarded subject with `Fwd: ` in front unless it
/// already starts with `Fwd:` or `Fw:`.
pub open spec fn forward_subject_spec(subject: Seq<char>) -> Seq<char> {
    if starts_with(subject, "Fwd:"@) || starts_with(subject, "Fw:"@) {
        subject
    } else {
        "Fwd: "@ + subject
    }
}

/// The subject of a forward (see [`forward_subject_spec`]).
pub fn forward_subject(subject: &str) -> (r: String)
    ensures
        r@ == forward_subject_spec(subject@),
{
    if str_starts_with(subject, "Fwd:") || str_starts_with(subject, "Fw:") {
        subject.to_string()
    } else {
        let mut v = chars_of("Fwd: ");
        append_str(&mut v, subject);
        string_of(&v)
    }
}

/// Unpadded base64url (RFC 4648, URL alphabet, no `=`) of `data`.
pub open spec fn base64_url_nopad(data: Seq<u8>) -> Seq<char> {
    b64_encode(data, true, false)
}

/// `Engine::encode` of base64 with the `URL_SAFE_NO_PAD` engine. Claimed:
/// its result is [`base64_url_nopad`] of `data`. It panics when the
/// encoded length overflows `usize`, which
/// `requires` excludes.
#[verifier::external_body]
fn base64_url_encode(data: &[u8]) -> (r: String)
    requires
        b64_fits(data@.len()),
    ensures
        r@ == base64_url_nopad(data@),
{
    base64::engine::general_purpose::URL_SAFE_NO_PAD.encode(data)
}

/// A raw message as the Gmail API takes it: its UTF-8 bytes in unpadded
/// base64url.
pub fn encode_raw_message(raw: &str) -> (r: String)
    requires
        b64_fits(blen(raw@)),
    ensures
        r@ == base64_url_nopad(utf8(raw@)),
{
    utf8_len_is_blen(raw);
    base64_url_encode(raw.as_bytes())
}

// ---------------------------------------------------------------------------
// Addresses
// ---------------------------------------------------------------------------

/// The address in `Name <address>`, or the whole text trimmed.
pub open spec fn parse_email_address_spec(from: Seq<char>) -> Seq<char> {
    if exists|i: int| first_char_index(from, '<', i) {
        let i = choose|i: int| first_char_index(from, '<', i);
        trim(strip_suffix_char_all(from.skip(i + 1), '>'))
    } else {
        trim(from)
    }
}

/// Extracts the address from a `From`-style header value.
pub fn parse_email_address(from: &str) -> (r: String)
    ensures
        r@ == parse_email_address_spec(from@),
{
    let v = chars_of(from);
    match find_char(&v, '<') {
        Some(i) => {
            proof {
                let k = choose|k: int| first_char_index(v@, '<', k);
                assert(k == i as int);
            }
            let rest = slice_chars(&v, i + 1, v.len());
            assert(rest@ == v@.skip(i + 1));
            let cut = strip_suffix_char_all_chars(&rest, '>');
            string_of(&trim_chars(&cut))
        },
        None => {
            assert(!exists|k: int| first_char_index(v@, '<', k));
            string_of(&trim_chars(&v))
        },
    }
}

/// The name in `Name <address>` without surrounding quotes, or the whole
/// text when there is no `<`.
pub open spec fn parse_email_name_spec(from: Seq<char>) -> Seq<char> {
    if exists|i: int| first_char_index(from, '<', i) {
        let i = choose|i: int| first_char_index(from, '<', i);
        strip_suffix_char_all(strip_prefix_all(trim(from.take(i)), seq!['"']), '"')
    } else {
        from
    }
}

/// Extracts the display name from a `From`-style header value.
pub fn parse_email_name(from: &str) -> (r: String)
    ensures
        r@ == parse_email_name_spec(from@),
{
    let v = chars_of(from);
    match find_char(&v, '<') {
        Some(i) => {
            proof {
                let k = choose|k: int| first_char_index(v@, '<', k);
                assert(k == i as int);
            }
            let head = slice_chars(&v, 0, i);
            assert(head@ == v@.take(i as int));
            let t = trim_chars(&head);
            let q: Vec<char> = vec!['"'];
            assert(q@ == seq!['"']);
            let a = crate::text::strip_prefix_all_chars(&t, &q);
            string_of(&strip_suffix_char_all_chars(&a, '"'))
        },
        None => {
            assert(!exists|k: int| first_char_index(v@, '<', k));
            from.to_owned()
        },
    }
}

// ---------------------------------------------------------------------------
// Forwarding
// ---------------------------------------------------------------------------

/// `&`, `<`, `>` and `"` replaced by their HTML entities.
pub open spec fn escape_html_spec(s: Seq<char>) -> Seq<char> {
    replace_all(
        replace_all(replace_all(replace_all(s, "&"@, "&amp;"@), "<"@, "&lt;"@), ">"@, "&gt;"@),
        "\""@,
        "&quot;"@,
    )
}

fn lemma_one_char_literals()
    ensures
        "&"@.len() > 0,
        "<"@.len() > 0,
        ">"@.len() > 0,
        "\""@.len() > 0,
        "\n"@.len() > 0,
        "\r\n"@.len() > 0,
{
    proof {
        reveal_strlit("&");
        reveal_strlit("<");
        reveal_strlit(">");
        reveal_strlit("\"");
        reveal_strlit("\n");
        reveal_strlit("\r\n");
    }
}

fn escape_html_text(s: &str) -> (r: Vec<char>)
    ensures
        r@ == escape_html_spec(s@),
{
    lemma_one_char_literals();
    let v = chars_of(s);
    let a = str_replace(&v, "&", "&amp;");
    let b = str_replace(&a, "<", "&lt;");
    let c = str_replace(&b, ">", "&gt;");
    str_replace(&c, "\"", "&quot;")
}

/// Plain text as HTML: escaped, with `<br>` before each line break (CRLF
/// becoming a bare newline).
pub open spec fn plain_text_to_html_spec(s: Seq<char>) -> Seq<char> {
    replace_all(replace_all(escape_html_spec(s), "\r\n"@, "<br>\n"@), "\n"@, "<br>\n"@)
}

fn plain_text_to_html(s: &str) -> (r: Vec<char>)
    ensures
        r@ == plain_text_to_html_spec(s@),
{
    lemma_one_char_literals();
    let e = escape_html_text(s);
    let a = str_replace(&e, "\r\n", "<br>\n");
    str_replace(&a, "\n", "<br>\n")
}

/// The HTML forward of a message: the comment (as HTML), the quote header
/// with the forwarded message's escaped fields, then its HTML body.
pub open spec fn forward_html_spec(
    comment: Option<&str>,
    from: Seq<char>,
    date: Seq<char>,
    subject: Seq<char>,
    to: Seq<char>,
    html: Seq<char>,
) -> Seq<char> {
    let c = match comment {
        Some(c) => (if looks_like_html_for_compose_spec(c@) {
            c@
        } else {
            "<div dir=\"ltr\">"@ + plain_text_to_html_spec(c@) + "</div>"@
        }) + "<br><br>"@,
        None => Seq::empty(),
    };
    c + "<div class=\"gmail_quote\">"@ + "<div dir=\"ltr\" class=\"gmail_attr\">"@
        + "---------- Forwarded message ---------<br>"@ + "From: "@ + escape_html_spec(from)
        + "<br>"@ + "Date: "@ + escape_html_spec(date) + "<br>"@ + "Subject: "@ + escape_html_spec(
        subject,
    ) + "<br>"@ + "To: "@ + escape_html_spec(to) + "<br>"@ + "</div><br>"@ + html + "</div>"@
}

/// The plain-text forward of a message: the comment, the quote header, then
/// its text body.
pub open spec fn forward_text_spec(
    comment: Option<&str>,
    from: Seq<char>,
    date: Seq<char>,
    subject: Seq<char>,
    to: Seq<char>,
    text: Option<&str>,
) -> Seq<char> {
    let c = match comment {
        Some(c) => c@ + "\r\n\r\n"@,
        None => Seq::empty(),
    };
    let t = match text {
        Some(t) => t@,
        None => Seq::empty(),
    };
    c + "---------- Forwarded message ---------\r\n"@ + "From: "@ + from + "\r\n"@ + "Date: "@ + date
        + "\r\n"@ + "Subject: "@ + subject + "\r\n"@ + "To: "@ + to + "\r\n"@ + "\r\n"@ + t
}

/// The forward body and whether it is HTML: HTML when the forwarded message has a
/// non-empty HTML body, plain text otherwise.
pub open spec fn forward_body_spec(
    comment: Option<&str>,
    from: Seq<char>,
    date: Seq<char>,
    subject: Seq<char>,
    to: Seq<char>,
    html_body: Option<&str>,
    text_body: Option<&str>,
) -> (Seq<char>, bool) {
    if html_body matches Some(h) && h@.len() > 0 {
        (forward_html_spec(comment, from, date, subject, to, html_body->0@), true)
    } else {
        (forward_text_spec(comment, from, date, subject, to, text_body), false)
    }
}

/// Builds a forwarded-message body (see [`forward_body_spec`]).
pub fn build_forward_body(
    comment: Option<&str>,
    orig_from: &str,
    orig_date: &str,
    orig_subject: &str,
    orig_to: &str,
    html_body: Option<&str>,
    text_body: Option<&str>,
) -> (r: (String, bool))
    ensures
        (r.0@, r.1) == forward_body_spec(comment, orig_from@, orig_date@, orig_subject@, orig_to@, html_body, text_body),
{
    if let Some(html) = html_body {
        if !html.is_empty() {
            let mut body: Vec<char> = Vec::new();
            if let Some(c) = comment {
                if looks_like_html_for_compose(c) {
                    append_str(&mut body, c);
                } else {
                    append_str(&mut body, "<div dir=\"ltr\">");
                    let h = plain_text_to_html(c);
                    append_chars(&mut body, &h);
                    append_str(&mut body, "</div>");
                }
                append_str(&mut body, "<br><br>");
            }
            append_str(&mut body, "<div class=\"gmail_quote\">");
            append_str(&mut body, "<div dir=\"ltr\" class=\"gmail_attr\">");
            append_str(&mut body, "---------- Forwarded message ---------<br>");
            append_str(&mut body, "From: ");
            append_chars(&mut body, &escape_html_text(orig_from));
            append_str(&mut body, "<br>");
            append_str(&mut body, "Date: ");
            append_chars(&mut body, &escape_html_text(orig_date));
            append_str(&mut body, "<br>");
            append_str(&mut body, "Subject: ");
            append_chars(&mut body, &escape_html_text(orig_subject));
            append_str(&mut body, "<br>");
            append_str(&mut body, "To: ");
            append_chars(&mut body, &escape_html_text(orig_to));
            append_str(&mut body, "<br>");
            append_str(&mut body, "</div><br>");
            append_str(&mut body, html);
            append_str(&mut body, "</div>");
            return (string_of(&body), true);
        }
    }
    let mut body: Vec<char> = Vec::new();
    if let Some(c) = comment {
        append_str(&mut body, c);
        append_str(&mut body, "\r\n\r\n");
    }
    append_str(&mut body, "---------- Forwarded message ---------\r\n");
    append_str(&mut body, "From: ");
    append_str(&mut body, orig_from);
    append_str(&mut body, "\r\n");
    append_str(&mut body, "Date: ");
    append_str(&mut body, orig_date);
    append_str(&mut body, "\r\n");
    append_str(&mut body, "Subject: ");
    append_str(&mut body, orig_subject);
    append_str(&mut body, "\r\n");
    append_str(&mut body, "To: ");
    append_str(&mut body, orig_to);
    append_str(&mut body, "\r\n");
    append_str(&mut body, "\r\n");
    match text_body {
        Some(t) => append_str(&mut body, t),
        None => {},
    }
    (string_of(&body), false)
}

// ---------------------------------------------------------------------------
// Signatures
// ---------------------------------------------------------------------------

/// Whether, and which, Gmail signature to append when composing.
#[derive(Debug, Clone, Copy, PartialEq, Eq)]
pub enum ComposeSignature<'a> {
    /// No signature.
    Omitted,
    /// The account's default send-as signature.
    Default,
    /// The signature of a specific send-as alias.
    From(&'a str),
}

impl<'a> Default for ComposeSignature<'a> {
    fn default() -> (s: ComposeSignature<'a>)
        ensures
            s is Omitted,
    {
        ComposeSignature::Omitted
    }
}

impl<'a> ComposeSignature<'a> {
    /// From the `--signature` / `--signature-from` flags.
    pub fn from_flags(enabled: bool, from: Option<&'a str>) -> (s: ComposeSignature<'a>)
        ensures
            !enabled ==> s is Omitted,
            enabled && from is None ==> s is Default,
            enabled && from is Some ==> s == ComposeSignature::From(from->0),
    {
        if !enabled {
            ComposeSignature::Omitted
        } else if let Some(email) = from {
            ComposeSignature::From(email)
        } else {
            ComposeSignature::Default
        }
    }

    /// The send-as address whose signature to use; `None` for the account
    /// default (and when no signature is asked for).
    pub fn send_as_email(self) -> (r: Option<&'a str>)
        ensures
            match self {
                ComposeSignature::From(e) => r == Some(e),
                _ => r is None,
            },
    {
        match self {
            ComposeSignature::Omitted => None,
            ComposeSignature::Default => None,
            ComposeSignature::From(email) => Some(email),
        }
    }
}

/// The signature block appended after a body.
pub open spec fn signature_block(sig: Seq<char>) -> Seq<char> {
    "<br><br><div class=\"gmail_signature\" data-smartmail=\"gmail_signature\">"@ + sig + "</div>"@
}

/// The body (as HTML) followed by the trimmed signature, or the body alone
/// when the signature is blank.
pub open spec fn append_signature_spec(body: Seq<char>, sig: Seq<char>) -> Seq<char> {
    let s = trim(sig);
    if s.len() == 0 {
        body
    } else {
        html_body_text(body, looks_like_html_for_compose_spec(body)) + signature_block(s)
    }
}

/// Appends a Gmail HTML signature to a message body; a plain-text body is
/// turned into HTML first.
pub fn append_gmail_signature(body: &str, signature_html: &str) -> (r: String)
    ensures
        r@ == append_signature_spec(body@, signature_html@),
{
    let s = trim_str(signature_html);
    if s.len() == 0 {
        return body.to_owned();
    }
    lemma_one_char_literals();
    let mut out = if looks_like_html_for_compose(body) {
        chars_of(body)
    } else {
        let bv = chars_of(body);
        str_replace(&bv, "\n", "<br>\n")
    };
    append_str(&mut out, "<br><br><div class=\"gmail_signature\" data-smartmail=\"gmail_signature\">");
    append_chars(&mut out, &s);
    append_str(&mut out, "</div>");
    string_of(&out)
}

/// The marker of the quoted part of a Gmail forward.
pub open spec fn quote_marker() -> Seq<char> {
    "<div class=\"gmail_quote\">"@
}

/// A forward body with the trimmed signature: between the comment and the
/// quote of an HTML forward, else appended (the body becoming HTML).
pub open spec fn forward_signature_spec(body: Seq<char>, is_html: bool, sig: Seq<char>) -> (Seq<char>, bool) {
    let s = trim(sig);
    if s.len() == 0 {
        (body, is_html)
    } else if is_html && exists|i: int| first_occurrence(body, quote_marker(), i) {
        let i = choose|i: int| first_occurrence(body, quote_marker(), i);
        (body.take(i) + signature_block(s) + "<br>"@ + body.skip(i), true)
    } else {
        (append_signature_spec(body, sig), true)
    }
}

/// Inserts a Gmail signature into a forward body (see
/// [`forward_signature_spec`]).
pub fn apply_signature_to_forward(body: &str, is_html: bool, signature_html: &str) -> (r: (String, bool))
    ensures
        (r.0@, r.1) == forward_signature_spec(body@, is_html, signature_html@),
{
    let s = trim_str(signature_html);
    if s.len() == 0 {
        return (body.to_owned(), is_html);
    }
    if is_html {
        let bv = chars_of(body);
        let marker = chars_of("<div class=\"gmail_quote\">");
        match find_chars(&bv, &marker) {
            Some(idx) => {
                proof {
                    assert(marker@ == quote_marker());
                    assert(first_occurrence(bv@, quote_marker(), idx as int));
                    let k = choose|k: int| first_occurrence(bv@, quote_marker(), k);
                    assert(k == idx as int) by {
                        if k < idx as int {
                            assert(!crate::text::occurs_at(bv@, quote_marker(), k));
                        } else if k > idx as int {
                            assert(!crate::text::occurs_at(bv@, quote_marker(), idx as int));
                        }
                    }
                }
                let mut out = slice_chars(&bv, 0, idx);
                append_str(&mut out, "<br><br><div class=\"gmail_signature\" data-smartmail=\"gmail_signature\">");
                append_chars(&mut out, &s);
                append_str(&mut out, "</div>");
                append_str(&mut out, "<br>");
                let tail = slice_chars(&bv, idx, bv.len());
                append_chars(&mut out, &tail);
                assert(tail@ == bv@.skip(idx as int));
                assert(out@ == bv@.take(idx as int) + signature_block(s@) + "<br>"@ + bv@.skip(idx as int));
                return (string_of(&out), true);
            },
            None => {},
        }
    }
    (append_gmail_signature(body, signature_html), true)
}

// ---------------------------------------------------------------------------
// Markdown rendering
// ---------------------------------------------------------------------------

/// `html_to_markdown_rs::convert` with default options, keeping the
/// rendered `content`; a conversion error counts as no content. Nothing is
/// claimed of the result: the converter is too large to state, and it is
/// not shown here to depend on `html` alone.
#[verifier::external_body]
pub(crate) fn convert_html(html: &str) -> (r: Option<String>) {
    html_to_markdown_rs::convert(html, None).ok().and_then(|result| result.content)
}

/// The Markdown rendered for some HTML when the converter rendered any,
/// else the HTML itself.
pub open spec fn rendered_or_html(rendered: Option<Seq<char>>, html: Seq<char>) -> Seq<char> {
    match rendered {
        Some(m) => m,
        None => html,
    }
}

/// Keeps `rendered` when the converter produced it, else `html` (see
/// [`rendered_or_html`]).
pub fn render_or_keep(rendered: Option<String>, html: &str) -> (r: String)
    ensures
        r@ == rendered_or_html(match rendered {
            Some(m) => Some(m@),
            None => None,
        }, html@),
{
    match rendered {
        Some(m) => m,
        None => html.to_owned(),
    }
}

/// Renders HTML as Markdown through html-to-markdown, keeping the HTML
/// itself when nothing is rendered. What the converter renders is not
/// stated (see [`convert_html`]); [`render_or_keep`] states the choice.
pub fn html_to_markdown(html: &str) -> String {
    render_or_keep(convert_html(html), html)
}

} // verus!
