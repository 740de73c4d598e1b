//! Gmail API messages: the payload model, header lookup, and the walk of the
//! MIME tree that finds text and HTML bodies, the attachment ids of large
//! bodies, and file attachments.

use vstd::prelude::*;
use base64::Engine;
use crate::text::{
    chars_of, eq_ignore_ascii_case, eq_ignore_ascii_case_chars, str_eq, string_of,
    strip_suffix_char_all, strip_suffix_char_all_chars,
};

verus! {

// ---------------------------------------------------------------------------
// Model
// ---------------------------------------------------------------------------

/// The account's profile.
#[derive(Debug, Clone)]
pub struct GmailProfile {
    pub email_address: Option<String>,
    pub history_id: Option<String>,
}

/// A page of message references.
#[derive(Debug, Clone)]
pub struct MessageListResponse {
    pub messages: Option<Vec<MessageRef>>,
    pub next_page_token: Option<String>,
}

/// A message id and its thread id.
#[derive(Debug, Clone)]
pub struct MessageRef {
    pub id: String,
    pub thread_id: String,
}

/// A page of mailbox history.
#[derive(Debug, Clone)]
pub struct HistoryListResponse {
    pub history: Option<Vec<HistoryRecord>>,
    pub history_id: Option<String>,
}

/// One history record: the messages it added.
#[derive(Debug, Clone)]
pub struct HistoryRecord {
    pub messages_added: Option<Vec<HistoryMessageAdded>>,
}

/// A message added to the mailbox.
#[derive(Debug, Clone)]
pub struct HistoryMessageAdded {
    pub message: MessageRef,
}

/// One header of a message or part.
#[derive(Debug, Clone)]
pub struct MessageHeader {
    pub name: String,
    pub value: String,
}

/// The body of a part: inline base64url `data`, or an `attachment_id` to
/// fetch when the body is large.
#[derive(Debug, Clone)]
pub struct MessagePartBody {
    pub attachment_id: Option<String>,
    pub size: Option<i64>,
    pub data: Option<String>,
}

/// A part of the MIME tree.
#[derive(Debug)]
pub struct MessagePart {
    pub part_id: Option<String>,
    pub mime_type: Option<String>,
    pub filename: Option<String>,
    pub headers: Option<Vec<MessageHeader>>,
    pub body: Option<MessagePartBody>,
    pub parts: Option<Vec<MessagePart>>,
}

/// The root of the MIME tree.
#[derive(Debug)]
pub struct MessagePayload {
    pub mime_type: Option<String>,
    pub headers: Option<Vec<MessageHeader>>,
    pub body: Option<MessagePartBody>,
    pub parts: Option<Vec<MessagePart>>,
}

/// A message.
#[derive(Debug)]
pub struct GmailMessage {
    pub id: Option<String>,
    pub thread_id: Option<String>,
    pub label_ids: Option<Vec<String>>,
    pub snippet: Option<String>,
    pub internal_date: Option<String>,
    pub payload: Option<MessagePayload>,
}

/// A file attached to a message.
#[derive(Debug, Clone)]
pub struct FileAttachment {
    pub filename: String,
    pub mime_type: Option<String>,
    pub size: Option<i64>,
    pub attachment_id: String,
}

pub open spec fn opt_view(o: Option<String>) -> Option<Seq<char>> {
    match o {
        Some(s) => Some(s@),
        None => None,
    }
}

fn copy_opt(o: &Option<String>) -> (r: Option<String>)
    ensures
        r == *o,
{
    match o {
        Some(s) => Some(s.clone()),
        None => None,
    }
}

// ---------------------------------------------------------------------------
// Headers
// ---------------------------------------------------------------------------

/// The value of the first header whose name equals `name`, ignoring ASCII
/// case.
pub open spec fn header_value(hs: Seq<MessageHeader>, name: Seq<char>) -> Option<Seq<char>>
    decreases hs.len(),
{
    if hs.len() == 0 {
        None
    } else if eq_ignore_ascii_case(hs[0].name@, name) {
        Some(hs[0].value@)
    } else {
        header_value(hs.drop_first(), name)
    }
}

/// The header `name` of a message, when it has a payload with headers.
pub open spec fn message_header(m: GmailMessage, name: Seq<char>) -> Option<Seq<char>> {
    match m.payload {
        Some(p) => match p.headers {
            Some(hs) => header_value(hs@, name),
            None => None,
        },
        None => None,
    }
}

fn find_header(hs: &Vec<MessageHeader>, name: &str) -> (r: Option<String>)
    ensures
        opt_view(r) == header_value(hs@, name@),
{
    let nv = chars_of(name);
    let mut i: usize = 0;
    assert(hs@.skip(0) == hs@);
    while i < hs.len()
        invariant
            i <= hs@.len(),
            nv@ == name@,
            header_value(hs@, name@) == header_value(hs@.skip(i as int), name@),
        decreases hs.len() - i,
    {
        assert(hs@.skip(i as int)[0] == hs@[i as int]);
        assert(hs@.skip(i as int).drop_first() == hs@.skip(i + 1));
        let hn = chars_of(hs[i].name.as_str());
        if eq_ignore_ascii_case_chars(&hn, &nv) {
            return Some(hs[i].value.clone());
        }
        i = i + 1;
    }
    None
}

// ---------------------------------------------------------------------------
// Body decoding
// ---------------------------------------------------------------------------

/// The bytes that unpadded base64url decoding gives for `s`, when it is valid.
pub uninterp spec fn base64_url_decoded(s: Seq<char>) -> Option<Seq<u8>>;

/// `Engine::decode` of base64 with the `URL_SAFE_NO_PAD` engine. Claimed: it
/// succeeds exactly when [`base64_url_decoded`] of `s` is some bytes, and
/// gives those bytes; the result depends on `s` alone.
#[verifier::external_body]
fn base64_url_decode(s: &str) -> (r: Option<Vec<u8>>)
    ensures
        match r {
            Some(v) => base64_url_decoded(s@) == Some(v@),
            None => base64_url_decoded(s@) is None,
        },
{
    base64::engine::general_purpose::URL_SAFE_NO_PAD.decode(s).ok()
}

/// `String::from_utf8` of std. Claimed, as its documentation says: it
/// succeeds exactly on valid UTF-8, and the string holds the decoded
/// characters.
#[verifier::external_body]
fn utf8_string(bytes: Vec<u8>) -> (r: Option<String>)
    ensures
        r is Some <==> vstd::utf8::valid_utf8(bytes@),
        r matches Some(s) ==> s@ == vstd::utf8::decode_utf8(bytes@),
{
    String::from_utf8(bytes).ok()
}

/// The text encoded in base64url `data` (trailing `=` ignored), when it
/// decodes to valid UTF-8.
pub open spec fn decode_data_spec(data: Seq<char>) -> Option<Seq<char>> {
    match base64_url_decoded(strip_suffix_char_all(data, '=')) {
        Some(bytes) => if vstd::utf8::valid_utf8(bytes) {
            Some(vstd::utf8::decode_utf8(bytes))
        } else {
            None
        },
        None => None,
    }
}

/// Decodes base64url attachment data to text (see [`decode_data_spec`]).
pub fn decode_attachment_data(data: &str) -> (r: Option<String>)
    ensures
        opt_view(r) == decode_data_spec(data@),
{
    let v = chars_of(data);
    let t = string_of(&strip_suffix_char_all_chars(&v, '='));
    match base64_url_decode(t.as_str()) {
        Some(bytes) => utf8_string(bytes),
        None => None,
    }
}

/// The inline text of a body, when it has data that decodes.
pub open spec fn body_text(body: Option<MessagePartBody>) -> Option<Seq<char>> {
    match body {
        Some(b) => match b.data {
            Some(d) => decode_data_spec(d@),
            None => None,
        },
        None => None,
    }
}

fn decode_body_data(body: &Option<MessagePartBody>) -> (r: Option<String>)
    ensures
        opt_view(r) == body_text(*body),
{
    match body {
        Some(b) => match &b.data {
            Some(d) => decode_attachment_data(d.as_str()),
            None => None,
        },
        None => None,
    }
}

// ---------------------------------------------------------------------------
// The MIME tree
// ---------------------------------------------------------------------------

pub open spec fn mime_is(mime: Option<String>, target: Seq<char>) -> bool {
    mime matches Some(m) && m@ == target
}

fn mime_matches(mime: &Option<String>, target: &str) -> (r: bool)
    ensures
        r == mime_is(*mime, target@),
{
    match mime {
        Some(m) => str_eq(m.as_str(), target),
        None => false,
    }
}

/// The body of type `target` in the subtree of `p`: a part of that type
/// answers with its decoded body (nothing when it does not decode, and its
/// own parts are not searched); another part answers with the first answer
/// among its parts.
pub open spec fn part_text(p: MessagePart, target: Seq<char>) -> Option<Seq<char>>
    decreases p,
{
    if mime_is(p.mime_type, target) {
        body_text(p.body)
    } else {
        match p.parts {
            Some(ps) => parts_text(ps@, target),
            None => None,
        }
    }
}

/// The first answer among `ps`, in order.
pub open spec fn parts_text(ps: Seq<MessagePart>, target: Seq<char>) -> Option<Seq<char>>
    decreases ps,
{
    if ps.len() == 0 {
        None
    } else {
        match part_text(ps[0], target) {
            Some(x) => Some(x),
            None => parts_text(ps.drop_first(), target),
        }
    }
}

/// The body of type `target` of a payload, searched as [`part_text`] does.
pub open spec fn payload_text(p: MessagePayload, target: Seq<char>) -> Option<Seq<char>> {
    if mime_is(p.mime_type, target) {
        body_text(p.body)
    } else {
        match p.parts {
            Some(ps) => parts_text(ps@, target),
            None => None,
        }
    }
}

fn extract_body_from_part(part: &MessagePart, target: &str) -> (r: Option<String>)
    ensures
        opt_view(r) == part_text(*part, target@),
    decreases part,
{
    if mime_matches(&part.mime_type, target) {
        return decode_body_data(&part.body);
    }
    match &part.parts {
        Some(ps) => extract_body_from_parts(ps, target),
        None => None,
    }
}

fn extract_body_from_parts(ps: &Vec<MessagePart>, target: &str) -> (r: Option<String>)
    ensures
        opt_view(r) == parts_text(ps@, target@),
    decreases ps,
{
    let mut i: usize = 0;
    assert(ps@.skip(0) == ps@);
    while i < ps.len()
        invariant
            i <= ps@.len(),
            parts_text(ps@, target@) == parts_text(ps@.skip(i as int), target@),
        decreases ps.len() - i,
    {
        assert(ps@.skip(i as int)[0] == ps@[i as int]);
        assert(ps@.skip(i as int).drop_first() == ps@.skip(i + 1));
        if let Some(result) = extract_body_from_part(&ps[i], target) {
            return Some(result);
        }
        i = i + 1;
    }
    None
}

fn extract_body_by_mime(payload: &MessagePayload, target: &str) -> (r: Option<String>)
    ensures
        opt_view(r) == payload_text(*payload, target@),
{
    if mime_matches(&payload.mime_type, target) {
        return decode_body_data(&payload.body);
    }
    match &payload.parts {
        Some(ps) => extract_body_from_parts(ps, target),
        None => None,
    }
}

/// The attachment id of the part of type `target` whose body has no inline
/// data; a part of that type with inline data (or no body) is passed over
/// and its own parts searched.
pub open spec fn part_attachment_id(p: MessagePart, target: Seq<char>) -> Option<Seq<char>>
    decreases p,
{
    if mime_is(p.mime_type, target) && p.body is Some && p.body->0.data is None {
        opt_view(p.body->0.attachment_id)
    } else {
        match p.parts {
            Some(ps) => parts_attachment_id(ps@, target),
            None => None,
        }
    }
}

pub open spec fn parts_attachment_id(ps: Seq<MessagePart>, target: Seq<char>) -> Option<Seq<char>>
    decreases ps,
{
    if ps.len() == 0 {
        None
    } else {
        match part_attachment_id(ps[0], target) {
            Some(x) => Some(x),
            None => parts_attachment_id(ps.drop_first(), target),
        }
    }
}

pub open spec fn payload_attachment_id(p: MessagePayload, target: Seq<char>) -> Option<Seq<char>> {
    if mime_is(p.mime_type, target) && p.body is Some && p.body->0.data is None {
        opt_view(p.body->0.attachment_id)
    } else {
        match p.parts {
            Some(ps) => parts_attachment_id(ps@, target),
            None => None,
        }
    }
}

fn attachment_id_in_part(part: &MessagePart, target: &str) -> (r: Option<String>)
    ensures
        opt_view(r) == part_attachment_id(*part, target@),
    decreases part,
{
    if mime_matches(&part.mime_type, target) {
        if let Some(body) = &part.body {
            if body.data.is_none() {
                return copy_opt(&body.attachment_id);
            }
        }
    }
    match &part.parts {
        Some(ps) => attachment_id_in_parts(ps, target),
        None => None,
    }
}

fn attachment_id_in_parts(ps: &Vec<MessagePart>, target: &str) -> (r: Option<String>)
    ensures
        opt_view(r) == parts_attachment_id(ps@, target@),
    decreases ps,
{
    let mut i: usize = 0;
    assert(ps@.skip(0) == ps@);
    while i < ps.len()
        invariant
            i <= ps@.len(),
            parts_attachment_id(ps@, target@) == parts_attachment_id(ps@.skip(i as int), target@),
        decreases ps.len() - i,
    {
        assert(ps@.skip(i as int)[0] == ps@[i as int]);
        assert(ps@.skip(i as int).drop_first() == ps@.skip(i + 1));
        if let Some(id) = attachment_id_in_part(&ps[i], target) {
            return Some(id);
        }
        i = i + 1;
    }
    None
}

fn find_attachment_id_by_mime(payload: &MessagePayload, target: &str) -> (r: Option<String>)
    ensures
        opt_view(r) == payload_attachment_id(*payload, target@),
{
    if mime_matches(&payload.mime_type, target) {
        if let Some(body) = &payload.body {
            if body.data.is_none() {
                return copy_opt(&body.attachment_id);
            }
        }
    }
    match &payload.parts {
        Some(ps) => attachment_id_in_parts(ps, target),
        None => None,
    }
}

/// The file attachment a part stands for: a non-empty filename and a body
/// with an attachment id.
pub open spec fn part_file(p: MessagePart) -> Seq<FileAttachment> {
    if p.filename is Some && p.filename->0@.len() > 0 && p.body is Some && p.body->0.attachment_id is Some {
        seq![
            FileAttachment {
                filename: p.filename->0,
                mime_type: p.mime_type,
                size: p.body->0.size,
                attachment_id: p.body->0.attachment_id->0,
            },
        ]
    } else {
        Seq::empty()
    }
}

/// The file attachments of the subtree of `p`, the part itself first, then
/// its parts in order.
pub open spec fn part_files(p: MessagePart) -> Seq<FileAttachment>
    decreases p,
{
    part_file(p) + match p.parts {
        Some(ps) => parts_files(ps@),
        None => Seq::empty(),
    }
}

pub open spec fn parts_files(ps: Seq<MessagePart>) -> Seq<FileAttachment>
    decreases ps,
{
    if ps.len() == 0 {
        Seq::empty()
    } else {
        part_files(ps[0]) + parts_files(ps.drop_first())
    }
}

fn collect_file_attachments(part: &MessagePart, out: &mut Vec<FileAttachment>)
    ensures
        final(out)@ == old(out)@ + part_files(*part),
    decreases part,
{
    let ghost before = out@;
    if let Some(filename) = &part.filename {
        if !filename.as_str().is_empty() {
            if let Some(b) = &part.body {
                if let Some(aid) = &b.attachment_id {
                    out.push(
                        FileAttachment {
                            filename: filename.clone(),
                            mime_type: copy_opt(&part.mime_type),
                            size: b.size,
                            attachment_id: aid.clone(),
                        },
                    );
                }
            }
        }
    }
    assert(out@ == before + part_file(*part));
    let ghost mid = out@;
    match &part.parts {
        Some(ps) => {
            collect_files_in_parts(ps, out);
        },
        None => {
            assert(out@ == mid + Seq::<FileAttachment>::empty());
        },
    }
}

fn collect_files_in_parts(ps: &Vec<MessagePart>, out: &mut Vec<FileAttachment>)
    ensures
        final(out)@ == old(out)@ + parts_files(ps@),
    decreases ps,
{
    let mut i: usize = 0;
    assert(ps@.skip(0) == ps@);
    while i < ps.len()
        invariant
            i <= ps@.len(),
            old(out)@ + parts_files(ps@) == out@ + parts_files(ps@.skip(i as int)),
        decreases ps.len() - i,
    {
        assert(ps@.skip(i as int)[0] == ps@[i as int]);
        assert(ps@.skip(i as int).drop_first() == ps@.skip(i + 1));
        collect_file_attachments(&ps[i], out);
        i = i + 1;
    }
    assert(ps@.skip(i as int).len() == 0);
}

/// The part reached from `p` by following `path`, each step an index into
/// the parts of the part reached so far; `None` when an index is out of
/// range or a part has no parts.
pub open spec fn subpart_at(p: MessagePart, path: Seq<int>) -> Option<MessagePart>
    decreases path.len(),
{
    if path.len() == 0 {
        Some(p)
    } else {
        match p.parts {
            Some(ps) => if 0 <= path[0] < ps@.len() {
                subpart_at(ps@[path[0]], path.drop_first())
            } else {
                None
            },
            None => None,
        }
    }
}

/// A part names a downloadable file: a non-empty filename and a body that
/// carries an attachment id.
pub open spec fn names_file(q: MessagePart) -> bool {
    &&& q.filename matches Some(f) && f@.len() > 0
    &&& q.body matches Some(b) && b.attachment_id is Some
}

proof fn lemma_parts_files_has_child(ps: Seq<MessagePart>, i: int, x: FileAttachment)
    requires
        0 <= i < ps.len(),
        part_files(ps[i]).contains(x),
    ensures
        parts_files(ps).contains(x),
    decreases i,
{
    let k = choose|k: int| 0 <= k < part_files(ps[i]).len() && part_files(ps[i])[k] == x;
    if i == 0 {
        let all = part_files(ps[0]) + parts_files(ps.drop_first());
        assert(all[k] == x);
    } else {
        assert(ps.drop_first()[i - 1] == ps[i]);
        lemma_parts_files_has_child(ps.drop_first(), i - 1, x);
        let t = parts_files(ps.drop_first());
        let j = choose|j: int| 0 <= j < t.len() && t[j] == x;
        let all = part_files(ps[0]) + t;
        assert(all[part_files(ps[0]).len() + j] == x);
    }
}

/// Every part anywhere below `p` (at any depth, `p` itself included) that
/// names a file is among the file attachments of `p`'s subtree, with its
/// filename, MIME type, size and attachment id.
pub proof fn lemma_nested_files_collected(p: MessagePart, path: Seq<int>, q: MessagePart)
    requires
        subpart_at(p, path) == Some(q),
        names_file(q),
    ensures
        part_files(p).contains(
            FileAttachment {
                filename: q.filename->0,
                mime_type: q.mime_type,
                size: q.body->0.size,
                attachment_id: q.body->0.attachment_id->0,
            },
        ),
    decreases path.len(),
{
    let x = FileAttachment {
        filename: q.filename->0,
        mime_type: q.mime_type,
        size: q.body->0.size,
        attachment_id: q.body->0.attachment_id->0,
    };
    if path.len() == 0 {
        assert(q == p);
        assert(part_file(p) == seq![x]);
        assert(part_files(p)[0] == x);
    } else {
        let ps = p.parts->0;
        let c = ps@[path[0]];
        lemma_nested_files_collected(c, path.drop_first(), q);
        lemma_parts_files_has_child(ps@, path[0], x);
        let t = parts_files(ps@);
        let j = choose|j: int| 0 <= j < t.len() && t[j] == x;
        assert(part_files(p) == part_file(p) + t);
        assert(part_files(p)[part_file(p).len() + j] == x);
    }
}

/// Every part that names a file, at any depth below one of the payload's
/// parts, is among the message's file attachments: wrapping an attachment
/// in further multipart parts does not hide it.
pub proof fn lemma_message_files_reach_every_depth(m: GmailMessage, i: int, path: Seq<int>, q: MessagePart)
    requires
        m.payload matches Some(pl) && pl.parts matches Some(ps) && 0 <= i < ps@.len() && subpart_at(
            ps@[i],
            path,
        ) == Some(q),
        names_file(q),
    ensures
        message_files(m).contains(
            FileAttachment {
                filename: q.filename->0,
                mime_type: q.mime_type,
                size: q.body->0.size,
                attachment_id: q.body->0.attachment_id->0,
            },
        ),
{
    let ps = m.payload->0.parts->0;
    lemma_nested_files_collected(ps@[i], path, q);
    lemma_parts_files_has_child(
        ps@,
        i,
        FileAttachment {
            filename: q.filename->0,
            mime_type: q.mime_type,
            size: q.body->0.size,
            attachment_id: q.body->0.attachment_id->0,
        },
    );
}

// ---------------------------------------------------------------------------
// Message accessors
// ---------------------------------------------------------------------------

/// The file attachments of a message: those under the payload's parts.
pub open spec fn message_files(m: GmailMessage) -> Seq<FileAttachment> {
    match m.payload {
        Some(p) => match p.parts {
            Some(ps) => parts_files(ps@),
            None => Seq::empty(),
        },
        None => Seq::empty(),
    }
}

impl GmailMessage {
    /// The value of header `name`, compared ignoring ASCII case.
    pub fn get_header(&self, name: &str) -> (r: Option<String>)
        ensures
            opt_view(r) == message_header(*self, name@),
    {
        match &self.payload {
            Some(p) => match &p.headers {
                Some(hs) => find_header(hs, name),
                None => None,
            },
            None => None,
        }
    }

    /// The plain text body, found by walking the MIME tree.
    pub fn text_body(&self) -> (r: Option<String>)
        ensures
            opt_view(r) == match self.payload {
                Some(p) => payload_text(p, "text/plain"@),
                None => None,
            },
    {
        match &self.payload {
            Some(p) => extract_body_by_mime(p, "text/plain"),
            None => None,
        }
    }

    /// The HTML body, found by walking the MIME tree.
    pub fn html_body(&self) -> (r: Option<String>)
        ensures
            opt_view(r) == match self.payload {
                Some(p) => payload_text(p, "text/html"@),
                None => None,
            },
    {
        match &self.payload {
            Some(p) => extract_body_by_mime(p, "text/html"),
            None => None,
        }
    }

    /// The attachment id of the `text/plain` part when its data is absent
    /// (a large body).
    pub fn text_body_attachment_id(&self) -> (r: Option<String>)
        ensures
            opt_view(r) == match self.payload {
                Some(p) => payload_attachment_id(p, "text/plain"@),
                None => None,
            },
    {
        match &self.payload {
            Some(p) => find_attachment_id_by_mime(p, "text/plain"),
            None => None,
        }
    }

    /// The attachment id of the `text/html` part when its data is absent
    /// (a large body).
    pub fn html_body_attachment_id(&self) -> (r: Option<String>)
        ensures
            opt_view(r) == match self.payload {
                Some(p) => payload_attachment_id(p, "text/html"@),
                None => None,
            },
    {
        match &self.payload {
            Some(p) => find_attachment_id_by_mime(p, "text/html"),
            None => None,
        }
    }

    /// All file attachments: parts with a non-empty filename and an
    /// attachment id, in tree order.
    pub fn file_attachments(&self) -> (r: Vec<FileAttachment>)
        ensures
            r@ == message_files(*self),
    {
        let mut out: Vec<FileAttachment> = Vec::new();
        if let Some(p) = &self.payload {
            if let Some(ps) = &p.parts {
                collect_files_in_parts(ps, &mut out);
                assert(out@ == Seq::<FileAttachment>::empty() + parts_files(ps@));
            }
        }
        out
    }
}

/// The web URL of a thread.
pub fn gmail_url(thread_id: &str) -> (r: String)
    ensures
        r@ == "https://mail.google.com/mail/u/0/#inbox/"@ + thread_id@,
{
    let mut v = chars_of("https://mail.google.com/mail/u/0/#inbox/");
    crate::text::append_str(&mut v, thread_id);
    string_of(&v)
}

} // verus!
