//! LinkedIn through Unipile: the API base, the payload model, what a message
//! yields (text, media type), sender profiles, and the profile cache with
//! the decisions of a lookup.

use base64::Engine;
use vstd::prelude::*;
use crate::time::{parse_rfc3339_seconds, rfc3339_seconds, utc_now_seconds};
use crate::json::{json_get, json_member, members_view, obj_insert, obj_set, str_or_null, Json};
use crate::text::{
    append_chars, append_str, chars_of, contains, contains_chars, ends_with, ends_with_chars,
    starts_with, str_contains, str_eq, str_starts_with, string_of, strip_suffix_char_all,
    strip_suffix_char_all_chars, trim, trim_chars, trim_str,
};

verus! {

// ---------------------------------------------------------------------------
// API base
// ---------------------------------------------------------------------------

/// The DSN trimmed and without trailing slashes, with `https://` in front when
/// it names no scheme, and `/api/v1` after it unless already there.
pub open spec fn normalize_api_base_spec(dsn: Seq<char>) -> Seq<char> {
    let t = strip_suffix_char_all(trim(dsn), '/');
    let u = if contains(t, "://"@) {
        t
    } else {
        "https://"@ + t
    };
    if ends_with(u, "/api/v1"@) {
        u
    } else {
        u + "/api/v1"@
    }
}

/// Normalizes a Unipile DSN (base URL) to `https://{host}/api/v1`.
pub fn normalize_api_base(dsn: &str) -> (r: String)
    ensures
        r@ == normalize_api_base_spec(dsn@),
{
    let t0 = trim_str(dsn);
    let t = strip_suffix_char_all_chars(&t0, '/');
    let scheme = chars_of("://");
    let u = if contains_chars(&t, &scheme) {
        t
    } else {
        let mut v = chars_of("https://");
        append_chars(&mut v, &t);
        v
    };
    let suffix = chars_of("/api/v1");
    if ends_with_chars(&u, &suffix) {
        string_of(&u)
    } else {
        let mut v = u;
        append_chars(&mut v, &suffix);
        string_of(&v)
    }
}

// ---------------------------------------------------------------------------
// Payloads
// ---------------------------------------------------------------------------

/// A page of a list endpoint.
#[derive(Debug, Clone)]
pub struct ListResponse<T> {
    pub items: Vec<T>,
    pub cursor: Option<String>,
}

/// A chat (conversation).
#[derive(Debug, Clone)]
pub struct UnipileChat {
    pub id: String,
    pub name: Option<String>,
    pub account_id: Option<String>,
    pub account_type: Option<String>,
    pub provider_id: Option<String>,
    pub attendee_provider_id: Option<String>,
    /// The `type` field of the payload.
    pub kind: Option<i32>,
    pub timestamp: Option<String>,
    pub unread_count: Option<i32>,
    pub pinned: Option<bool>,
    pub archived: Option<bool>,
    pub read_only: Option<bool>,
}

/// A message of a chat.
#[derive(Debug, Clone)]
pub struct UnipileMessage {
    pub id: String,
    pub chat_id: Option<String>,
    pub account_id: Option<String>,
    pub provider_id: Option<String>,
    pub chat_provider_id: Option<String>,
    pub sender_id: Option<String>,
    pub sender_attendee_id: Option<String>,
    pub text: Option<String>,
    pub attachments: Option<Vec<UnipileAttachment>>,
    pub timestamp: Option<String>,
    pub is_sender: Option<bool>,
    pub seen: Option<bool>,
    pub delivered: Option<bool>,
    pub hidden: Option<bool>,
    pub deleted: Option<bool>,
    pub edited: Option<bool>,
    pub is_event: Option<bool>,
    pub event_type: Option<i32>,
    pub message_type: Option<String>,
}

/// A file attached to a message.
#[derive(Debug, Clone)]
pub struct UnipileAttachment {
    pub id: String,
    pub mimetype: Option<String>,
    /// The `type` field of the payload.
    pub kind: Option<String>,
    pub url: Option<String>,
    pub unavailable: Option<bool>,
    pub sticker: Option<bool>,
}

/// A LinkedIn user as the users endpoint describes them.
#[derive(Debug, Clone)]
pub struct UnipileUserProfile {
    pub provider_id: String,
    pub first_name: Option<String>,
    pub last_name: Option<String>,
    pub public_identifier: Option<String>,
    pub profile_picture_url: Option<String>,
    pub public_profile_url: Option<String>,
}

/// A participant of a chat.
#[derive(Debug, Clone)]
pub struct UnipileChatAttendee {
    pub id: String,
    pub name: Option<String>,
    pub provider_id: String,
    pub profile_url: Option<String>,
    pub picture_url: Option<String>,
}

/// The connected account.
#[derive(Debug, Clone)]
pub struct AccountResponse {
    pub id: Option<String>,
    /// The `type` field of the payload.
    pub kind: Option<String>,
}

impl Default for UnipileMessage {
    fn default() -> (m: UnipileMessage)
        ensures
            m.id@.len() == 0,
            m.chat_id is None && m.account_id is None && m.provider_id is None,
            m.chat_provider_id is None && m.sender_id is None && m.sender_attendee_id is None,
            m.text is None && m.attachments is None && m.timestamp is None,
            m.is_sender is None && m.seen is None && m.delivered is None && m.hidden is None,
            m.deleted is None && m.edited is None && m.is_event is None,
            m.event_type is None && m.message_type is None,
    {
        UnipileMessage {
            id: String::new(),
            chat_id: None,
            account_id: None,
            provider_id: None,
            chat_provider_id: None,
            sender_id: None,
            sender_attendee_id: None,
            text: None,
            attachments: None,
            timestamp: None,
            is_sender: None,
            seen: None,
            delivered: None,
            hidden: None,
            deleted: None,
            edited: None,
            is_event: None,
            event_type: None,
            message_type: None,
        }
    }
}

impl Default for UnipileAttachment {
    fn default() -> (a: UnipileAttachment)
        ensures
            a.id@.len() == 0,
            a.mimetype is None && a.kind is None && a.url is None,
            a.unavailable is None && a.sticker is None,
    {
        UnipileAttachment { id: String::new(), mimetype: None, kind: None, url: None, unavailable: None, sticker: None }
    }
}

impl Default for UnipileUserProfile {
    fn default() -> (u: UnipileUserProfile)
        ensures
            u.provider_id@.len() == 0,
            u.first_name is None && u.last_name is None && u.public_identifier is None,
            u.profile_picture_url is None && u.public_profile_url is None,
    {
        UnipileUserProfile {
            provider_id: String::new(),
            first_name: None,
            last_name: None,
            public_identifier: None,
            profile_picture_url: None,
            public_profile_url: None,
        }
    }
}

impl Default for UnipileChatAttendee {
    fn default() -> (a: UnipileChatAttendee)
        ensures
            a.id@.len() == 0 && a.provider_id@.len() == 0,
            a.name is None && a.profile_url is None && a.picture_url is None,
    {
        UnipileChatAttendee { id: String::new(), name: None, provider_id: String::new(), profile_url: None, picture_url: None }
    }
}

pub open spec fn flag(b: Option<bool>) -> bool {
    match b {
        Some(v) => v,
        None => false,
    }
}

/// A message is stored when it has an id and is neither deleted, hidden nor
/// an event.
pub open spec fn syncable(m: UnipileMessage) -> bool {
    m.id@.len() > 0 && !flag(m.deleted) && !flag(m.hidden) && !flag(m.is_event)
}

impl UnipileMessage {
    /// Whether this payload should be stored in the inbox.
    pub fn is_syncable(&self) -> (r: bool)
        ensures
            r == syncable(*self),
    {
        if self.id.as_str().is_empty() {
            return false;
        }
        if self.deleted.unwrap_or(false) {
            return false;
        }
        if self.hidden.unwrap_or(false) {
            return false;
        }
        if self.is_event.unwrap_or(false) {
            return false;
        }
        true
    }
}

/// The name of a user: first and last names trimmed and joined by a space,
/// or the one given; `None` when no non-empty name is given.
pub open spec fn display_name_spec(first: Option<Seq<char>>, last: Option<Seq<char>>) -> Option<Seq<char>> {
    match (first, last) {
        (Some(f), Some(l)) => if f.len() > 0 || l.len() > 0 {
            Some(trim(trim(f) + " "@ + trim(l)))
        } else {
            None
        },
        (Some(f), None) => if f.len() > 0 {
            Some(trim(f))
        } else {
            None
        },
        (None, Some(l)) => if l.len() > 0 {
            Some(trim(l))
        } else {
            None
        },
        (None, None) => None,
    }
}

pub open spec fn opt_view(o: Option<String>) -> Option<Seq<char>> {
    match o {
        Some(s) => Some(s@),
        None => None,
    }
}

/// The profile URL of a user: the public profile URL when not empty, else
/// the public identifier, itself when it is a URL, else under
/// `https://www.linkedin.com/in/`.
pub open spec fn profile_url_spec(public_profile_url: Option<Seq<char>>, public_identifier: Option<Seq<char>>) -> Option<Seq<char>> {
    if public_profile_url matches Some(u) && u.len() > 0 {
        public_profile_url
    } else {
        match public_identifier {
            Some(id) => if starts_with(id, "http"@) {
                Some(id)
            } else {
                Some("https://www.linkedin.com/in/"@ + id)
            },
            None => None,
        }
    }
}

impl UnipileUserProfile {
    /// The user's name (see [`display_name_spec`]).
    pub fn display_name(&self) -> (r: Option<String>)
        ensures
            opt_view(r) == display_name_spec(opt_view(self.first_name), opt_view(self.last_name)),
    {
        match (&self.first_name, &self.last_name) {
            (Some(f), Some(l)) => {
                if !f.as_str().is_empty() || !l.as_str().is_empty() {
                    let mut v = trim_str(f.as_str());
                    append_str(&mut v, " ");
                    let lt = trim_str(l.as_str());
                    append_chars(&mut v, &lt);
                    let t = trim_chars(&v);
                    Some(string_of(&t))
                } else {
                    None
                }
            },
            (Some(f), None) => {
                if !f.as_str().is_empty() {
                    Some(string_of(&trim_str(f.as_str())))
                } else {
                    None
                }
            },
            (None, Some(l)) => {
                if !l.as_str().is_empty() {
                    Some(string_of(&trim_str(l.as_str())))
                } else {
                    None
                }
            },
            (None, None) => None,
        }
    }

    /// The user's profile URL (see [`profile_url_spec`]).
    pub fn profile_url(&self) -> (r: Option<String>)
        ensures
            opt_view(r) == profile_url_spec(opt_view(self.public_profile_url), opt_view(self.public_identifier)),
    {
        if let Some(url) = &self.public_profile_url {
            if !url.as_str().is_empty() {
                return Some(url.clone());
            }
        }
        match &self.public_identifier {
            Some(id) => {
                if str_starts_with(id.as_str(), "http") {
                    Some(id.clone())
                } else {
                    let mut v = chars_of("https://www.linkedin.com/in/");
                    append_str(&mut v, id.as_str());
                    Some(string_of(&v))
                }
            },
            None => None,
        }
    }
}

// ---------------------------------------------------------------------------
// What a message yields
// ---------------------------------------------------------------------------

/// The trimmed text of a message, unless it is missing or blank.
pub open spec fn extract_text_spec(text: Option<Seq<char>>) -> Option<Seq<char>> {
    match text {
        Some(t) => if trim(t).len() > 0 {
            Some(trim(t))
        } else {
            None
        },
        None => None,
    }
}

/// The text of a message, trimmed, when it is not blank.
pub fn extract_text(msg: &UnipileMessage) -> (r: Option<String>)
    ensures
        opt_view(r) == extract_text_spec(opt_view(msg.text)),
{
    match &msg.text {
        Some(t) => {
            let tt = trim_str(t.as_str());
            if tt.len() > 0 {
                Some(string_of(&tt))
            } else {
                None
            }
        },
        None => None,
    }
}

/// The media type from an attachment's MIME type: `image`, `video`, `audio`
/// by prefix, `document` otherwise or when there is none.
pub open spec fn media_from_mime(mime: Option<Seq<char>>) -> Seq<char> {
    match mime {
        Some(m) => if starts_with(m, "image/"@) {
            "image"@
        } else if starts_with(m, "video/"@) {
            "video"@
        } else if starts_with(m, "audio/"@) {
            "audio"@
        } else {
            "document"@
        },
        None => "document"@,
    }
}

/// The media type of the first attachment: from its declared type when that
/// is one of `img`, `video`, `audio`, `file`, `document`, else from its MIME
/// type. `None` when the message has no attachment.
pub open spec fn media_type_spec(attachments: Option<Seq<UnipileAttachment>>) -> Option<Seq<char>> {
    match attachments {
        Some(atts) => if atts.len() == 0 {
            None
        } else {
            let a = atts[0];
            Some(
                match opt_view(a.kind) {
                    Some(k) => if k == "img"@ {
                        "image"@
                    } else if k == "video"@ {
                        "video"@
                    } else if k == "audio"@ {
                        "audio"@
                    } else if k == "file"@ || k == "document"@ {
                        "document"@
                    } else {
                        media_from_mime(opt_view(a.mimetype))
                    },
                    None => media_from_mime(opt_view(a.mimetype)),
                },
            )
        },
        None => None,
    }
}

fn media_from_mime_exec(mime: &Option<String>) -> (r: String)
    ensures
        r@ == media_from_mime(opt_view(*mime)),
{
    match mime {
        Some(m) => {
            if str_starts_with(m.as_str(), "image/") {
                String::from_str("image")
            } else if str_starts_with(m.as_str(), "video/") {
                String::from_str("video")
            } else if str_starts_with(m.as_str(), "audio/") {
                String::from_str("audio")
            } else {
                String::from_str("document")
            }
        },
        None => String::from_str("document"),
    }
}

/// The media type of a message follows its first attachment: a declared
/// kind `img`, `video` or `audio` gives `image`, `video` or `audio`, and
/// `file` or `document` gives `document`; without one of these kinds, a
/// MIME type starting `image/`, `video/` or `audio/` gives that family and
/// anything else `document`. It is always one of these four families, and a
/// message without attachments has none.
pub proof fn lemma_media_type_follows_attachment(atts: Seq<UnipileAttachment>)
    ensures
        atts.len() == 0 ==> media_type_spec(Some(atts)) is None,
        media_type_spec(None) is None,
        atts.len() > 0 ==> ({
            let k = opt_view(atts[0].kind);
            let mt = opt_view(atts[0].mimetype);
            let r = media_type_spec(Some(atts));
            &&& (k == Some("img"@) ==> r == Some("image"@))
            &&& (k == Some("video"@) ==> r == Some("video"@))
            &&& (k == Some("audio"@) ==> r == Some("audio"@))
            &&& (k == Some("file"@) || k == Some("document"@) ==> r == Some("document"@))
            &&& (k != Some("img"@) && k != Some("video"@) && k != Some("audio"@) && k != Some("file"@)
                && k != Some("document"@) ==> ((mt matches Some(m) && starts_with(m, "image/"@)) ==> r == Some(
                "image"@,
            )) && ((mt matches Some(m) && !starts_with(m, "image/"@) && starts_with(m, "video/"@)) ==> r
                == Some("video"@)) && ((mt matches Some(m) && !starts_with(m, "image/"@) && !starts_with(
                m,
                "video/"@,
            ) && starts_with(m, "audio/"@)) ==> r == Some("audio"@)) && (mt is None ==> r == Some(
                "document"@,
            )))
            &&& (r == Some("image"@) || r == Some("video"@) || r == Some("audio"@) || r == Some(
                "document"@,
            ))
        }),
{
    reveal_strlit("img");
    reveal_strlit("video");
    reveal_strlit("audio");
    reveal_strlit("file");
    reveal_strlit("document");
    reveal_strlit("image");
    assert("img"@.len() == 3 && "video"@.len() == 5 && "audio"@.len() == 5 && "file"@.len() == 4
        && "document"@.len() == 8);
    assert("video"@[0] != "audio"@[0]);
    assert("img"@ != "video"@ && "img"@ != "audio"@ && "img"@ != "file"@ && "img"@ != "document"@);
    assert("video"@ != "audio"@ && "video"@ != "file"@ && "video"@ != "document"@);
    assert("audio"@ != "file"@ && "audio"@ != "document"@ && "file"@ != "document"@);
}

/// The media type of a message's first attachment (see [`media_type_spec`]).
pub fn extract_media_type(msg: &UnipileMessage) -> (r: Option<String>)
    ensures
        opt_view(r) == media_type_spec(
            match msg.attachments {
                Some(v) => Some(v@),
                None => None,
            },
        ),
{
    let atts = match &msg.attachments {
        Some(v) => v,
        None => {
            return None;
        },
    };
    if atts.len() == 0 {
        return None;
    }
    let a = &atts[0];
    let r = match &a.kind {
        Some(k) => {
            let ks = k.as_str();
            if str_eq(ks, "img") {
                String::from_str("image")
            } else if str_eq(ks, "video") {
                String::from_str("video")
            } else if str_eq(ks, "audio") {
                String::from_str("audio")
            } else if str_eq(ks, "file") || str_eq(ks, "document") {
                String::from_str("document")
            } else {
                media_from_mime_exec(&a.mimetype)
            }
        },
        None => media_from_mime_exec(&a.mimetype),
    };
    Some(r)
}

// ---------------------------------------------------------------------------
// Sender profiles
// ---------------------------------------------------------------------------

/// Resolved sender display info stored on messages.
#[derive(Debug, Clone)]
pub struct SenderProfile {
    pub display_name: String,
    pub profile_url: Option<String>,
    pub avatar_url: Option<String>,
    pub public_identifier: Option<String>,
}

fn copy_opt_string(o: &Option<String>) -> (r: Option<String>)
    ensures
        r == *o,
{
    match o {
        Some(s) => Some(s.clone()),
        None => None,
    }
}

/// A copy of `p`.
fn copy_profile(p: &SenderProfile) -> (r: SenderProfile)
    ensures
        r == *p,
{
    SenderProfile {
        display_name: p.display_name.clone(),
        profile_url: copy_opt_string(&p.profile_url),
        avatar_url: copy_opt_string(&p.avatar_url),
        public_identifier: copy_opt_string(&p.public_identifier),
    }
}

impl SenderProfile {
    /// The profile of a sender known only by `provider_id`.
    pub fn unknown(provider_id: &str) -> (p: SenderProfile)
        ensures
            p.display_name@ == provider_id@,
            p.profile_url is None && p.avatar_url is None && p.public_identifier is None,
    {
        SenderProfile {
            display_name: String::from_str(provider_id),
            profile_url: None,
            avatar_url: None,
            public_identifier: None,
        }
    }
}

/// The profile of a user: their name (their provider id when they have none),
/// profile URL, picture and public identifier.
pub fn profile_from_user(user: &UnipileUserProfile) -> (p: SenderProfile)
    ensures
        p.display_name@ == match display_name_spec(opt_view(user.first_name), opt_view(user.last_name)) {
            Some(n) => n,
            None => user.provider_id@,
        },
        opt_view(p.profile_url) == profile_url_spec(opt_view(user.public_profile_url), opt_view(user.public_identifier)),
        opt_view(p.avatar_url) == opt_view(user.profile_picture_url),
        opt_view(p.public_identifier) == opt_view(user.public_identifier),
{
    let display_name = match user.display_name() {
        Some(n) => n,
        None => user.provider_id.clone(),
    };
    SenderProfile {
        display_name,
        profile_url: user.profile_url(),
        avatar_url: user.profile_picture_url.clone(),
        public_identifier: user.public_identifier.clone(),
    }
}

/// The profile of a chat attendee: their non-empty name (else their provider
/// id), profile URL and picture.
pub fn profile_from_attendee(attendee: &UnipileChatAttendee) -> (p: SenderProfile)
    ensures
        p.display_name@ == match opt_view(attendee.name) {
            Some(n) => if n.len() > 0 {
                n
            } else {
                attendee.provider_id@
            },
            None => attendee.provider_id@,
        },
        opt_view(p.profile_url) == opt_view(attendee.profile_url),
        opt_view(p.avatar_url) == opt_view(attendee.picture_url),
        p.public_identifier is None,
{
    let display_name = match &attendee.name {
        Some(n) => {
            if !n.as_str().is_empty() {
                n.clone()
            } else {
                attendee.provider_id.clone()
            }
        },
        None => attendee.provider_id.clone(),
    };
    SenderProfile {
        display_name,
        profile_url: attendee.profile_url.clone(),
        avatar_url: attendee.picture_url.clone(),
        public_identifier: None,
    }
}

// ---------------------------------------------------------------------------
// API answers
// ---------------------------------------------------------------------------

/// Why a Unipile call failed.
#[derive(Debug, Clone)]
pub enum LinkedInError {
    Auth(String),
    Connection(String),
    Decode(String),
    Media(String),
}

/// The bytes that standard (padded) base64 decoding gives for `s`, when it
/// is valid.
pub uninterp spec fn base64_standard_decoded(s: Seq<char>) -> Option<Seq<u8>>;

/// `Engine::decode` of base64 with the `STANDARD` engine. Claimed: it
/// succeeds exactly when [`base64_standard_decoded`] of `s` is some bytes,
/// and gives those bytes; the result depends on `s` alone. The error's text
/// is the engine's message, of which nothing is stated.
#[verifier::external_body]
fn base64_standard_decode(s: &str) -> (r: Result<Vec<u8>, String>)
    ensures
        match r {
            Ok(v) => base64_standard_decoded(s@) == Some(v@),
            Err(_) => base64_standard_decoded(s@) is None,
        },
{
    base64::engine::general_purpose::STANDARD.decode(s).map_err(|e| e.to_string())
}

/// Whether a response's content type announces JSON.
pub fn is_json_content(content_type: &str) -> (r: bool)
    ensures
        r == contains(content_type@, "application/json"@),
{
    str_contains(content_type, "application/json")
}

/// The bytes of a downloaded attachment: when the response is JSON and
/// carries a `data` string, the standard base64 decoding of it (a decoding
/// error is a `Decode` error); otherwise the response body itself.
pub fn attachment_bytes(content_type: &str, body: Vec<u8>, data: Option<&str>) -> (r: Result<Vec<u8>, LinkedInError>)
    ensures
        contains(content_type@, "application/json"@) && data is Some ==> match base64_standard_decoded(data->0@) {
            Some(b) => (r matches Ok(v) && v@ == b),
            None => r matches Err(LinkedInError::Decode(_)),
        },
        !(contains(content_type@, "application/json"@) && data is Some) ==> (r matches Ok(v) && v@ == body@),
{
    if is_json_content(content_type) {
        if let Some(d) = data {
            return match base64_standard_decode(d) {
                Ok(v) => Ok(v),
                Err(e) => Err(LinkedInError::Decode(e)),
            };
        }
    }
    Ok(body)
}

/// Checks a response status: 401 is a bad API key, any other status
/// outside 2xx a failed call (`{what} failed ({status}): {body}`, where
/// `status_text` is the status as its code and reason read).
pub fn check_status(status: u16, status_text: &str, what: &str, body: &str) -> (r: Result<(), LinkedInError>)
    ensures
        status == 401 ==> (r matches Err(LinkedInError::Auth(m)) && m@ == "Invalid Unipile API key (401 Unauthorized)"@),
        status != 401 && !(200 <= status <= 299) ==> (r matches Err(LinkedInError::Connection(m))
            && m@ == what@ + " failed ("@ + status_text@ + "): "@ + body@),
        200 <= status <= 299 ==> r is Ok,
{
    if status == 401 {
        return Err(LinkedInError::Auth(String::from_str("Invalid Unipile API key (401 Unauthorized)")));
    }
    if !(200 <= status && status <= 299) {
        let mut v = chars_of(what);
        append_str(&mut v, " failed (");
        append_str(&mut v, status_text);
        append_str(&mut v, "): ");
        append_str(&mut v, body);
        return Err(LinkedInError::Connection(string_of(&v)));
    }
    Ok(())
}

/// The id a send answers with: its `id` when that is a string, else its
/// `message_id` when that is.
pub open spec fn send_response_id_spec(value: Json) -> Option<Seq<char>> {
    match json_get(value, "id"@) {
        Some(Json::Str(s)) => Some(s@),
        _ => match json_get(value, "message_id"@) {
            Some(Json::Str(s)) => Some(s@),
            _ => None,
        },
    }
}

/// The id a send answers with (see [`send_response_id_spec`]).
pub fn send_response_id(value: &Json) -> (r: Option<String>)
    ensures
        opt_view(r) == send_response_id_spec(*value),
{
    match json_member(value, "id") {
        Some(Json::Str(s)) => {
            return Some(s.clone());
        },
        _ => {},
    }
    match json_member(value, "message_id") {
        Some(Json::Str(s)) => Some(s.clone()),
        _ => None,
    }
}

// ---------------------------------------------------------------------------
// Message metadata
// ---------------------------------------------------------------------------

/// The ids and type of a message's first attachment, as stored in the
/// message metadata: `message_id`, `provider_id`, `attachment_id`,
/// `mimetype`, `type`, `url` (absent values are `null`). `None` when the
/// message has no attachment.
pub open spec fn media_metadata_spec(msg: UnipileMessage) -> Option<Seq<(Seq<char>, Json)>> {
    match msg.attachments {
        Some(atts) => if atts@.len() == 0 {
            None
        } else {
            let a = atts@[0];
            Some(
                seq![
                    ("message_id"@, Json::Str(msg.id)),
                    ("provider_id"@, str_or_null(msg.provider_id)),
                    ("attachment_id"@, Json::Str(a.id)),
                    ("mimetype"@, str_or_null(a.mimetype)),
                    ("type"@, str_or_null(a.kind)),
                    ("url"@, str_or_null(a.url)),
                ],
            )
        },
        None => None,
    }
}

fn str_or_null_exec(v: &Option<String>) -> (r: Json)
    ensures
        r == str_or_null(*v),
{
    match v {
        Some(s) => Json::Str(s.clone()),
        None => Json::Null,
    }
}

/// The attachment metadata of a message (see [`media_metadata_spec`]).
pub fn extract_media_metadata(msg: &UnipileMessage) -> (r: Option<Json>)
    ensures
        match media_metadata_spec(*msg) {
            Some(m) => r matches Some(Json::Object(members)) && members_view(members@) == m,
            None => r is None,
        },
{
    let atts = match &msg.attachments {
        Some(v) => v,
        None => {
            return None;
        },
    };
    if atts.len() == 0 {
        return None;
    }
    let a = &atts[0];
    let mut members: Vec<(String, Json)> = Vec::new();
    members.push((String::from_str("message_id"), Json::Str(msg.id.clone())));
    members.push((String::from_str("provider_id"), str_or_null_exec(&msg.provider_id)));
    members.push((String::from_str("attachment_id"), Json::Str(a.id.clone())));
    members.push((String::from_str("mimetype"), str_or_null_exec(&a.mimetype)));
    members.push((String::from_str("type"), str_or_null_exec(&a.kind)));
    members.push((String::from_str("url"), str_or_null_exec(&a.url)));
    assert(members_view(members@) =~= media_metadata_spec(*msg).unwrap());
    Some(Json::Object(members))
}

/// The metadata stored with a message: its attachment metadata, then
/// `author_name`, and `author_profile_url`, `public_identifier`,
/// `provider_id` (the sender's) and `sender_attendee_id` when known, each
/// set in that order.
pub open spec fn message_metadata_spec(msg: UnipileMessage, profile: SenderProfile) -> Seq<(Seq<char>, Json)> {
    let m0 = match media_metadata_spec(msg) {
        Some(m) => m,
        None => Seq::empty(),
    };
    let m1 = obj_insert(m0, "author_name"@, Json::Str(profile.display_name));
    let m2 = match profile.profile_url {
        Some(u) => obj_insert(m1, "author_profile_url"@, Json::Str(u)),
        None => m1,
    };
    let m3 = match profile.public_identifier {
        Some(i) => obj_insert(m2, "public_identifier"@, Json::Str(i)),
        None => m2,
    };
    let m4 = match msg.sender_id {
        Some(p) => obj_insert(m3, "provider_id"@, Json::Str(p)),
        None => m3,
    };
    match msg.sender_attendee_id {
        Some(a) => obj_insert(m4, "sender_attendee_id"@, Json::Str(a)),
        None => m4,
    }
}

/// The metadata object stored with a message (see
/// [`message_metadata_spec`]); it always holds `author_name`.
pub fn build_message_metadata(msg: &UnipileMessage, profile: &SenderProfile) -> (r: Option<Json>)
    ensures
        r matches Some(Json::Object(members)) && members_view(members@) == message_metadata_spec(*msg, *profile),
{
    let mut members: Vec<(String, Json)> = match extract_media_metadata(msg) {
        Some(Json::Object(m)) => m,
        _ => Vec::new(),
    };
    assert(members_view(members@) == match media_metadata_spec(*msg) {
        Some(m) => m,
        None => Seq::<(Seq<char>, Json)>::empty(),
    });
    obj_set(&mut members, "author_name", Json::Str(profile.display_name.clone()));
    match &profile.profile_url {
        Some(u) => obj_set(&mut members, "author_profile_url", Json::Str(u.clone())),
        None => {},
    }
    match &profile.public_identifier {
        Some(i) => obj_set(&mut members, "public_identifier", Json::Str(i.clone())),
        None => {},
    }
    match &msg.sender_id {
        Some(p) => obj_set(&mut members, "provider_id", Json::Str(p.clone())),
        None => {},
    }
    match &msg.sender_attendee_id {
        Some(a) => obj_set(&mut members, "sender_attendee_id", Json::Str(a.clone())),
        None => {},
    }
    Some(Json::Object(members))
}

/// The Unix seconds of a message timestamp: the parsed RFC 3339 value, or
/// the current time when it is missing or does not parse.
pub fn parse_timestamp(ts: Option<&str>) -> (r: i64)
    ensures
        match ts {
            Some(s) => match rfc3339_seconds(s@) {
                Some(v) => r == v,
                None => true,
            },
            None => true,
        },
{
    match ts {
        Some(s) => match parse_rfc3339_seconds(s) {
            Some(v) => v,
            None => utc_now_seconds(),
        },
        None => utc_now_seconds(),
    }
}

// ---------------------------------------------------------------------------
// Profile cache
// ---------------------------------------------------------------------------

/// Profiles already resolved, by provider id.
#[derive(Debug, Clone)]
pub struct ProfileCache {
    pub entries: Vec<(String, SenderProfile)>,
}

/// The map that `entries` describe: a later entry for a key replaces an
/// earlier one.
pub open spec fn entries_map(entries: Seq<(String, SenderProfile)>) -> Map<Seq<char>, SenderProfile>
    decreases entries.len(),
{
    if entries.len() == 0 {
        Map::empty()
    } else {
        entries_map(entries.drop_last()).insert(entries.last().0@, entries.last().1)
    }
}

/// What resolving a sender needs next.
#[derive(Debug, Clone)]
pub enum ResolveStep {
    /// The profile is known: no lookup is needed.
    Known(SenderProfile),
    /// Look the sender up as the chat attendee with this id.
    FetchAttendee(String),
    /// Look the sender up through the users endpoint.
    FetchUser,
}

impl ProfileCache {
    pub open spec fn view(&self) -> Map<Seq<char>, SenderProfile> {
        entries_map(self.entries@)
    }

    /// An empty cache.
    pub fn new() -> (c: ProfileCache)
        ensures
            c.view() == Map::<Seq<char>, SenderProfile>::empty(),
    {
        ProfileCache { entries: Vec::new() }
    }

    /// The cached profile for `provider_id`.
    pub fn lookup(&self, provider_id: &str) -> (r: Option<SenderProfile>)
        ensures
            self.view().contains_key(provider_id@) ==> r == Some(self.view()[provider_id@]),
            !self.view().contains_key(provider_id@) ==> r is None,
    {
        let ghost ev = self.entries@;
        let mut j: usize = self.entries.len();
        assert(ev.take(j as int) == ev);
        while j > 0
            invariant
                j <= ev.len(),
                ev == self.entries@,
                entries_map(ev).contains_key(provider_id@) == entries_map(ev.take(j as int)).contains_key(provider_id@),
                entries_map(ev).contains_key(provider_id@) ==> entries_map(ev)[provider_id@] == entries_map(ev.take(j as int))[provider_id@],
            decreases j,
        {
            assert(ev.take(j as int).drop_last() == ev.take(j - 1));
            assert(ev.take(j as int).last() == ev[j - 1]);
            if str_eq(self.entries[j - 1].0.as_str(), provider_id) {
                let p = copy_profile(&self.entries[j - 1].1);
                return Some(p);
            }
            j = j - 1;
        }
        None
    }

    /// Stores the profile of `provider_id`.
    pub fn remember(&mut self, provider_id: &str, profile: SenderProfile)
        ensures
            final(self).view() == old(self).view().insert(provider_id@, profile),
    {
        let ghost before = self.entries@;
        self.entries.push((String::from_str(provider_id), profile));
        assert(self.entries@.drop_last() == before);
    }

    /// The first step of resolving the sender of a message: an unknown
    /// profile when the message names no sender, the cached profile, or a
    /// lookup (as a chat attendee when the message gives one).
    pub fn plan_resolve(&self, sender_id: Option<&str>, sender_attendee_id: Option<&str>) -> (s: ResolveStep)
        ensures
            match sender_id {
                Some(id) if id@.len() > 0 => if self.view().contains_key(id@) {
                    s == ResolveStep::Known(self.view()[id@])
                } else {
                    match sender_attendee_id {
                        Some(a) => s matches ResolveStep::FetchAttendee(x) && x@ == a@,
                        None => s is FetchUser,
                    }
                },
                _ => s matches ResolveStep::Known(p) && p.display_name@ == "unknown"@ && p.profile_url is None
                    && p.avatar_url is None && p.public_identifier is None,
            },
    {
        match sender_id {
            Some(id) => {
                if id.is_empty() {
                    return ResolveStep::Known(SenderProfile::unknown("unknown"));
                }
                self.plan_resolve_provider(id, sender_attendee_id)
            },
            None => ResolveStep::Known(SenderProfile::unknown("unknown")),
        }
    }

    /// The first step of resolving `provider_id`: the cached profile, or a
    /// lookup (as a chat attendee when an attendee id is given).
    pub fn plan_resolve_provider(&self, provider_id: &str, attendee_id: Option<&str>) -> (s: ResolveStep)
        ensures
            self.view().contains_key(provider_id@) ==> s == ResolveStep::Known(self.view()[provider_id@]),
            !self.view().contains_key(provider_id@) ==> match attendee_id {
                Some(a) => s matches ResolveStep::FetchAttendee(x) && x@ == a@,
                None => s is FetchUser,
            },
    {
        match self.lookup(provider_id) {
            Some(p) => ResolveStep::Known(p),
            None => match attendee_id {
                Some(a) => ResolveStep::FetchAttendee(String::from_str(a)),
                None => ResolveStep::FetchUser,
            },
        }
    }
}

/// The profile that a users-endpoint lookup gives: the user's profile, or an
/// unknown profile under `provider_id` when the lookup failed.
pub fn profile_after_user_lookup(user: Option<&UnipileUserProfile>, provider_id: &str) -> (p: SenderProfile)
    ensures
        match user {
            Some(u) => p.display_name@ == match display_name_spec(opt_view(u.first_name), opt_view(u.last_name)) {
                Some(n) => n,
                None => u.provider_id@,
            } && opt_view(p.profile_url) == profile_url_spec(opt_view(u.public_profile_url), opt_view(u.public_identifier)),
            None => p.display_name@ == provider_id@ && p.profile_url is None && p.avatar_url is None
                && p.public_identifier is None,
        },
{
    match user {
        Some(u) => profile_from_user(u),
        None => SenderProfile::unknown(provider_id),
    }
}

/// A profile remembered in the cache is what a lookup of its provider id
/// gives back.
pub proof fn lemma_cache_read_after_write(before: Map<Seq<char>, SenderProfile>, id: Seq<char>, p: SenderProfile)
    ensures
        before.insert(id, p).contains_key(id),
        before.insert(id, p)[id] == p,
{
}

} // verus!
