//! Gmail API errors: the error kinds, and the reading of Google's JSON error
//! bodies that decides whether a 403 is a missing scope or a quota to wait
//! out.
//!
//! A body is read twice: as text, and as the JSON tree the caller parsed from
//! it (`None` when it is not JSON). The tree keeps what the decision reads.

use vstd::prelude::*;
use crate::json::{json_get, json_member, Json};
use crate::text::{
    append_str, ascii_lower_seq, ascii_lowercase_chars, chars_of, contains, decimal, push_decimal,
    str_contains, str_eq, string_of,
};

verus! {

/// Why a Gmail call failed.
#[derive(Debug, Clone)]
pub enum GmailError {
    Api(String),
    Auth(String),
    /// The token lacks `gmail.settings.basic` (or similar) for send-as and
    /// signature reads.
    InsufficientScope,
    /// The stored history id is too old: Gmail purged that history, so
    /// incremental sync must fall back to a full inbox refresh.
    HistoryExpired,
    Http(String),
    Parse(String),
    Json(String),
    Io(String),
    Other(String),
}

/// The text of each error.
pub open spec fn gmail_error_message(e: GmailError) -> Seq<char> {
    match e {
        GmailError::Api(m) => "API error: "@ + m@,
        GmailError::Auth(m) => "Auth error: "@ + m@,
        GmailError::InsufficientScope => "insufficient OAuth scope for Gmail settings (need gmail.settings.basic); re-authenticate"@,
        GmailError::HistoryExpired => "gmail history expired; full inbox refresh required"@,
        GmailError::Http(m) => "HTTP error: "@ + m@,
        GmailError::Parse(m) => "Parse error: "@ + m@,
        GmailError::Json(m) => "JSON error: "@ + m@,
        GmailError::Io(m) => "IO error: "@ + m@,
        GmailError::Other(m) => m@,
    }
}

fn prefixed(prefix: &str, m: &String) -> (r: String)
    ensures
        r@ == prefix@ + m@,
{
    let mut v = chars_of(prefix);
    append_str(&mut v, m.as_str());
    string_of(&v)
}

impl GmailError {
    /// Human-readable description of the error.
    pub fn message(&self) -> (r: String)
        ensures
            r@ == gmail_error_message(*self),
    {
        match self {
            GmailError::Api(m) => prefixed("API error: ", m),
            GmailError::Auth(m) => prefixed("Auth error: ", m),
            GmailError::InsufficientScope => String::from_str(
                "insufficient OAuth scope for Gmail settings (need gmail.settings.basic); re-authenticate",
            ),
            GmailError::HistoryExpired => String::from_str(
                "gmail history expired; full inbox refresh required",
            ),
            GmailError::Http(m) => prefixed("HTTP error: ", m),
            GmailError::Parse(m) => prefixed("Parse error: ", m),
            GmailError::Json(m) => prefixed("JSON error: ", m),
            GmailError::Io(m) => prefixed("IO error: ", m),
            GmailError::Other(m) => m.clone(),
        }
    }
}

// ---------------------------------------------------------------------------
// JSON bodies
// ---------------------------------------------------------------------------

/// The lowercased `reason` strings of the items of an array (items without
/// a string `reason` are skipped).
pub open spec fn item_reasons(items: Seq<Json>) -> Seq<Seq<char>>
    decreases items.len(),
{
    if items.len() == 0 {
        Seq::empty()
    } else {
        let rest = item_reasons(items.drop_last());
        match json_get(items.last(), "reason"@) {
            Some(Json::Str(s)) => rest.push(ascii_lower_seq(s@)),
            _ => rest,
        }
    }
}

/// The reasons under `error[key]` when it is an array.
pub open spec fn reasons_under(error: Json, key: Seq<char>) -> Seq<Seq<char>> {
    match json_get(error, key) {
        Some(Json::Array(items)) => item_reasons(items@),
        _ => Seq::empty(),
    }
}

/// The `reason` values of a Google API error body, lowercased: those of
/// `error.errors[]`, then those of `error.details[]`. Nothing when the body
/// is not JSON or has no `error`.
pub open spec fn google_error_reasons_spec(parsed: Option<Json>) -> Seq<Seq<char>> {
    match parsed {
        Some(v) => match json_get(v, "error"@) {
            Some(e) => reasons_under(e, "errors"@) + reasons_under(e, "details"@),
            None => Seq::empty(),
        },
        None => Seq::empty(),
    }
}

fn push_reasons(out: &mut Vec<String>, error: &Json, key: &str)
    ensures
        crate::reddit::string_views(final(out)@) == crate::reddit::string_views(old(out)@)
            + reasons_under(*error, key@),
{
    let ghost before = crate::reddit::string_views(out@);
    match json_member(error, key) {
        Some(Json::Array(items)) => {
            let mut i: usize = 0;
            assert(items@.take(0).len() == 0);
            while i < items.len()
                invariant
                    i <= items@.len(),
                    crate::reddit::string_views(out@) == before + item_reasons(items@.take(i as int)),
                decreases items.len() - i,
            {
                assert(items@.take(i + 1).drop_last() == items@.take(i as int));
                assert(items@.take(i + 1).last() == items@[i as int]);
                match json_member(&items[i], "reason") {
                    Some(Json::Str(s)) => {
                        let low = ascii_lowercase_chars(&chars_of(s.as_str()));
                        let ls = string_of(&low);
                        let ghost b2 = crate::reddit::string_views(out@);
                        out.push(ls);
                        assert(crate::reddit::string_views(out@) == b2.push(ls@));
                    },
                    _ => {},
                }
                i = i + 1;
            }
            assert(items@.take(items@.len() as int) == items@);
        },
        _ => {
            assert(crate::reddit::string_views(out@) == before + Seq::<Seq<char>>::empty());
        },
    }
}

/// The `reason` values of a Google API error body, lowercased (see
/// [`google_error_reasons_spec`]).
pub fn google_error_reasons(parsed: &Option<Json>) -> (r: Vec<String>)
    ensures
        crate::reddit::string_views(r@) == google_error_reasons_spec(*parsed),
{
    let mut out: Vec<String> = Vec::new();
    assert(crate::reddit::string_views(out@) == Seq::<Seq<char>>::empty());
    if let Some(v) = parsed {
        if let Some(e) = json_member(v, "error") {
            push_reasons(&mut out, e, "errors");
            push_reasons(&mut out, e, "details");
            assert(crate::reddit::string_views(out@) == Seq::<Seq<char>>::empty() + reasons_under(*e, "errors"@) + reasons_under(*e, "details"@));
        }
    }
    out
}

pub open spec fn any_reason(reasons: Seq<Seq<char>>, r: Seq<char>) -> bool {
    exists|i: int| 0 <= i < reasons.len() && #[trigger] reasons[i] == r
}

/// Whether an error body says the token lacks a scope: Google's
/// `ACCESS_TOKEN_SCOPE_INSUFFICIENT` or `insufficientPermissions` reason, or
/// the reason token or the "insufficient authentication scopes" message in
/// the lowercased text.
pub open spec fn insufficient_scope_spec(body: Seq<char>, parsed: Option<Json>) -> bool {
    let reasons = google_error_reasons_spec(parsed);
    let lower = ascii_lower_seq(body);
    any_reason(reasons, "access_token_scope_insufficient"@) || any_reason(reasons, "insufficientpermissions"@)
        || contains(lower, "access_token_scope_insufficient"@) || contains(lower, "insufficientpermissions"@)
        || contains(lower, "insufficient authentication scopes"@)
}

fn has_reason(reasons: &Vec<String>, r: &str) -> (b: bool)
    ensures
        b == any_reason(crate::reddit::string_views(reasons@), r@),
{
    let ghost rv = crate::reddit::string_views(reasons@);
    let mut i: usize = 0;
    while i < reasons.len()
        invariant
            i <= reasons@.len(),
            rv == crate::reddit::string_views(reasons@),
            forall|k: int| 0 <= k < i ==> #[trigger] rv[k] != r@,
        decreases reasons.len() - i,
    {
        assert(rv[i as int] == reasons@[i as int]@);
        if str_eq(reasons[i].as_str(), r) {
            return true;
        }
        i = i + 1;
    }
    false
}

/// Whether a Gmail API error body indicates missing OAuth scopes, as opposed
/// to other 403s (see [`insufficient_scope_spec`]).
pub fn is_insufficient_scope_body(body: &str, parsed: &Option<Json>) -> (b: bool)
    ensures
        b == insufficient_scope_spec(body@, *parsed),
{
    let reasons = google_error_reasons(parsed);
    if has_reason(&reasons, "access_token_scope_insufficient") || has_reason(&reasons, "insufficientpermissions") {
        return true;
    }
    let lower = string_of(&ascii_lowercase_chars(&chars_of(body)));
    let l = lower.as_str();
    str_contains(l, "access_token_scope_insufficient") || str_contains(l, "insufficientpermissions")
        || str_contains(l, "insufficient authentication scopes")
}

/// Google reasons that mean "the request was fine, come back later": the
/// per-user quota, the project quota, a transient backend fault.
pub open spec fn retryable_reason(r: Seq<char>) -> bool {
    r == "ratelimitexceeded"@ || r == "userratelimitexceeded"@ || r == "quotaexceeded"@ || r
        == "backenderror"@
}

/// Whether an error body says a quota was hit: never for a scope error;
/// otherwise a retryable reason, or a retryable reason token in the
/// lowercased text.
pub open spec fn retryable_quota_spec(body: Seq<char>, parsed: Option<Json>) -> bool {
    let reasons = google_error_reasons_spec(parsed);
    let lower = ascii_lower_seq(body);
    !insufficient_scope_spec(body, parsed) && ((exists|i: int|
        0 <= i < reasons.len() && retryable_reason(#[trigger] reasons[i])) || contains(
        lower,
        "ratelimitexceeded"@,
    ) || contains(lower, "userratelimitexceeded"@) || contains(lower, "quotaexceeded"@) || contains(
        lower,
        "backenderror"@,
    ))
}

/// Whether a Gmail API error body says the quota was hit, so the call is
/// worth retrying after a backoff (see [`retryable_quota_spec`]).
pub fn is_retryable_quota_body(body: &str, parsed: &Option<Json>) -> (b: bool)
    ensures
        b == retryable_quota_spec(body@, *parsed),
{
    if is_insufficient_scope_body(body, parsed) {
        return false;
    }
    let reasons = google_error_reasons(parsed);
    let ghost rv = crate::reddit::string_views(reasons@);
    let mut i: usize = 0;
    while i < reasons.len()
        invariant
            i <= reasons@.len(),
            rv == crate::reddit::string_views(reasons@),
            rv == google_error_reasons_spec(*parsed),
            !insufficient_scope_spec(body@, *parsed),
            forall|k: int| 0 <= k < i ==> !retryable_reason(#[trigger] rv[k]),
        decreases reasons.len() - i,
    {
        assert(rv[i as int] == reasons@[i as int]@);
        let r = reasons[i].as_str();
        if str_eq(r, "ratelimitexceeded") || str_eq(r, "userratelimitexceeded") || str_eq(r, "quotaexceeded")
            || str_eq(r, "backenderror") {
            assert(retryable_reason(rv[i as int]));
            return true;
        }
        i = i + 1;
    }
    let lower = string_of(&ascii_lowercase_chars(&chars_of(body)));
    let l = lower.as_str();
    str_contains(l, "ratelimitexceeded") || str_contains(l, "userratelimitexceeded") || str_contains(
        l,
        "quotaexceeded",
    ) || str_contains(l, "backenderror")
}

/// A scope error is never retried: a body that says the token lacks a scope
/// is not a quota to wait out, whatever else it says.
pub proof fn lemma_scope_error_not_retryable(body: Seq<char>, parsed: Option<Json>)
    requires
        insufficient_scope_spec(body, parsed),
    ensures
        !retryable_quota_spec(body, parsed),
{
}

/// The error an unsuccessful API response stands for: a 403 for a missing
/// scope is `InsufficientScope`; a 403 for a quota is an API error that says
/// so; any other status an API error naming the status and the body.
pub open spec fn api_error_spec(status: u16, body: Seq<char>, parsed: Option<Json>) -> Seq<char> {
    if status == 403 && retryable_quota_spec(body, parsed) {
        "quota exceeded: "@ + body
    } else {
        decimal(status as nat) + ": "@ + body
    }
}

/// Classifies an unsuccessful response (see [`api_error_spec`]).
pub fn api_error(status: u16, body: &str, parsed: &Option<Json>) -> (e: GmailError)
    ensures
        status == 403 && insufficient_scope_spec(body@, *parsed) ==> e == GmailError::InsufficientScope,
        !(status == 403 && insufficient_scope_spec(body@, *parsed)) ==> (e matches GmailError::Api(m)
            && m@ == api_error_spec(status, body@, *parsed)),
{
    if status == 403 && is_insufficient_scope_body(body, parsed) {
        return GmailError::InsufficientScope;
    }
    let mut v: Vec<char> = Vec::new();
    if status == 403 && is_retryable_quota_body(body, parsed) {
        v = chars_of("quota exceeded: ");
    } else {
        push_decimal(&mut v, status as u64);
        append_str(&mut v, ": ");
    }
    append_str(&mut v, body);
    GmailError::Api(string_of(&v))
}

} // verus!
