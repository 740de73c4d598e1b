//! Reddit: subreddit names, post and comment identifiers, post filters, the
//! connector's configuration and the OAuth authorization URL.

use vstd::prelude::*;
use crate::chunking::blen;
use crate::gmail_compose::{b64_fits, base64_encode, base64_standard, utf8, utf8_len_is_blen};
use crate::text::{
    after_last, after_last_chars, append_chars, append_str, chars_eq, chars_of, contains,
    contains_chars, is_ascii_alnum_c, is_ascii_alphanumeric, lowercase_str, percent_encode,
    slice_chars, split_char, split_chars, starts_with, starts_with_chars, str_contains,
    strip_prefix_all, strip_prefix_all_chars, string_of, to_lowercase, trim, trim_str, url_encode,
};

verus! {

/// Where the OAuth flow sends the user back.
pub const OAUTH_REDIRECT_URI: &'static str = "http://localhost:8765";

/// The scopes the connector asks for.
pub const OAUTH_SCOPES: &'static str = "read submit identity";

/// The User-Agent sent with every request.
pub const USER_AGENT: &'static str = "void-cli/1.0 (by /u/void-cli)";

// ---------------------------------------------------------------------------
// Subreddit names
// ---------------------------------------------------------------------------

/// Characters a subreddit name keeps: ASCII letters, digits and `_`.
pub open spec fn subreddit_char(c: char) -> bool {
    is_ascii_alnum_c(c) || c == '_'
}

pub open spec fn keep_subreddit_chars(s: Seq<char>) -> Seq<char>
    decreases s.len(),
{
    if s.len() == 0 {
        Seq::empty()
    } else if subreddit_char(s.last()) {
        keep_subreddit_chars(s.drop_last()).push(s.last())
    } else {
        keep_subreddit_chars(s.drop_last())
    }
}

/// The name trimmed, without its leading `r/` and `/` prefixes, lowercased,
/// keeping only ASCII letters, digits and `_`.
pub open spec fn sanitize_subreddit_spec(name: Seq<char>) -> Seq<char> {
    keep_subreddit_chars(lowercase_str(strip_prefix_all(strip_prefix_all(trim(name), "r/"@), "/"@)))
}

/// Normalizes a subreddit name for API paths and stable ids.
pub fn sanitize_subreddit(name: &str) -> (r: String)
    ensures
        r@ == sanitize_subreddit_spec(name@),
        forall|i: int| 0 <= i < r@.len() ==> subreddit_char(#[trigger] r@[i]),
{
    let t = trim_str(name);
    let rp = chars_of("r/");
    let slash = chars_of("/");
    let a = strip_prefix_all_chars(&t, &rp);
    let b = strip_prefix_all_chars(&a, &slash);
    let bs = string_of(&b);
    let low = to_lowercase(bs.as_str());
    let cs = chars_of(low.as_str());
    let mut out: Vec<char> = Vec::new();
    let mut i: usize = 0;
    while i < cs.len()
        invariant
            i <= cs.len(),
            out@ == keep_subreddit_chars(cs@.take(i as int)),
            forall|k: int| 0 <= k < out@.len() ==> subreddit_char(#[trigger] out@[k]),
        decreases cs.len() - i,
    {
        let c = cs[i];
        assert(cs@.take(i + 1).drop_last() == cs@.take(i as int));
        assert(cs@.take(i + 1).last() == c);
        if is_ascii_alphanumeric(c) || c == '_' {
            out.push(c);
        }
        i = i + 1;
    }
    assert(cs@.take(cs.len() as int) == cs@);
    string_of(&out)
}

// ---------------------------------------------------------------------------
// Post and comment identifiers
// ---------------------------------------------------------------------------

/// The piece after the first piece equal to `comments`, if there is one.
pub open spec fn after_comments(parts: Seq<Seq<char>>) -> Option<Seq<char>>
    decreases parts.len(),
{
    if parts.len() == 0 {
        None
    } else if parts[0] == "comments"@ {
        if parts.len() > 1 {
            Some(parts[1])
        } else {
            None
        }
    } else {
        after_comments(parts.drop_first())
    }
}

pub open spec fn all_ascii_alnum(s: Seq<char>) -> bool {
    forall|i: int| 0 <= i < s.len() ==> is_ascii_alnum_c(#[trigger] s[i])
}

/// The post id in `input`, or the error message, tried in order: `t3_ID`,
/// an external id holding `_post_ID`, an external id `reddit_..._ID`, a URL
/// with `/comments/ID/`, a bare alphanumeric id.
pub open spec fn extract_post_id_spec(input: Seq<char>) -> Result<Seq<char>, Seq<char>> {
    let t = trim(input);
    if t.len() == 0 {
        Err("post id is empty"@)
    } else if starts_with(t, "t3_"@) {
        Ok(t.skip("t3_"@.len() as int))
    } else if contains(t, "_post_"@) {
        Ok(after_last(t, "_post_"@))
    } else if starts_with(t, "reddit_"@) {
        Ok(after_last(t, "_"@))
    } else if contains(t, "/comments/"@) && after_comments(split_char(t, '/')) is Some {
        Ok(after_comments(split_char(t, '/')).unwrap())
    } else if all_ascii_alnum(t) {
        Ok(t)
    } else {
        Err("unable to parse Reddit post id from '"@ + t + "'"@)
    }
}

fn find_after_comments(parts: &Vec<Vec<char>>) -> (r: Option<usize>)
    ensures
        match after_comments(crate::text::views(parts@)) {
            Some(p) => r matches Some(k) && k < parts@.len() && parts@[k as int]@ == p,
            None => r is None,
        },
{
    let ghost pv = crate::text::views(parts@);
    let word = chars_of("comments");
    let mut i: usize = 0;
    assert(pv.skip(0) == pv);
    while i < parts.len()
        invariant
            i <= parts@.len(),
            pv == crate::text::views(parts@),
            word@ == "comments"@,
            after_comments(pv) == after_comments(pv.skip(i as int)),
        decreases parts.len() - i,
    {
        let ghost rest = pv.skip(i as int);
        assert(rest[0] == parts@[i as int]@);
        if chars_eq(&parts[i], &word) {
            if i + 1 < parts.len() {
                assert(rest[1] == parts@[i + 1]@);
                return Some(i + 1);
            }
            return None;
        }
        assert(rest.drop_first() == pv.skip(i + 1));
        i = i + 1;
    }
    None
}

/// Extracts a Reddit post id from an external id, a URL, or a raw id.
pub fn extract_post_id(input: &str) -> (r: Result<String, String>)
    ensures
        match extract_post_id_spec(input@) {
            Ok(id) => r matches Ok(s) && s@ == id,
            Err(m) => r matches Err(e) && e@ == m,
        },
{
    let t = trim_str(input);
    if t.len() == 0 {
        return Err(String::from_str("post id is empty"));
    }
    let t3 = chars_of("t3_");
    if starts_with_chars(&t, &t3) {
        return Ok(string_of(&slice_chars(&t, t3.len(), t.len())));
    }
    let post = chars_of("_post_");
    if contains_chars(&t, &post) {
        return Ok(string_of(&after_last_chars(&t, &post)));
    }
    let reddit = chars_of("reddit_");
    if starts_with_chars(&t, &reddit) {
        let us = chars_of("_");
        return Ok(string_of(&after_last_chars(&t, &us)));
    }
    let comments = chars_of("/comments/");
    if contains_chars(&t, &comments) {
        let parts = split_chars(&t, '/');
        assert(crate::text::views(parts@) == split_char(t@, '/'));
        if let Some(k) = find_after_comments(&parts) {
            return Ok(string_of(&parts[k]));
        }
    }
    let mut i: usize = 0;
    let mut all = true;
    while i < t.len()
        invariant
            i <= t.len(),
            all == (forall|k: int| 0 <= k < i ==> is_ascii_alnum_c(#[trigger] t@[k])),
        decreases t.len() - i,
    {
        if !is_ascii_alphanumeric(t[i]) {
            all = false;
        }
        i = i + 1;
    }
    if all {
        return Ok(string_of(&t));
    }
    let mut m = chars_of("unable to parse Reddit post id from '");
    append_chars(&mut m, &t);
    append_str(&mut m, "'");
    Err(string_of(&m))
}

/// `reddit_{connection}_{kind}_`: the prefix of the external ids of one kind.
pub open spec fn external_prefix(connection_id: Seq<char>, kind: Seq<char>) -> Seq<char> {
    "reddit_"@ + connection_id + "_"@ + kind + "_"@
}

/// The id after `prefix` in `external`, or the error that names `what`.
pub open spec fn strip_external(external: Seq<char>, prefix: Seq<char>, what: Seq<char>) -> Result<Seq<char>, Seq<char>> {
    if starts_with(external, prefix) {
        Ok(external.skip(prefix.len() as int))
    } else {
        Err("unable to parse Reddit "@ + what + " id from '"@ + external + "'"@)
    }
}

fn strip_external_exec(external: &str, connection_id: &str, kind: &str, what: &str) -> (r: Result<String, String>)
    ensures
        match strip_external(external@, external_prefix(connection_id@, kind@), what@) {
            Ok(id) => r matches Ok(s) && s@ == id,
            Err(m) => r matches Err(e) && e@ == m,
        },
{
    let mut prefix = chars_of("reddit_");
    append_str(&mut prefix, connection_id);
    append_str(&mut prefix, "_");
    append_str(&mut prefix, kind);
    append_str(&mut prefix, "_");
    let e = chars_of(external);
    if starts_with_chars(&e, &prefix) {
        Ok(string_of(&slice_chars(&e, prefix.len(), e.len())))
    } else {
        let mut m = chars_of("unable to parse Reddit ");
        append_str(&mut m, what);
        append_str(&mut m, " id from '");
        append_str(&mut m, external);
        append_str(&mut m, "'");
        Err(string_of(&m))
    }
}

/// An external id made of the prefix of its kind and an id gives that id
/// back, for comments and post bodies alike.
pub proof fn lemma_external_id_round_trip(connection_id: Seq<char>, kind: Seq<char>, id: Seq<char>, what: Seq<char>)
    ensures
        strip_external(external_prefix(connection_id, kind) + id, external_prefix(connection_id, kind), what)
            == Ok::<Seq<char>, Seq<char>>(id),
{
    let p = external_prefix(connection_id, kind);
    assert((p + id).take(p.len() as int) =~= p);
    assert((p + id).skip(p.len() as int) =~= id);
}

/// Extracts a Reddit comment id from a message external id
/// `reddit_{connection}_comment_{id}`.
pub fn extract_comment_id_from_external(msg_external_id: &str, connection_id: &str) -> (r: Result<String, String>)
    ensures
        match strip_external(msg_external_id@, external_prefix(connection_id@, "comment"@), "comment"@) {
            Ok(id) => r matches Ok(s) && s@ == id,
            Err(m) => r matches Err(e) && e@ == m,
        },
{
    strip_external_exec(msg_external_id, connection_id, "comment", "comment")
}

/// Extracts a Reddit post id from a post-body message external id
/// `reddit_{connection}_postbody_{id}`.
pub fn extract_post_id_from_postbody_external(msg_external_id: &str, connection_id: &str) -> (r: Result<String, String>)
    ensures
        match strip_external(msg_external_id@, external_prefix(connection_id@, "postbody"@), "post"@) {
            Ok(id) => r matches Ok(s) && s@ == id,
            Err(m) => r matches Err(e) && e@ == m,
        },
{
    strip_external_exec(msg_external_id, connection_id, "postbody", "post")
}

// ---------------------------------------------------------------------------
// Listings
// ---------------------------------------------------------------------------

// ---------------------------------------------------------------------------
// OAuth and form bodies
// ---------------------------------------------------------------------------

/// The token request body: a refresh with the refresh token when there is
/// one, else the client-credentials grant.
pub fn token_request_body(refresh_token: Option<&str>) -> (r: String)
    ensures
        r@ == match refresh_token {
            Some(t) => "grant_type=refresh_token&refresh_token="@ + url_enc(t@),
            None => "grant_type=client_credentials"@,
        },
{
    match refresh_token {
        Some(t) => {
            let mut v = chars_of("grant_type=refresh_token&refresh_token=");
            append_str(&mut v, url_encode(t).as_str());
            string_of(&v)
        },
        None => String::from_str("grant_type=client_credentials"),
    }
}

/// The body that exchanges an authorization code for tokens.
pub fn authorization_code_body(code: &str, redirect_uri: &str) -> (r: String)
    ensures
        r@ == "grant_type=authorization_code&code="@ + url_enc(code@) + "&redirect_uri="@ + url_enc(redirect_uri@),
{
    let mut v = chars_of("grant_type=authorization_code&code=");
    append_str(&mut v, url_encode(code).as_str());
    append_str(&mut v, "&redirect_uri=");
    append_str(&mut v, url_encode(redirect_uri).as_str());
    string_of(&v)
}

/// The body that posts `text` as a reply to the thing `thing_id`.
pub fn comment_body(thing_id: &str, text: &str) -> (r: String)
    ensures
        r@ == "thing_id="@ + url_enc(thing_id@) + "&text="@ + url_enc(text@) + "&api_type=json"@,
{
    let mut v = chars_of("thing_id=");
    append_str(&mut v, url_encode(thing_id).as_str());
    append_str(&mut v, "&text=");
    append_str(&mut v, url_encode(text).as_str());
    append_str(&mut v, "&api_type=json");
    string_of(&v)
}

/// Why a posted comment was not accepted.
#[derive(Debug, Clone, Copy, PartialEq, Eq, Structural)]
pub enum CommentError {
    /// The API answered with a non-empty error list.
    Rejected,
    /// The API accepted the comment but named no comment id.
    MissingId,
}

/// What the comment endpoint's answer means: an error list that is not
/// empty rejects the comment; otherwise the first returned thing's id,
/// prefixed with `t1_`, names the new comment.
pub fn comment_result(error_count: usize, comment_id: Option<&str>) -> (r: Result<String, CommentError>)
    ensures
        error_count > 0 ==> r == Err::<String, CommentError>(CommentError::Rejected),
        error_count == 0 ==> match comment_id {
            Some(id) => r is Ok && r->Ok_0@ == "t1_"@ + id@,
            None => r == Err::<String, CommentError>(CommentError::MissingId),
        },
{
    if error_count > 0 {
        return Err(CommentError::Rejected);
    }
    match comment_id {
        Some(id) => {
            let mut v = chars_of("t1_");
            append_str(&mut v, id);
            Ok(string_of(&v))
        },
        None => Err(CommentError::MissingId),
    }
}

/// The `Authorization` header value of the token endpoint: `Basic` and the
/// standard base64 of `client_id:client_secret`.
pub fn basic_auth(client_id: &str, client_secret: &str) -> (r: String)
    requires
        b64_fits(blen(client_id@) + 1 + blen(client_secret@)),
    ensures
        r@ == "Basic "@ + base64_standard(utf8(client_id@ + ":"@ + client_secret@)),
{
    let mut v = chars_of(client_id);
    append_str(&mut v, ":");
    append_str(&mut v, client_secret);
    let pair = string_of(&v);
    proof {
        crate::chunking::lemma_blen_concat(client_id@, ":"@ + client_secret@);
        crate::chunking::lemma_blen_concat(":"@, client_secret@);
        assert(blen(":"@) == 1) by {
            reveal_strlit(":");
            assert(":"@ =~= seq![':']);
            assert(seq![':'].drop_first() =~= Seq::<char>::empty());
            assert(blen(Seq::<char>::empty()) == 0);
        }
        assert(pair@ == client_id@ + (":"@ + client_secret@));
    }
    utf8_len_is_blen(pair.as_str());
    let encoded = base64_encode(pair.as_str().as_bytes());
    let mut out = chars_of("Basic ");
    append_str(&mut out, encoded.as_str());
    assert(pair@ == client_id@ + ":"@ + client_secret@);
    string_of(&out)
}

/// A `more` placeholder in a comment listing.
#[derive(Debug, Clone, Copy)]
pub struct MoreStub {
    pub count: u32,
}

/// A comment as read from a listing (its creation time, a float, stays with
/// the caller, found again by `id`).
#[derive(Debug)]
pub struct RedditComment {
    pub id: String,
    pub author: Option<String>,
    pub body: Option<String>,
    pub score: Option<i32>,
    pub parent_id: Option<String>,
    pub link_id: Option<String>,
    pub depth: Option<u32>,
}

/// A comment with the items of its replies listing (none when it has no
/// replies).
#[derive(Debug)]
pub struct CommentTree {
    pub comment: RedditComment,
    pub replies: Vec<ListingItem>,
}

/// An item of a listing.
#[derive(Debug)]
pub enum ListingItem {
    Post(RedditPost),
    Comment(CommentTree),
    More(MoreStub),
}

/// The comments of a listing, flattened: each comment comes after the
/// comments of its replies; posts and `more` stubs are skipped.
pub open spec fn flatten_items(items: Seq<ListingItem>) -> Seq<RedditComment>
    decreases items,
{
    if items.len() == 0 {
        Seq::empty()
    } else {
        flatten_item(items[0]) + flatten_items(items.drop_first())
    }
}

pub open spec fn flatten_item(item: ListingItem) -> Seq<RedditComment>
    decreases item,
{
    match item {
        ListingItem::Comment(t) => flatten_items(t.replies@).push(t.comment),
        _ => Seq::empty(),
    }
}

fn copy_opt_str(o: &Option<String>) -> (r: Option<String>)
    ensures
        r == *o,
{
    match o {
        Some(s) => Some(s.clone()),
        None => None,
    }
}

fn copy_comment(c: &RedditComment) -> (r: RedditComment)
    ensures
        r == *c,
{
    RedditComment {
        id: c.id.clone(),
        author: copy_opt_str(&c.author),
        body: copy_opt_str(&c.body),
        score: c.score,
        parent_id: copy_opt_str(&c.parent_id),
        link_id: copy_opt_str(&c.link_id),
        depth: c.depth,
    }
}

/// Appends the flattened comments of `children` to `out` (see
/// [`flatten_items`]).
pub fn flatten_comments(children: &Vec<ListingItem>, out: &mut Vec<RedditComment>)
    ensures
        final(out)@ == old(out)@ + flatten_items(children@),
    decreases children,
{
    let mut i: usize = 0;
    assert(children@.skip(0) == children@);
    assert(out@ == old(out)@ + Seq::<RedditComment>::empty());
    while i < children.len()
        invariant
            i <= children@.len(),
            old(out)@ + flatten_items(children@) == out@ + flatten_items(children@.skip(i as int)),
        decreases children.len() - i,
    {
        let ghost rest = children@.skip(i as int);
        assert(rest[0] == children@[i as int]);
        assert(rest.drop_first() == children@.skip(i + 1));
        let ghost before = out@;
        match &children[i] {
            ListingItem::Comment(t) => {
                flatten_comments(&t.replies, out);
                out.push(copy_comment(&t.comment));
                assert(out@ == before + flatten_item(children@[i as int]));
            },
            _ => {
                assert(out@ == before + flatten_item(children@[i as int]));
            },
        }
        assert(before + flatten_items(rest) == out@ + flatten_items(children@.skip(i + 1)));
        i = i + 1;
    }
    assert(children@.skip(children@.len() as int) == Seq::<ListingItem>::empty());
}

/// Tokens returned by the OAuth token endpoint.
#[derive(Debug, Clone)]
pub struct OAuthTokens {
    pub access_token: String,
    pub refresh_token: Option<String>,
    pub expires_in: u64,
}

/// The fields of a listed Reddit post that the connector reads (its
/// vote ratio and creation time stay with the caller).
#[derive(Debug, Clone)]
pub struct RedditPost {
    pub id: String,
    pub title: Option<String>,
    pub author: Option<String>,
    pub score: Option<i32>,
    pub url: Option<String>,
    pub permalink: Option<String>,
    pub num_comments: Option<u32>,
    pub subreddit: Option<String>,
    pub selftext: Option<String>,
}

/// Whether a post with this score and title passes the filters: a score (a
/// missing or negative one counts as zero) of at least `min_score`, and, when
/// keywords are given, a lowercased title that contains one of them.
pub open spec fn matches_filters_spec(score: Option<i32>, title: Option<Seq<char>>, keywords: Seq<Seq<char>>, min_score: u32) -> bool {
    let s: int = match score {
        Some(v) => if v < 0 {
            0
        } else {
            v as int
        },
        None => 0,
    };
    let t = match title {
        Some(t) => t,
        None => Seq::empty(),
    };
    s >= min_score && (keywords.len() == 0 || exists|k: int|
        0 <= k < keywords.len() && contains(lowercase_str(t), #[trigger] keywords[k]))
}

pub open spec fn string_views(v: Seq<String>) -> Seq<Seq<char>> {
    v.map_values(|s: String| s@)
}

/// Keyword filtering looks at every keyword, wherever it stands in the list:
/// a post that meets the score threshold passes as soon as its lowercased
/// title contains any one keyword, and fails when it contains none (unless
/// no keywords are given); a post below the threshold never passes. So
/// reordering the keywords, or adding one, never turns a passing post away.
pub proof fn lemma_filter_checks_every_keyword(
    score: Option<i32>,
    title: Option<Seq<char>>,
    keywords: Seq<Seq<char>>,
    min_score: u32,
    k: int,
    more: Seq<Seq<char>>,
)
    ensures
        ({
            let s: int = match score {
                Some(v) => if v < 0 {
                    0
                } else {
                    v as int
                },
                None => 0,
            };
            let lower = lowercase_str(
                match title {
                    Some(t) => t,
                    None => Seq::empty(),
                },
            );
            &&& (s >= min_score && 0 <= k < keywords.len() && contains(lower, keywords[k]))
                ==> matches_filters_spec(score, title, keywords, min_score)
            &&& (keywords.len() > 0 && forall|j: int| 0 <= j < keywords.len() ==> !contains(lower, #[trigger] keywords[j]))
                ==> !matches_filters_spec(score, title, keywords, min_score)
            &&& s < min_score ==> !matches_filters_spec(score, title, keywords, min_score)
            &&& (s >= min_score && keywords.len() == 0) ==> matches_filters_spec(score, title, keywords, min_score)
            &&& (keywords.len() > 0 && matches_filters_spec(score, title, keywords, min_score))
                ==> matches_filters_spec(score, title, more + keywords, min_score)
                && matches_filters_spec(score, title, keywords + more, min_score)
        }),
{
    let t = match title {
        Some(t) => t,
        None => Seq::empty(),
    };
    let lower = lowercase_str(t);
    if 0 <= k < keywords.len() {
        assert(contains(lower, keywords[k]) ==> exists|j: int|
            0 <= j < keywords.len() && contains(lowercase_str(t), #[trigger] keywords[j]));
    }
    if keywords.len() > 0 && matches_filters_spec(score, title, keywords, min_score) {
        let j = choose|j: int| 0 <= j < keywords.len() && contains(lowercase_str(t), #[trigger] keywords[j]);
        assert((more + keywords)[more.len() + j] == keywords[j]);
        assert((keywords + more)[j] == keywords[j]);
    }
}

/// Whether a post passes the connector's score and keyword filters (see
/// [`matches_filters_spec`]).
#[verifier::loop_isolation(false)]
pub fn matches_filters(post: &RedditPost, keywords: &Vec<String>, min_score: u32) -> (r: bool)
    ensures
        r == matches_filters_spec(
            post.score,
            match post.title {
                Some(t) => Some(t@),
                None => None,
            },
            string_views(keywords@),
            min_score,
        ),
{
    let score = post.score;
    let title: Option<&str> = match &post.title {
        Some(t) => Some(t.as_str()),
        None => None,
    };
    let s: u32 = match score {
        Some(v) => if v < 0 {
            0
        } else {
            v as u32
        },
        None => 0,
    };
    if s < min_score {
        return false;
    }
    if keywords.len() == 0 {
        return true;
    }
    let lower = match title {
        Some(t) => to_lowercase(t),
        None => to_lowercase(""),
    };
    proof {
        match title {
            Some(t) => {},
            None => {
                assert(""@ == Seq::<char>::empty()) by {
                    reveal_strlit("");
                }
            },
        }
    }
    let ghost kv = string_views(keywords@);
    let mut i: usize = 0;
    while i < keywords.len()
        invariant
            i <= keywords@.len(),
            kv == string_views(keywords@),
            forall|k: int| 0 <= k < i ==> !contains(lower@, #[trigger] kv[k]),
        decreases keywords.len() - i,
    {
        assert(kv[i as int] == keywords@[i as int]@);
        if str_contains(lower.as_str(), keywords[i].as_str()) {
            assert(contains(lower@, kv[i as int]));
            return true;
        }
        i = i + 1;
    }
    false
}

/// Whether a polled post is stored: it is not stored yet (`already_stored`
/// is whether the store holds its message) and it passes the filters.
pub fn should_store_post(already_stored: bool, post: &RedditPost, keywords: &Vec<String>, min_score: u32) -> (r: bool)
    ensures
        r == (!already_stored && matches_filters_spec(
            post.score,
            match post.title {
                Some(t) => Some(t@),
                None => None,
            },
            string_views(keywords@),
            min_score,
        )),
{
    !already_stored && matches_filters(post, keywords, min_score)
}

// ---------------------------------------------------------------------------
// Connector configuration
// ---------------------------------------------------------------------------

/// A Reddit connection: credentials, followed subreddits and post filters.
#[derive(Debug, Clone)]
pub struct RedditConnector {
    pub config_id: String,
    pub client_id: String,
    pub client_secret: String,
    pub subreddits: Vec<String>,
    pub keywords: Vec<String>,
    pub min_score: u32,
    pub poll_interval_secs: u64,
}

/// The sanitized names of `subs`, the empty ones dropped.
pub open spec fn sanitized_subreddits(subs: Seq<Seq<char>>) -> Seq<Seq<char>>
    decreases subs.len(),
{
    if subs.len() == 0 {
        Seq::empty()
    } else {
        let rest = sanitized_subreddits(subs.drop_last());
        let s = sanitize_subreddit_spec(subs.last());
        if s.len() > 0 {
            rest.push(s)
        } else {
            rest
        }
    }
}

impl RedditConnector {
    /// A connector for `connection_id`: subreddit names are sanitized (the
    /// empty ones dropped) and keywords lowercased.
    pub fn new(
        connection_id: &str,
        client_id: String,
        client_secret: String,
        subreddits: Vec<String>,
        keywords: Vec<String>,
        min_score: u32,
        poll_interval_secs: u64,
    ) -> (c: RedditConnector)
        ensures
            c.config_id@ == connection_id@,
            c.client_id == client_id,
            c.client_secret == client_secret,
            string_views(c.subreddits@) == sanitized_subreddits(string_views(subreddits@)),
            string_views(c.keywords@) == string_views(keywords@).map_values(|k: Seq<char>| lowercase_str(k)),
            c.min_score == min_score,
            c.poll_interval_secs == poll_interval_secs,
    {
        let ghost sv = string_views(subreddits@);
        let mut subs: Vec<String> = Vec::new();
        let mut i: usize = 0;
        assert(sv.take(0).len() == 0);
        while i < subreddits.len()
            invariant
                i <= subreddits@.len(),
                sv == string_views(subreddits@),
                string_views(subs@) == sanitized_subreddits(sv.take(i as int)),
            decreases subreddits.len() - i,
        {
            assert(sv.take(i + 1).drop_last() == sv.take(i as int));
            assert(sv.take(i + 1).last() == subreddits@[i as int]@);
            let s = sanitize_subreddit(subreddits[i].as_str());
            if !s.as_str().is_empty() {
                let ghost before = string_views(subs@);
                subs.push(s);
                assert(string_views(subs@) == before.push(s@));
            }
            i = i + 1;
        }
        assert(sv.take(subreddits@.len() as int) == sv);
        let ghost kv = string_views(keywords@);
        let mut kws: Vec<String> = Vec::new();
        let mut j: usize = 0;
        while j < keywords.len()
            invariant
                j <= keywords@.len(),
                kv == string_views(keywords@),
                string_views(kws@) == kv.take(j as int).map_values(|k: Seq<char>| lowercase_str(k)),
            decreases keywords.len() - j,
        {
            let ghost before = string_views(kws@);
            let k = to_lowercase(keywords[j].as_str());
            kws.push(k);
            assert(string_views(kws@) == before.push(k@));
            assert(kv.take(j + 1) == kv.take(j as int).push(kv[j as int]));
            assert(kv.take(j + 1).map_values(|k: Seq<char>| lowercase_str(k)) == kv.take(j as int).map_values(
                |k: Seq<char>| lowercase_str(k),
            ).push(lowercase_str(kv[j as int])));
            j = j + 1;
        }
        assert(kv.take(keywords@.len() as int) == kv);
        RedditConnector {
            config_id: String::from_str(connection_id),
            client_id,
            client_secret,
            subreddits: subs,
            keywords: kws,
            min_score,
            poll_interval_secs,
        }
    }
}

// ---------------------------------------------------------------------------
// OAuth
// ---------------------------------------------------------------------------

/// The URL-encoded form of `s`.
pub open spec fn url_enc(s: Seq<char>) -> Seq<char> {
    percent_encode(vstd::utf8::encode_utf8(s))
}

/// The authorization URL under `oauth_base` for a permanent grant of the
/// connector's scopes, every parameter URL-encoded.
pub open spec fn authorize_url_spec(oauth_base: Seq<char>, client_id: Seq<char>, state: Seq<char>, redirect_uri: Seq<char>) -> Seq<char> {
    oauth_base + "/api/v1/authorize?client_id="@ + url_enc(client_id) + "&response_type=code&state="@
        + url_enc(state) + "&redirect_uri="@ + url_enc(redirect_uri)
        + "&duration=permanent&scope="@ + url_enc(OAUTH_SCOPES@)
}

/// Builds the OAuth authorization URL (see [`authorize_url_spec`]).
pub fn authorize_url(oauth_base: &str, client_id: &str, state: &str, redirect_uri: &str) -> (r: String)
    ensures
        r@ == authorize_url_spec(oauth_base@, client_id@, state@, redirect_uri@),
{
    let mut v = chars_of(oauth_base);
    append_str(&mut v, "/api/v1/authorize?client_id=");
    append_str(&mut v, url_encode(client_id).as_str());
    append_str(&mut v, "&response_type=code&state=");
    append_str(&mut v, url_encode(state).as_str());
    append_str(&mut v, "&redirect_uri=");
    append_str(&mut v, url_encode(redirect_uri).as_str());
    append_str(&mut v, "&duration=permanent&scope=");
    append_str(&mut v, url_encode(OAUTH_SCOPES).as_str());
    string_of(&v)
}

} // verus!
