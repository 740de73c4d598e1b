//! What the connectors store: the conversation and message records built
//! from a Gmail message, an iMessage row and a Reddit post, and the small
//! decisions of the sync loops (token expiry, cursors, reply-all).

use vstd::prelude::*;
use crate::gmail_compose::{convert_html, looks_like_html, looks_like_html_spec, render_or_keep, rendered_or_html, parse_email_address, parse_email_address_spec, parse_email_name, parse_email_name_spec};
use crate::gmail_message::{message_header, opt_view, payload_text, GmailMessage, HistoryListResponse};
use crate::imessage::ImessageRow;
use crate::reddit::RedditPost;
use crate::text::{all_digits, append_str, chars_of, contains, decimal, digit_char, digits_value, is_digit, parse_i64, parse_i64_spec, push_decimal, split_char, split_chars, starts_with, str_contains, str_eq, str_starts_with, string_of, to_lowercase, lowercase_str, trim, trim_chars, join, join_chars};

verus! {

// ---------------------------------------------------------------------------
// Records
// ---------------------------------------------------------------------------

/// The kind of a conversation.
#[derive(Debug, Clone, Copy, PartialEq, Eq, Structural)]
pub enum ConversationKind {
    Dm,
    Group,
    Channel,
    Thread,
}

/// A conversation as stored.
#[derive(Debug, Clone)]
pub struct ConversationRecord {
    pub id: String,
    pub connection_id: String,
    pub connector: String,
    pub external_id: String,
    pub name: Option<String>,
    pub kind: ConversationKind,
    pub last_message_at: Option<i64>,
    pub unread_count: i64,
    pub is_muted: bool,
}

/// A message as stored.
#[derive(Debug, Clone)]
pub struct MessageRecord {
    pub id: String,
    pub conversation_id: String,
    pub connection_id: String,
    pub connector: String,
    pub external_id: String,
    pub sender: String,
    pub sender_name: Option<String>,
    pub body: Option<String>,
    pub timestamp: i64,
    pub is_archived: bool,
    pub reply_to_id: Option<String>,
    pub context_id: Option<String>,
}

fn cat2(a: &str, b: &str) -> (r: String)
    ensures
        r@ == a@ + b@,
{
    let mut v = chars_of(a);
    append_str(&mut v, b);
    string_of(&v)
}

fn cat3(a: &str, b: &str, c: &str) -> (r: String)
    ensures
        r@ == a@ + b@ + c@,
{
    let mut v = chars_of(a);
    append_str(&mut v, b);
    append_str(&mut v, c);
    string_of(&v)
}

fn cat4(a: &str, b: &str, c: &str, d: &str) -> (r: String)
    ensures
        r@ == a@ + b@ + c@ + d@,
{
    let mut v = chars_of(a);
    append_str(&mut v, b);
    append_str(&mut v, c);
    append_str(&mut v, d);
    string_of(&v)
}

fn copy_opt(o: &Option<String>) -> (r: Option<String>)
    ensures
        r == *o,
{
    match o {
        Some(s) => Some(s.clone()),
        None => None,
    }
}

// ---------------------------------------------------------------------------
// Gmail
// ---------------------------------------------------------------------------

/// Rust's integer division of `a` by a positive `b`: rounded toward zero.
pub open spec fn div_toward_zero(a: int, b: int) -> int {
    if a >= 0 {
        a / b
    } else {
        -((-a) / b)
    }
}

/// The Unix seconds of a message's `internalDate` (milliseconds), when it
/// parses.
pub open spec fn internal_seconds(internal_date: Option<Seq<char>>) -> Option<i64> {
    match internal_date {
        Some(d) => match parse_i64_spec(d) {
            Some(ms) => Some(div_toward_zero(ms as int, 1000) as i64),
            None => None,
        },
        None => None,
    }
}

pub(crate) fn internal_seconds_exec(internal_date: &Option<String>) -> (r: Option<i64>)
    ensures
        r == internal_seconds(opt_view(*internal_date)),
{
    match internal_date {
        Some(d) => match parse_i64(d.as_str()) {
            Some(ms) => {
                let m = ms as i128;
                let q: i128 = if m >= 0 {
                    m / 1000
                } else {
                    -((-m) / 1000)
                };
                Some(q as i64)
            },
            None => None,
        },
        None => None,
    }
}

/// The HTML of a Gmail message that is rendered as Markdown for storage:
/// the text body when it reads as HTML, else the HTML body when there is no
/// text body.
pub open spec fn html_source(text: Option<Seq<char>>, html: Option<Seq<char>>) -> Option<Seq<char>> {
    match text {
        Some(t) => if looks_like_html_spec(t) {
            Some(t)
        } else {
            None
        },
        None => html,
    }
}

/// The body stored for a Gmail message, given `rendered`, the Markdown the
/// converter rendered for its [`html_source`] (if it rendered any): the
/// text body as is unless it reads as HTML (then its rendering, or the text
/// when none), else the HTML body's rendering (or the HTML), else the
/// snippet.
pub open spec fn gmail_body(
    text: Option<Seq<char>>,
    html: Option<Seq<char>>,
    snippet: Option<Seq<char>>,
    rendered: Option<Seq<char>>,
) -> Option<Seq<char>> {
    match text {
        Some(t) => if !looks_like_html_spec(t) {
            Some(t)
        } else {
            Some(rendered_or_html(rendered, t))
        },
        None => match html {
            Some(h) => Some(rendered_or_html(rendered, h)),
            None => snippet,
        },
    }
}

/// Whether the labels hold `INBOX`.
pub open spec fn has_inbox(ls: Seq<String>) -> bool {
    exists|i: int| 0 <= i < ls.len() && #[trigger] ls[i]@ == "INBOX"@
}

/// What storing a Gmail message writes: its thread as a conversation, the
/// message itself, and whether it has an HTML body (recorded, with the
/// snippet, in the message metadata).
#[derive(Debug, Clone)]
pub struct GmailStorePlan {
    pub conversation: ConversationRecord,
    pub message: MessageRecord,
    pub has_html: bool,
    pub snippet: Option<String>,
}

pub open spec fn or_empty(o: Option<Seq<char>>) -> Seq<char> {
    match o {
        Some(s) => s,
        None => Seq::empty(),
    }
}

/// Whether `p` holds the records for the Gmail message `msg` stored under
/// `account` (see [`GmailStorePlan`]), with `rendered` the Markdown rendered
/// for the message's [`html_source`].
pub open spec fn gmail_plan_of(account: Seq<char>, msg: GmailMessage, rendered: Option<Seq<char>>, p: GmailStorePlan) -> bool {
    let msg_id = or_empty(opt_view(msg.id));
    let thread_id = match opt_view(msg.thread_id) {
        Some(t) => t,
        None => msg_id,
    };
    let from = or_empty(message_header(msg, "From"@));
    let conv_id = account + "-"@ + thread_id;
    let seconds = internal_seconds(opt_view(msg.internal_date));
    let html = match msg.payload {
        Some(pl) => payload_text(pl, "text/html"@),
        None => None,
    };
    let text = match msg.payload {
        Some(pl) => payload_text(pl, "text/plain"@),
        None => None,
    };
    &&& p.conversation.id@ == conv_id
    &&& p.conversation.connection_id@ == account
    &&& p.conversation.connector@ == "gmail"@
    &&& p.conversation.external_id@ == thread_id
    &&& opt_view(p.conversation.name) == Some(
        match message_header(msg, "Subject"@) {
            Some(s) => s,
            None => "(no subject)"@,
        },
    )
    &&& p.conversation.kind == ConversationKind::Thread
    &&& p.conversation.last_message_at == seconds
    &&& p.conversation.unread_count == 0
    &&& !p.conversation.is_muted
    &&& p.message.id@ == account + "-"@ + msg_id
    &&& p.message.conversation_id@ == conv_id
    &&& p.message.connection_id@ == account
    &&& p.message.connector@ == "gmail"@
    &&& p.message.external_id@ == msg_id
    &&& p.message.sender@ == parse_email_address_spec(from)
    &&& opt_view(p.message.sender_name) == Some(parse_email_name_spec(from))
    &&& opt_view(p.message.body) == gmail_body(text, html, opt_view(msg.snippet), rendered)
    &&& p.message.timestamp == match seconds {
        Some(s) => s,
        None => 0,
    }
    &&& p.message.is_archived == !match msg.label_ids {
        Some(v) => has_inbox(v@),
        None => false,
    }
    &&& opt_view(p.message.reply_to_id) == match message_header(msg, "In-Reply-To"@) {
        Some(v) => Some(account + "-"@ + v),
        None => None,
    }
    &&& opt_view(p.message.context_id) == Some(account + "-thread-"@ + thread_id)
    &&& p.has_html == html is Some
    &&& p.snippet == msg.snippet
}

/// The records for a Gmail message stored under `account`, given the
/// Markdown `rendered` for its [`html_source`] (see [`gmail_plan_of`]).
pub fn gmail_store_plan_rendered(account: &str, msg: &GmailMessage, rendered: Option<String>) -> (p: GmailStorePlan)
    ensures
        gmail_plan_of(account@, *msg, opt_view(rendered), p),
{
    let msg_id: String = match &msg.id {
        Some(i) => i.clone(),
        None => String::new(),
    };
    let thread_id: String = match &msg.thread_id {
        Some(t) => t.clone(),
        None => msg_id.clone(),
    };
    let from: String = match msg.get_header("From") {
        Some(f) => f,
        None => String::new(),
    };
    let conv_id = cat3(account, "-", thread_id.as_str());
    let subject: String = match msg.get_header("Subject") {
        Some(s) => s,
        None => String::from_str("(no subject)"),
    };
    let seconds = internal_seconds_exec(&msg.internal_date);
    let conversation = ConversationRecord {
        id: conv_id.clone(),
        connection_id: String::from_str(account),
        connector: String::from_str("gmail"),
        external_id: thread_id.clone(),
        name: Some(subject),
        kind: ConversationKind::Thread,
        last_message_at: seconds,
        unread_count: 0,
        is_muted: false,
    };
    let sender = parse_email_address(from.as_str());
    let sender_name = parse_email_name(from.as_str());
    let text_body = msg.text_body();
    let html_body = msg.html_body();
    let body: Option<String> = match &text_body {
        Some(t) => {
            if !looks_like_html(t.as_str()) {
                Some(t.clone())
            } else {
                Some(render_or_keep(rendered, t.as_str()))
            }
        },
        None => match &html_body {
            Some(h) => Some(render_or_keep(rendered, h.as_str())),
            None => copy_opt(&msg.snippet),
        },
    };
    let mut inbox = false;
    match &msg.label_ids {
        Some(labels) => {
            let mut i: usize = 0;
            while i < labels.len()
                invariant
                    i <= labels@.len(),
                    inbox == exists|k: int| 0 <= k < i && #[trigger] labels@[k]@ == "INBOX"@,
                decreases labels.len() - i,
            {
                if str_eq(labels[i].as_str(), "INBOX") {
                    inbox = true;
                }
                i = i + 1;
            }
            assert(inbox == has_inbox(labels@));
        },
        None => {},
    }
    let reply_to_id = match msg.get_header("In-Reply-To") {
        Some(v) => Some(cat3(account, "-", v.as_str())),
        None => None,
    };
    let message = MessageRecord {
        id: cat3(account, "-", msg_id.as_str()),
        conversation_id: conv_id,
        connection_id: String::from_str(account),
        connector: String::from_str("gmail"),
        external_id: msg_id.clone(),
        sender,
        sender_name: Some(sender_name),
        body,
        timestamp: match seconds {
            Some(s) => s,
            None => 0,
        },
        is_archived: !inbox,
        reply_to_id,
        context_id: Some(cat3(account, "-thread-", thread_id.as_str())),
    };
    GmailStorePlan { conversation, message, has_html: html_body.is_some(), snippet: copy_opt(&msg.snippet) }
}

/// The records for a Gmail message stored under `account`: its
/// [`html_source`], if any, is rendered as Markdown by html-to-markdown and
/// [`gmail_store_plan_rendered`] builds the records. Whatever the converter
/// renders, the plan is [`gmail_plan_of`] for some rendering: every record
/// field but a rendered body is fixed by the message.
pub fn gmail_store_plan(account: &str, msg: &GmailMessage) -> (p: GmailStorePlan)
    ensures
        exists|rendered: Option<Seq<char>>| gmail_plan_of(account@, *msg, rendered, p),
{
    let text_body = msg.text_body();
    let html_body = msg.html_body();
    let rendered = match &text_body {
        Some(t) => if looks_like_html(t.as_str()) {
            convert_html(t.as_str())
        } else {
            None
        },
        None => match &html_body {
            Some(h) => convert_html(h.as_str()),
            None => None,
        },
    };
    let ghost rv = opt_view(rendered);
    let p = gmail_store_plan_rendered(account, msg, rendered);
    assert(gmail_plan_of(account@, *msg, rv, p));
    p
}

/// Whether the labels hold `name`.
pub open spec fn has_label(ls: Seq<String>, name: Seq<char>) -> bool {
    exists|i: int| 0 <= i < ls.len() && #[trigger] ls[i]@ == name
}

fn label_present(labels: &Vec<String>, name: &str) -> (r: bool)
    ensures
        r == has_label(labels@, name@),
{
    let mut i: usize = 0;
    while i < labels.len()
        invariant
            i <= labels@.len(),
            forall|k: int| 0 <= k < i ==> #[trigger] labels@[k]@ != name@,
        decreases labels.len() - i,
    {
        if str_eq(labels[i].as_str(), name) {
            return true;
        }
        i = i + 1;
    }
    false
}

/// Whether a message added to the history is one the user sent that is not
/// in the inbox: incremental sync skips those.
pub fn is_sent_only(labels: &Option<Vec<String>>) -> (r: bool)
    ensures
        r == match labels {
            Some(ls) => has_label(ls@, "SENT"@) && !has_label(ls@, "INBOX"@),
            None => false,
        },
{
    match labels {
        Some(ls) => label_present(ls, "SENT") && !label_present(ls, "INBOX"),
        None => false,
    }
}

/// Whether the initial sync fetches another page: there is one, and fewer
/// than `max_pages` pages were read.
pub fn continue_paging(next_page_token: &Option<String>, pages_done: u64, max_pages: u64) -> (r: bool)
    ensures
        r == (next_page_token is Some && pages_done < max_pages),
{
    next_page_token.is_some() && pages_done < max_pages
}

/// The ids of the messages that a history page added, in order.
pub open spec fn added_ids(records: Seq<crate::gmail_message::HistoryRecord>) -> Seq<Seq<char>>
    decreases records.len(),
{
    if records.len() == 0 {
        Seq::empty()
    } else {
        added_ids(records.drop_last()) + match records.last().messages_added {
            Some(v) => v@.map_values(|a: crate::gmail_message::HistoryMessageAdded| a.message.id@),
            None => Seq::empty(),
        }
    }
}

/// The ids of the messages that a history page added, in order.
pub fn added_message_ids(resp: &HistoryListResponse) -> (r: Vec<String>)
    ensures
        crate::reddit::string_views(r@) == match resp.history {
            Some(h) => added_ids(h@),
            None => Seq::empty(),
        },
{
    let mut out: Vec<String> = Vec::new();
    match &resp.history {
        Some(h) => {
            let mut i: usize = 0;
            assert(h@.take(0).len() == 0);
            assert(crate::reddit::string_views(out@) == Seq::<Seq<char>>::empty());
            while i < h.len()
                invariant
                    i <= h@.len(),
                    crate::reddit::string_views(out@) == added_ids(h@.take(i as int)),
                decreases h.len() - i,
            {
                assert(h@.take(i + 1).drop_last() == h@.take(i as int));
                assert(h@.take(i + 1).last() == h@[i as int]);
                match &h[i].messages_added {
                    Some(added) => {
                        let ghost before = crate::reddit::string_views(out@);
                        let ghost av = added@.map_values(
                            |a: crate::gmail_message::HistoryMessageAdded| a.message.id@,
                        );
                        let mut j: usize = 0;
                        while j < added.len()
                            invariant
                                j <= added@.len(),
                                av == added@.map_values(
                                    |a: crate::gmail_message::HistoryMessageAdded| a.message.id@,
                                ),
                                crate::reddit::string_views(out@) == before + av.take(j as int),
                            decreases added.len() - j,
                        {
                            let ghost b2 = crate::reddit::string_views(out@);
                            out.push(added[j].message.id.clone());
                            assert(crate::reddit::string_views(out@) == b2.push(added@[j as int].message.id@));
                            assert(av.take(j + 1) == av.take(j as int).push(av[j as int]));
                            j = j + 1;
                        }
                        assert(av.take(added@.len() as int) == av);
                    },
                    None => {
                        assert(crate::reddit::string_views(out@) == crate::reddit::string_views(out@) + Seq::<Seq<char>>::empty());
                    },
                }
                i = i + 1;
            }
            assert(h@.take(h@.len() as int) == h@);
        },
        None => {
            assert(crate::reddit::string_views(out@) == Seq::<Seq<char>>::empty());
        },
    }
    out
}

/// Whether a cached token is to be refreshed: it has no expiry, or it
/// expires within the next minute.
pub fn token_expired(expires_at: Option<i64>, now: i64) -> (r: bool)
    ensures
        r == match expires_at {
            Some(exp) => now >= exp - 60,
            None => true,
        },
{
    match expires_at {
        Some(exp) => {
            if exp < i64::MIN + 60 {
                true
            } else {
                now >= exp - 60
            }
        },
        None => true,
    }
}

/// The addresses of a reply-all, as listed in `From`, `To` and `Cc`: each
/// trimmed, non-empty entry whose lowercased address is neither `own` nor
/// one already taken.
pub open spec fn reply_all_step(st: (Seq<Seq<char>>, Seq<Seq<char>>), raw: Seq<char>, own: Seq<char>) -> (Seq<Seq<char>>, Seq<Seq<char>>) {
    let (seen, out) = st;
    let a = trim(raw);
    let email = lowercase_str(parse_email_address_spec(a));
    if a.len() == 0 || email == own || seen.contains(email) {
        st
    } else {
        (seen.push(email), out.push(a))
    }
}

pub open spec fn reply_all_fold(pieces: Seq<Seq<char>>, st: (Seq<Seq<char>>, Seq<Seq<char>>), own: Seq<char>) -> (Seq<Seq<char>>, Seq<Seq<char>>)
    decreases pieces.len(),
{
    if pieces.len() == 0 {
        st
    } else {
        reply_all_step(reply_all_fold(pieces.drop_last(), st, own), pieces.last(), own)
    }
}

/// The comma-separated entries of header `name` (none when it is missing).
pub open spec fn header_pieces(msg: GmailMessage, name: Seq<char>) -> Seq<Seq<char>> {
    match message_header(msg, name) {
        Some(v) => split_char(v, ','),
        None => Seq::empty(),
    }
}

/// The comma-separated entries of the `From`, `To` and `Cc` headers, in that
/// order.
pub open spec fn address_pieces(msg: GmailMessage) -> Seq<Seq<char>> {
    header_pieces(msg, "From"@) + header_pieces(msg, "To"@) + header_pieces(msg, "Cc"@)
}

fn push_header_pieces(pieces: &mut Vec<Vec<char>>, msg: &GmailMessage, name: &str)
    ensures
        crate::text::views(final(pieces)@) == crate::text::views(old(pieces)@) + header_pieces(*msg, name@),
{
    let ghost before = crate::text::views(pieces@);
    match msg.get_header(name) {
        Some(val) => {
            let parts = split_chars(&chars_of(val.as_str()), ',');
            let mut k: usize = 0;
            while k < parts.len()
                invariant
                    k <= parts@.len(),
                    crate::text::views(pieces@) == before + crate::text::views(parts@).take(k as int),
                decreases parts.len() - k,
            {
                let ghost b2 = crate::text::views(pieces@);
                let piece = crate::text::slice_chars(&parts[k], 0, parts[k].len());
                assert(piece@ == parts@[k as int]@);
                pieces.push(piece);
                assert(crate::text::views(pieces@) == b2.push(parts@[k as int]@));
                assert(crate::text::views(parts@).take(k + 1) == crate::text::views(parts@).take(k as int).push(parts@[k as int]@));
                k = k + 1;
            }
            assert(crate::text::views(parts@).take(parts@.len() as int) == crate::text::views(parts@));
            assert(crate::text::views(parts@) == split_char(val@, ','));
        },
        None => {
            assert(crate::text::views(pieces@) == before + Seq::<Seq<char>>::empty());
        },
    }
}

/// The recipients of a reply-all to `msg`, joined by `, `.
pub open spec fn reply_all_spec(msg: GmailMessage, own_email: Seq<char>) -> Seq<char> {
    join(reply_all_fold(address_pieces(msg), (Seq::empty(), Seq::empty()), lowercase_str(own_email)).1, ", "@)
}

fn seen_contains(seen: &Vec<String>, email: &String) -> (r: bool)
    ensures
        r == crate::reddit::string_views(seen@).contains(email@),
{
    let ghost sv = crate::reddit::string_views(seen@);
    let mut i: usize = 0;
    while i < seen.len()
        invariant
            i <= seen@.len(),
            sv == crate::reddit::string_views(seen@),
            forall|k: int| 0 <= k < i ==> #[trigger] sv[k] != email@,
        decreases seen.len() - i,
    {
        assert(sv[i as int] == seen@[i as int]@);
        if seen[i] == *email {
            assert(sv[i as int] == email@);
            return true;
        }
        i = i + 1;
    }
    false
}

/// Builds the reply-all recipient list (see [`reply_all_spec`]).
pub fn build_reply_all_recipients(msg: &GmailMessage, own_email: &str) -> (r: String)
    ensures
        r@ == reply_all_spec(*msg, own_email@),
{
    let own = to_lowercase(own_email);
    let mut pieces: Vec<Vec<char>> = Vec::new();
    assert(crate::text::views(pieces@) == Seq::<Seq<char>>::empty());
    push_header_pieces(&mut pieces, msg, "From");
    push_header_pieces(&mut pieces, msg, "To");
    push_header_pieces(&mut pieces, msg, "Cc");
    let ghost all = crate::text::views(pieces@);
    assert(all == address_pieces(*msg));
    let mut seen: Vec<String> = Vec::new();
    let mut out: Vec<Vec<char>> = Vec::new();
    let mut i: usize = 0;
    assert(all.take(0).len() == 0);
    assert(crate::reddit::string_views(seen@) == Seq::<Seq<char>>::empty());
    assert(crate::text::views(out@) == Seq::<Seq<char>>::empty());
    while i < pieces.len()
        invariant
            i <= pieces@.len(),
            all == crate::text::views(pieces@),
            own@ == lowercase_str(own_email@),
            reply_all_fold(all.take(i as int), (Seq::empty(), Seq::empty()), own@) == (
                crate::reddit::string_views(seen@),
                crate::text::views(out@),
            ),
        decreases pieces.len() - i,
    {
        assert(all.take(i + 1).drop_last() == all.take(i as int));
        assert(all.take(i + 1).last() == pieces@[i as int]@);
        let a = trim_chars(&pieces[i]);
        if a.len() > 0 {
            let addr = parse_email_address(string_of(&a).as_str());
            let email = to_lowercase(addr.as_str());
            if !(email == own) && !seen_contains(&seen, &email) {
                let ghost s0 = crate::reddit::string_views(seen@);
                let ghost o0 = crate::text::views(out@);
                seen.push(email);
                out.push(a);
                assert(crate::reddit::string_views(seen@) == s0.push(email@));
                assert(crate::text::views(out@) == o0.push(a@));
            }
        }
        i = i + 1;
    }
    assert(all.take(pieces@.len() as int) == all);
    let sep = chars_of(", ");
    string_of(&join_chars(&out, &sep))
}

// ---------------------------------------------------------------------------
// iMessage
// ---------------------------------------------------------------------------

/// What ingesting one iMessage row writes, after checking that no message
/// with `external_id` is stored yet.
#[derive(Debug, Clone)]
pub struct ImessageIngestPlan {
    pub external_id: String,
    pub conversation: ConversationRecord,
    pub message: MessageRecord,
}

/// The conversation a row belongs to: its chat, else its handle; none when
/// that is empty.
pub open spec fn conversation_key(chat_guid: Option<Seq<char>>, handle: Option<Seq<char>>) -> Option<Seq<char>> {
    let k = match chat_guid {
        Some(c) => Some(c),
        None => handle,
    };
    match k {
        Some(s) => if s.len() > 0 {
            Some(s)
        } else {
            None
        },
        None => None,
    }
}

/// A chat id holding `chat` and no `;` names a group; anything else a
/// direct conversation.
pub open spec fn imessage_kind(conv_external: Seq<char>) -> ConversationKind {
    if contains(conv_external, "chat"@) && !contains(conv_external, ";"@) {
        ConversationKind::Group
    } else {
        ConversationKind::Dm
    }
}

/// The records for one row under `connection_id`, or `None` for a row with
/// neither chat nor handle (Messages' internal bookkeeping).
pub fn imessage_ingest_plan(connection_id: &str, row: &ImessageRow) -> (r: Option<ImessageIngestPlan>)
    ensures
        match conversation_key(opt_view(row.chat_guid), opt_view(row.handle)) {
            None => r is None,
            Some(key) => r matches Some(p) && {
                let conv_id = "im_"@ + connection_id@ + "_"@ + key;
                &&& p.external_id@ == "imessage_"@ + connection_id@ + "_"@ + row.guid@
                &&& p.conversation.id@ == conv_id
                &&& p.conversation.connection_id@ == connection_id@
                &&& p.conversation.connector@ == "imessage"@
                &&& p.conversation.external_id@ == key
                &&& p.conversation.name == row.handle
                &&& p.conversation.kind == imessage_kind(key)
                &&& p.conversation.last_message_at == Some(row.date_unix)
                &&& p.conversation.unread_count == 0
                &&& !p.conversation.is_muted
                &&& p.message.id@ == conv_id + "_"@ + row.guid@
                &&& p.message.conversation_id@ == conv_id
                &&& p.message.connection_id@ == connection_id@
                &&& p.message.connector@ == "imessage"@
                &&& p.message.external_id@ == "imessage_"@ + connection_id@ + "_"@ + row.guid@
                &&& p.message.sender@ == (if row.is_from_me {
                    "me"@
                } else {
                    match opt_view(row.handle) {
                        Some(h) => h,
                        None => key,
                    }
                })
                &&& p.message.sender_name == row.handle
                &&& p.message.body == row.body
                &&& p.message.timestamp == row.date_unix
                &&& !p.message.is_archived
                &&& p.message.reply_to_id is None
                &&& p.message.context_id is None
            },
        },
{
    let key: String = match &row.chat_guid {
        Some(c) => {
            if c.as_str().is_empty() {
                return None;
            }
            c.clone()
        },
        None => match &row.handle {
            Some(h) => {
                if h.as_str().is_empty() {
                    return None;
                }
                h.clone()
            },
            None => {
                return None;
            },
        },
    };
    let external_id = cat4("imessage_", connection_id, "_", row.guid.as_str());
    let conv_id = cat4("im_", connection_id, "_", key.as_str());
    let kind = if str_contains(key.as_str(), "chat") && !str_contains(key.as_str(), ";") {
        ConversationKind::Group
    } else {
        ConversationKind::Dm
    };
    let conversation = ConversationRecord {
        id: conv_id.clone(),
        connection_id: String::from_str(connection_id),
        connector: String::from_str("imessage"),
        external_id: key.clone(),
        name: copy_opt(&row.handle),
        kind,
        last_message_at: Some(row.date_unix),
        unread_count: 0,
        is_muted: false,
    };
    let sender: String = if row.is_from_me {
        String::from_str("me")
    } else {
        match &row.handle {
            Some(h) => h.clone(),
            None => key.clone(),
        }
    };
    let message = MessageRecord {
        id: cat3(conv_id.as_str(), "_", row.guid.as_str()),
        conversation_id: conv_id,
        connection_id: String::from_str(connection_id),
        connector: String::from_str("imessage"),
        external_id: external_id.clone(),
        sender,
        sender_name: copy_opt(&row.handle),
        body: copy_opt(&row.body),
        timestamp: row.date_unix,
        is_archived: false,
        reply_to_id: None,
        context_id: None,
    };
    Some(ImessageIngestPlan { external_id, conversation, message })
}

/// The cursor after a batch: the highest row id in it, or `cursor` for an
/// empty batch.
pub open spec fn batch_cursor_spec(rowids: Seq<i64>, cursor: i64) -> i64
    decreases rowids.len(),
{
    if rowids.len() == 0 {
        cursor
    } else if rowids.len() == 1 {
        rowids[0]
    } else {
        let m = batch_cursor_spec(rowids.drop_last(), cursor);
        if rowids.last() > m {
            rowids.last()
        } else {
            m
        }
    }
}

/// The cursor after a batch of rows (see [`batch_cursor_spec`]).
pub fn batch_cursor(rows: &Vec<ImessageRow>, cursor: i64) -> (r: i64)
    ensures
        r == batch_cursor_spec(rows@.map_values(|row: ImessageRow| row.rowid), cursor),
        forall|i: int| 0 <= i < rows@.len() ==> rows@[i].rowid <= r,
{
    let ghost ids = rows@.map_values(|row: ImessageRow| row.rowid);
    if rows.len() == 0 {
        return cursor;
    }
    let mut m = rows[0].rowid;
    let mut i: usize = 1;
    assert(ids.take(1).len() == 1);
    assert(ids.take(1)[0] == rows@[0].rowid);
    while i < rows.len()
        invariant
            1 <= i <= rows@.len(),
            ids == rows@.map_values(|row: ImessageRow| row.rowid),
            m == batch_cursor_spec(ids.take(i as int), cursor),
            forall|k: int| 0 <= k < i ==> rows@[k].rowid <= m,
        decreases rows.len() - i,
    {
        assert(ids.take(i + 1).drop_last() == ids.take(i as int));
        assert(ids.take(i + 1).last() == rows@[i as int].rowid);
        if rows[i].rowid > m {
            m = rows[i].rowid;
        }
        i = i + 1;
    }
    assert(ids.take(rows@.len() as int) == ids);
    m
}

/// The stored cursor: the parsed value, or 0 when absent or unreadable.
pub fn load_cursor_value(stored: Option<&str>) -> (r: i64)
    ensures
        r == match stored {
            Some(s) => match parse_i64_spec(s@) {
                Some(v) => v,
                None => 0,
            },
            None => 0,
        },
{
    match stored {
        Some(s) => match parse_i64(s) {
            Some(v) => v,
            None => 0,
        },
        None => 0,
    }
}

/// The key under which the iMessage cursor is stored.
pub const CURSOR_KEY: &'static str = "imessage_cursor";

/// `i64::to_string`: the decimal digits, after `-` for a negative value.
pub open spec fn i64_text(n: i64) -> Seq<char> {
    if n < 0 {
        seq!['-'] + decimal((-(n as int)) as nat)
    } else {
        decimal(n as nat)
    }
}

/// The text a cursor is stored as (see [`i64_text`]).
pub fn cursor_text(cursor: i64) -> (r: String)
    ensures
        r@ == i64_text(cursor),
{
    let mut v: Vec<char> = Vec::new();
    if cursor < 0 {
        v.push('-');
        let mag: u64 = if cursor == i64::MIN {
            9223372036854775808u64
        } else {
            (-cursor) as u64
        };
        push_decimal(&mut v, mag);
        assert(v@ =~= seq!['-'] + decimal((-(cursor as int)) as nat));
    } else {
        push_decimal(&mut v, cursor as u64);
        assert(v@ =~= decimal(cursor as nat));
    }
    string_of(&v)
}

proof fn lemma_decimal_digits(n: nat)
    ensures
        decimal(n).len() > 0,
        all_digits(decimal(n)),
        digits_value(decimal(n)) == n,
    decreases n,
{
    if n < 10 {
        assert(decimal(n).drop_last() =~= Seq::<char>::empty());
        assert(digit_char(n) as int == 48 + n);
        assert(decimal(n).last() == digit_char(n));
        assert(digits_value(decimal(n)) == digits_value(decimal(n).drop_last()) * 10 + (decimal(n).last() as int - 48));
        assert(digits_value(Seq::<char>::empty()) == 0);
    } else {
        lemma_decimal_digits(n / 10);
        let s = decimal(n / 10);
        let c = digit_char(n % 10);
        assert(decimal(n) == s.push(c));
        assert(s.push(c).drop_last() == s);
        assert(all_digits(s.push(c))) by {
            assert forall|i: int| 0 <= i < s.push(c).len() implies is_digit(#[trigger] s.push(c)[i]) by {
                if i < s.len() {
                    assert(s.push(c)[i] == s[i]);
                }
            }
        }
        assert(digit_char(n % 10) as int == 48 + n % 10);
        assert(digits_value(s.push(c)) == digits_value(s) * 10 + (c as int - 48));
        assert((n / 10) * 10 + n % 10 == n) by (nonlinear_arith);
    }
}

/// A cursor saved as text reads back as itself: what the next sync loads
/// is what the last one stored.
pub proof fn lemma_cursor_round_trip(cursor: i64)
    ensures
        parse_i64_spec(i64_text(cursor)) == Some(cursor),
{
    let t = i64_text(cursor);
    if cursor < 0 {
        let m: nat = (-(cursor as int)) as nat;
        lemma_decimal_digits(m);
        assert(t.drop_first() =~= decimal(m));
        assert(t[0] == '-');
    } else {
        lemma_decimal_digits(cursor as nat);
        let d = decimal(cursor as nat);
        assert(is_digit(d[0]));
    }
}

// ---------------------------------------------------------------------------
// Reddit
// ---------------------------------------------------------------------------

/// Where relative permalinks point.
pub const REDDIT_BASE: &'static str = "https://www.reddit.com";

/// The conversation of a followed subreddit.
pub fn subreddit_conversation(connection_id: &str, subreddit: &str) -> (c: ConversationRecord)
    ensures
        ({
            let sub = crate::reddit::sanitize_subreddit_spec(subreddit@);
            &&& c.id@ == connection_id@ + "-"@ + sub
            &&& c.connection_id@ == connection_id@
            &&& c.connector@ == "reddit"@
            &&& c.external_id@ == "reddit_"@ + connection_id@ + "_"@ + sub
            &&& opt_view(c.name) == Some("r/"@ + sub)
            &&& c.kind == ConversationKind::Channel
            &&& c.last_message_at is None
            &&& c.unread_count == 0
            &&& !c.is_muted
        }),
{
    let sub = crate::reddit::sanitize_subreddit(subreddit);
    ConversationRecord {
        id: cat3(connection_id, "-", sub.as_str()),
        connection_id: String::from_str(connection_id),
        connector: String::from_str("reddit"),
        external_id: cat4("reddit_", connection_id, "_", sub.as_str()),
        name: Some(cat2("r/", sub.as_str())),
        kind: ConversationKind::Channel,
        last_message_at: None,
        unread_count: 0,
        is_muted: false,
    }
}

/// The Reddit URL of a permalink: itself when absolute, else under
/// `https://www.reddit.com`.
pub open spec fn reddit_url_spec(permalink: Seq<char>) -> Seq<char> {
    if starts_with(permalink, "http"@) {
        permalink
    } else {
        REDDIT_BASE@ + permalink
    }
}

pub open spec fn score_of(score: Option<i32>) -> nat {
    match score {
        Some(v) => if v < 0 {
            0
        } else {
            v as nat
        },
        None => 0,
    }
}

/// The stored text of a post: title, link (unless it is the Reddit URL
/// itself or empty), Reddit URL, and the vote and comment counts.
pub open spec fn post_body_spec(title: Seq<char>, url: Seq<char>, reddit_url: Seq<char>, score: nat, comments: nat) -> Seq<char> {
    let counts = decimal(score) + " upvotes | "@ + decimal(comments) + " comments"@;
    if url.len() == 0 || url == reddit_url {
        title + "\n"@ + reddit_url + "\n"@ + counts
    } else {
        title + "\n"@ + url + "\n"@ + reddit_url + "\n"@ + counts
    }
}

/// The stored text of a post, built from its parts.
fn post_body(title: &str, url: &str, rurl: &str, score: u32, comments: u32) -> (b: String)
    ensures
        b@ == post_body_spec(title@, url@, rurl@, score as nat, comments as nat),
{
    let mut body = chars_of(title);
    append_str(&mut body, "\n");
    if !(url.is_empty() || str_eq(url, rurl)) {
        append_str(&mut body, url);
        append_str(&mut body, "\n");
    }
    append_str(&mut body, rurl);
    append_str(&mut body, "\n");
    push_decimal(&mut body, score as u64);
    append_str(&mut body, " upvotes | ");
    push_decimal(&mut body, comments as u64);
    append_str(&mut body, " comments");
    string_of(&body)
}

/// The metadata stored with a post's message (the vote ratio, a float, is
/// added by the caller).
#[derive(Debug, Clone)]
pub struct RedditPostMeta {
    pub reddit_id: String,
    pub subreddit: String,
    pub score: u32,
    pub url: String,
    pub reddit_url: String,
    pub num_comments: u32,
}

/// The message stored for a post, with its metadata.
#[derive(Debug, Clone)]
pub struct RedditPostRecord {
    pub message: MessageRecord,
    pub meta: RedditPostMeta,
}

/// The message stored for a post of `subreddit`, dated `timestamp`.
pub fn reddit_post_message(post: &RedditPost, connection_id: &str, conv_id: &str, subreddit: &str, timestamp: i64) -> (rec: RedditPostRecord)
    ensures
        ({
            let m = rec.message;
            let title = match opt_view(post.title) {
                Some(t) => t,
                None => "(untitled)"@,
            };
            let author = match opt_view(post.author) {
                Some(a) => a,
                None => "[deleted]"@,
            };
            let url = or_empty(opt_view(post.url));
            let rurl = reddit_url_spec(or_empty(opt_view(post.permalink)));
            let comments: nat = match post.num_comments {
                Some(n) => n as nat,
                None => 0,
            };
            &&& m.id@ == connection_id@ + "-"@ + post.id@
            &&& m.conversation_id@ == conv_id@
            &&& m.connection_id@ == connection_id@
            &&& m.connector@ == "reddit"@
            &&& m.external_id@ == "reddit_"@ + connection_id@ + "_"@ + post.id@
            &&& m.sender@ == author
            &&& opt_view(m.sender_name) == Some(author)
            &&& opt_view(m.body) == Some(post_body_spec(title, url, rurl, score_of(post.score), comments))
            &&& m.timestamp == timestamp
            &&& !m.is_archived
            &&& m.reply_to_id is None
            &&& m.context_id is None
            &&& rec.meta.reddit_id@ == post.id@
            &&& rec.meta.subreddit@ == subreddit@
            &&& rec.meta.score as nat == score_of(post.score)
            &&& rec.meta.url@ == url
            &&& rec.meta.reddit_url@ == rurl
            &&& rec.meta.num_comments as nat == comments
        }),
{
    let title: String = match &post.title {
        Some(t) => t.clone(),
        None => String::from_str("(untitled)"),
    };
    let author: String = match &post.author {
        Some(a) => a.clone(),
        None => String::from_str("[deleted]"),
    };
    let score: u32 = match post.score {
        Some(v) => if v < 0 {
            0
        } else {
            v as u32
        },
        None => 0,
    };
    let url: String = match &post.url {
        Some(u) => u.clone(),
        None => String::new(),
    };
    let permalink: String = match &post.permalink {
        Some(p) => p.clone(),
        None => String::new(),
    };
    let rurl = if str_starts_with(permalink.as_str(), "http") {
        permalink.clone()
    } else {
        cat2(REDDIT_BASE, permalink.as_str())
    };
    let comments: u32 = match post.num_comments {
        Some(n) => n,
        None => 0,
    };
    let body = post_body(title.as_str(), url.as_str(), rurl.as_str(), score, comments);
    let message = MessageRecord {
        id: cat3(connection_id, "-", post.id.as_str()),
        conversation_id: String::from_str(conv_id),
        connection_id: String::from_str(connection_id),
        connector: String::from_str("reddit"),
        external_id: cat4("reddit_", connection_id, "_", post.id.as_str()),
        sender: author.clone(),
        sender_name: Some(author),
        body: Some(body),
        timestamp,
        is_archived: false,
        reply_to_id: None,
        context_id: None,
    };
    let meta = RedditPostMeta {
        reddit_id: post.id.clone(),
        subreddit: String::from_str(subreddit),
        score,
        url,
        reddit_url: rurl,
        num_comments: comments,
    };
    RedditPostRecord { message, meta }
}

} // verus!
