//! The plain-text messages of the Gmail channel: a new message, a reply,
//! and what each outgoing content puts in them.

use vstd::prelude::*;
use crate::gmail_compose::{parse_email_name, parse_email_name_spec};
use crate::gmail_message::{message_header, opt_view, GmailMessage};
use crate::imessage::OutgoingContent;
use crate::records::{internal_seconds, internal_seconds_exec, or_empty, ConversationKind};
use crate::text::{append_str, chars_of, contains, str_contains, string_of};

verus! {

/// `To`, `Subject` and a plain-text content type, a blank line, the body.
pub open spec fn plain_message_spec(to: Seq<char>, subject: Seq<char>, body: Seq<char>) -> Seq<char> {
    "To: "@ + to + "\r\nSubject: "@ + subject + "\r\nContent-Type: text/plain; charset=utf-8\r\n\r\n"@ + body
}

/// Builds a plain-text message (see [`plain_message_spec`]).
pub fn compose_rfc2822(to: &str, subject: &str, body: &str) -> (r: String)
    ensures
        r@ == plain_message_spec(to@, subject@, body@),
{
    let mut v = chars_of("To: ");
    append_str(&mut v, to);
    append_str(&mut v, "\r\nSubject: ");
    append_str(&mut v, subject);
    append_str(&mut v, "\r\nContent-Type: text/plain; charset=utf-8\r\n\r\n");
    append_str(&mut v, body);
    string_of(&v)
}

/// A reply: `In-Reply-To` and `References` naming the message, a plain-text
/// content type, a blank line, the body.
pub open spec fn plain_reply_spec(message_id: Seq<char>, body: Seq<char>) -> Seq<char> {
    "In-Reply-To: "@ + message_id + "\r\nReferences: "@ + message_id
        + "\r\nContent-Type: text/plain; charset=utf-8\r\n\r\n"@ + body
}

/// Builds a plain-text reply (see [`plain_reply_spec`]).
pub fn reply_rfc2822(message_id: &str, body: &str) -> (r: String)
    ensures
        r@ == plain_reply_spec(message_id@, body@),
{
    let mut v = chars_of("In-Reply-To: ");
    append_str(&mut v, message_id);
    append_str(&mut v, "\r\nReferences: ");
    append_str(&mut v, message_id);
    append_str(&mut v, "\r\nContent-Type: text/plain; charset=utf-8\r\n\r\n");
    append_str(&mut v, body);
    string_of(&v)
}

/// The body sent for a content: the text, or a file's caption (empty when
/// it has none; the file itself is not sent).
pub open spec fn content_body(content: OutgoingContent) -> Seq<char> {
    match content {
        OutgoingContent::Text(t) => t@,
        OutgoingContent::File { caption, .. } => match caption {
            Some(c) => c@,
            None => Seq::empty(),
        },
    }
}

/// The subject of a new message for a content.
pub open spec fn content_subject(content: OutgoingContent) -> Seq<char> {
    match content {
        OutgoingContent::Text(_) => "(no subject)"@,
        OutgoingContent::File { .. } => "(attachment)"@,
    }
}

/// The body sent for a content (see [`content_body`]).
pub fn outgoing_body(content: &OutgoingContent) -> (r: String)
    ensures
        r@ == content_body(*content),
{
    match content {
        OutgoingContent::Text(t) => t.clone(),
        OutgoingContent::File { caption, .. } => match caption {
            Some(c) => c.clone(),
            None => String::new(),
        },
    }
}

/// The new message sent to `to` for a content: its subject and body (see
/// [`content_subject`], [`content_body`]).
pub fn outgoing_message(to: &str, content: &OutgoingContent) -> (r: String)
    ensures
        r@ == plain_message_spec(to@, content_subject(*content), content_body(*content)),
{
    let subject = match content {
        OutgoingContent::Text(_) => "(no subject)",
        OutgoingContent::File { .. } => "(attachment)",
    };
    let body = outgoing_body(content);
    compose_rfc2822(to, subject, body.as_str())
}

/// A thread as the channel stores it.
#[derive(Debug)]
pub struct ChannelConversation {
    pub id: String,
    pub account_id: String,
    pub external_id: String,
    pub name: Option<String>,
    pub kind: ConversationKind,
    pub last_message_at: Option<i64>,
    pub unread_count: i64,
}

/// A message as the channel stores it.
#[derive(Debug)]
pub struct ChannelMessage {
    pub id: String,
    pub conversation_id: String,
    pub account_id: String,
    pub external_id: String,
    pub sender: String,
    pub sender_name: Option<String>,
    pub body: Option<String>,
    pub timestamp: i64,
    pub is_from_me: bool,
    pub reply_to_id: Option<String>,
}

/// What the channel stores for a message: its thread and itself.
#[derive(Debug)]
pub struct ChannelStorePlan {
    pub conversation: ChannelConversation,
    pub message: ChannelMessage,
}

fn join3(a: &str, b: &str, c: &str) -> (r: String)
    ensures
        r@ == a@ + b@ + c@,
{
    let mut v = chars_of(a);
    append_str(&mut v, b);
    append_str(&mut v, c);
    string_of(&v)
}

/// The records the channel stores for `msg` under `account`: the thread
/// (named by its subject), and the message with the raw `From` as sender,
/// the snippet as body, and marked as sent by the user when `From` holds
/// their address.
pub fn channel_store_plan(account: &str, my_email: Option<&str>, msg: &GmailMessage) -> (p: ChannelStorePlan)
    ensures
        ({
            let msg_id = or_empty(opt_view(msg.id));
            let thread_id = match opt_view(msg.thread_id) {
                Some(t) => t,
                None => msg_id,
            };
            let from = or_empty(message_header(*msg, "From"@));
            let conv_id = account@ + "-"@ + thread_id;
            let seconds = internal_seconds(opt_view(msg.internal_date));
            &&& p.conversation.id@ == conv_id
            &&& p.conversation.account_id@ == account@
            &&& p.conversation.external_id@ == thread_id
            &&& opt_view(p.conversation.name) == Some(
                match message_header(*msg, "Subject"@) {
                    Some(s) => s,
                    None => "(no subject)"@,
                },
            )
            &&& p.conversation.kind == ConversationKind::Thread
            &&& p.conversation.last_message_at == seconds
            &&& p.conversation.unread_count == 0
            &&& p.message.id@ == account@ + "-"@ + msg_id
            &&& p.message.conversation_id@ == conv_id
            &&& p.message.account_id@ == account@
            &&& p.message.external_id@ == msg_id
            &&& p.message.sender@ == from
            &&& opt_view(p.message.sender_name) == Some(parse_email_name_spec(from))
            &&& p.message.body == msg.snippet
            &&& p.message.timestamp == match seconds {
                Some(s) => s,
                None => 0,
            }
            &&& p.message.is_from_me == match my_email {
                Some(e) => contains(from, e@),
                None => false,
            }
            &&& opt_view(p.message.reply_to_id) == match message_header(*msg, "In-Reply-To"@) {
                Some(v) => Some(account@ + "-"@ + v),
                None => None,
            }
        }),
{
    let msg_id: String = match &msg.id {
        Some(i) => i.clone(),
        None => String::new(),
    };
    let thread_id: String = match &msg.thread_id {
        Some(t) => t.clone(),
        None => msg_id.clone(),
    };
    let conv_id = join3(account, "-", thread_id.as_str());
    let subject: String = match msg.get_header("Subject") {
        Some(s) => s,
        None => String::from_str("(no subject)"),
    };
    let from: String = match msg.get_header("From") {
        Some(f) => f,
        None => String::new(),
    };
    let seconds = internal_seconds_exec(&msg.internal_date);
    let conversation = ChannelConversation {
        id: conv_id.clone(),
        account_id: String::from_str(account),
        external_id: thread_id,
        name: Some(subject),
        kind: ConversationKind::Thread,
        last_message_at: seconds,
        unread_count: 0,
    };
    let is_from_me = match my_email {
        Some(e) => str_contains(from.as_str(), e),
        None => false,
    };
    let sender_name = parse_email_name(from.as_str());
    let reply_to_id = match msg.get_header("In-Reply-To") {
        Some(v) => Some(join3(account, "-", v.as_str())),
        None => None,
    };
    let snippet: Option<String> = match &msg.snippet {
        Some(s) => Some(s.clone()),
        None => None,
    };
    let message = ChannelMessage {
        id: join3(account, "-", msg_id.as_str()),
        conversation_id: conv_id,
        account_id: String::from_str(account),
        external_id: msg_id,
        sender: from,
        sender_name: Some(sender_name),
        body: snippet,
        timestamp: match seconds {
            Some(s) => s,
            None => 0,
        },
        is_from_me,
        reply_to_id,
    };
    ChannelStorePlan { conversation, message }
}

} // verus!
