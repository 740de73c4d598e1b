use void_kit::gmail_compose::{
    append_gmail_signature, apply_signature_to_forward, build_forward_body, compose_rfc2822,
    compose_rfc2822_ex, encode_rfc2047, looks_like_html, looks_like_html_for_compose,
    html_to_markdown, parse_email_address, parse_email_name, render_or_keep, ComposeRecipients,
    ComposeSignature,
};
use void_kit::gmail_error::{
    api_error, google_error_reasons, is_insufficient_scope_body, is_retryable_quota_body, GmailError,
};
use void_kit::json::Json;
use void_kit::gmail_message::{
    gmail_url, GmailMessage, MessageHeader, MessagePart, MessagePartBody, MessagePayload,
};
use void_kit::gmail_channel::{channel_store_plan, outgoing_message, reply_rfc2822};
use void_kit::gmail_compose::{
    compose_rfc2822_with_attachment, derived_recipients, draft_rfc2822, draft_recipients,
    encode_raw_message, forward_subject, reply_subject,
};
use void_kit::gmail_message::{HistoryListResponse, HistoryMessageAdded, HistoryRecord, MessageRef};
use void_kit::gmail_retry::{is_retryable, retry_after, retry_after_at, Delay, RetryPolicy};
use void_kit::imessage::OutgoingContent;
use void_kit::records::{
    added_message_ids, build_reply_all_recipients, continue_paging, gmail_store_plan, gmail_store_plan_rendered, is_sent_only,
    token_expired, ConversationKind,
};

fn s(x: &str) -> Json {
    Json::Str(x.to_string())
}

fn obj(members: Vec<(&str, Json)>) -> Json {
    Json::Object(members.into_iter().map(|(k, v)| (k.to_string(), v)).collect())
}

/// `{"error":{key:[{"reason":reason}]}}`
fn reason_body(key: &str, reason: &str) -> Option<Json> {
    Some(obj(vec![("error", obj(vec![(key, Json::Array(vec![obj(vec![("reason", s(reason))])]))]))]))
}

#[test]
fn insufficient_scope_body_detects_google_reason() {
    assert!(is_insufficient_scope_body(
        r#"{"error":{"details":[{"reason":"ACCESS_TOKEN_SCOPE_INSUFFICIENT"}]}}"#,
        &reason_body("details", "ACCESS_TOKEN_SCOPE_INSUFFICIENT")
    ));
    assert!(is_insufficient_scope_body("Request had insufficient authentication scopes.", &None));
    assert!(is_insufficient_scope_body(
        r#"{"error":{"errors":[{"reason":"insufficientPermissions"}]}}"#,
        &reason_body("errors", "insufficientPermissions")
    ));
    assert!(!is_insufficient_scope_body("Admin has disabled this API for the domain.", &None));
    assert!(!is_insufficient_scope_body(
        "You do not have permission to access this resource.",
        &None
    ));
    assert!(!is_insufficient_scope_body("insufficient permissions", &None));
    assert!(!is_insufficient_scope_body("", &None));
}

#[test]
fn google_error_reasons_reads_both_shapes() {
    assert_eq!(
        google_error_reasons(&reason_body("errors", "rateLimitExceeded")),
        vec!["ratelimitexceeded".to_string()]
    );
    assert_eq!(
        google_error_reasons(&reason_body("details", "backendError")),
        vec!["backenderror".to_string()]
    );
    assert!(google_error_reasons(&None).is_empty());
    assert!(google_error_reasons(&Some(obj(vec![("something", s("else"))]))).is_empty());
}

#[test]
fn retryable_quota_body_detects_the_403_gmail_actually_sends() {
    let body = r#"{"error":{"code":403,"message":"User-rate limit exceeded.  Retry after 2026-09-11T20:00:00.000Z","errors":[{"message":"User-rate limit exceeded.","domain":"usageLimits","reason":"rateLimitExceeded"}],"status":"PERMISSION_DENIED"}}"#;
    let parsed = Some(obj(vec![(
        "error",
        obj(vec![
            ("code", Json::Number),
            ("message", s("User-rate limit exceeded.  Retry after 2026-09-11T20:00:00.000Z")),
            (
                "errors",
                Json::Array(vec![obj(vec![
                    ("message", s("User-rate limit exceeded.")),
                    ("domain", s("usageLimits")),
                    ("reason", s("rateLimitExceeded")),
                ])]),
            ),
            ("status", s("PERMISSION_DENIED")),
        ]),
    )]));
    assert!(is_retryable_quota_body(body, &parsed));
    assert!(is_retryable_quota_body(
        r#"{"error":{"errors":[{"reason":"userRateLimitExceeded"}]}}"#,
        &reason_body("errors", "userRateLimitExceeded")
    ));
    assert!(is_retryable_quota_body(
        r#"{"error":{"errors":[{"reason":"quotaExceeded"}]}}"#,
        &reason_body("errors", "quotaExceeded")
    ));
    assert!(is_retryable_quota_body(
        r#"{"error":{"details":[{"reason":"backendError"}]}}"#,
        &reason_body("details", "backendError")
    ));
}

#[test]
fn retryable_quota_body_rejects_real_answers() {
    let scope = r#"{"error":{"message":"Request had insufficient authentication scopes.","status":"PERMISSION_DENIED","details":[{"reason":"ACCESS_TOKEN_SCOPE_INSUFFICIENT"}]}}"#;
    let scope_parsed = Some(obj(vec![(
        "error",
        obj(vec![
            ("message", s("Request had insufficient authentication scopes.")),
            ("status", s("PERMISSION_DENIED")),
            ("details", Json::Array(vec![obj(vec![("reason", s("ACCESS_TOKEN_SCOPE_INSUFFICIENT"))])])),
        ]),
    )]));
    assert!(!is_retryable_quota_body(scope, &scope_parsed));
    assert!(!is_retryable_quota_body(
        r#"{"error":{"errors":[{"reason":"insufficientPermissions"}]}}"#,
        &reason_body("errors", "insufficientPermissions")
    ));
    assert!(!is_retryable_quota_body(
        r#"{"error":{"errors":[{"reason":"forbidden"}]}}"#,
        &reason_body("errors", "forbidden")
    ));
    assert!(!is_retryable_quota_body("Admin has disabled this API for the domain.", &None));
    assert!(!is_retryable_quota_body("You have exceeded your daily quota of patience.", &None));
    assert!(!is_retryable_quota_body("", &None));
}

#[test]
fn quota_reason_token_in_plain_text_counts() {
    assert!(is_retryable_quota_body("reason: backendError", &None));
}

#[test]
fn delay_grows_and_stays_capped() {
    let p = RetryPolicy {
        max_attempts: 6,
        base_delay: Delay::from_millis(100),
        max_delay: Delay::from_millis(800),
    };
    assert!(p.delay_for(1).as_nanos() >= Delay::from_millis(50).as_nanos());
    assert!(p.delay_for(1).as_nanos() <= Delay::from_millis(100).as_nanos());
    assert!(p.delay_for(3).as_nanos() <= Delay::from_millis(400).as_nanos());
    assert!(p.delay_for(20).as_nanos() <= Delay::from_millis(800).as_nanos());
}

#[test]
fn capped_delay_doubles() {
    let p = RetryPolicy {
        max_attempts: 6,
        base_delay: Delay::from_millis(100),
        max_delay: Delay::from_millis(800),
    };
    assert_eq!(p.capped_for(1).as_nanos(), 100_000_000);
    assert_eq!(p.capped_for(2).as_nanos(), 200_000_000);
    assert_eq!(p.capped_for(3).as_nanos(), 400_000_000);
    assert_eq!(p.capped_for(10).as_nanos(), 800_000_000);
}

#[test]
fn jitter_stays_in_upper_half() {
    let capped = Delay::from_millis(100);
    let d = void_kit::gmail_retry::jitter_with(capped, 123_456_789);
    assert_eq!(d.as_nanos(), 50_000_000 + 123_456_789 % 50_000_000);
}

#[test]
fn retryable_statuses() {
    assert!(is_retryable(429));
    assert!(is_retryable(500));
    assert!(is_retryable(503));
    assert!(!is_retryable(401));
    assert!(!is_retryable(403));
    assert!(!is_retryable(404));
    assert!(!is_retryable(200));
}

#[test]
fn default_policy() {
    let p = RetryPolicy::default();
    assert_eq!(p.max_attempts, 4);
    assert_eq!(p.base_delay.as_nanos(), 500_000_000);
    assert_eq!(p.max_delay.as_nanos(), 16_000_000_000);
}

#[test]
fn error_messages() {
    assert_eq!(GmailError::Api("x".to_string()).message(), "API error: x");
    assert_eq!(
        GmailError::HistoryExpired.message(),
        "gmail history expired; full inbox refresh required"
    );
}

#[test]
fn rfc2047_leaves_ascii_and_encodes_the_rest() {
    assert_eq!(encode_rfc2047("Hello"), "Hello");
    assert_eq!(encode_rfc2047("café"), "=?UTF-8?B?Y2Fmw6k=?=");
}

#[test]
fn compose_plain_body() {
    let raw = compose_rfc2822("a@b.c", "Hi", "line1\nline2", Some("<id@x>"), None).unwrap();
    assert!(raw.starts_with("To: a@b.c\r\nSubject: Hi\r\nContent-Type: text/html; charset=utf-8\r\n"));
    assert!(raw.contains("In-Reply-To: <id@x>\r\n"));
    assert!(!raw.contains("References:"));
    // "line1<br>\nline2" in base64.
    assert!(raw.ends_with("\r\n\r\nbGluZTE8YnI+CmxpbmUy"));
}

#[test]
fn compose_rejects_header_injection() {
    let r = ComposeRecipients { to: "a@b.c", cc: Some("x@y.z\r\nBcc: evil@z"), bcc: None };
    let err = compose_rfc2822_ex(r, "s", "b", None, None, None).unwrap_err();
    assert_eq!(err, "invalid Cc: address fields must not contain control characters (e.g. CR/LF)");
    let err = compose_rfc2822("a@b.c\n", "s", "b", None, None).unwrap_err();
    assert!(err.starts_with("invalid To:"));
}

#[test]
fn compose_wraps_long_bodies_at_76() {
    let body = "x".repeat(200);
    let raw = compose_rfc2822_ex(ComposeRecipients::to_only("t@t.t"), "s", &body, None, None, Some(true)).unwrap();
    let encoded = raw.split("\r\n\r\n").nth(1).unwrap();
    let lines: Vec<&str> = encoded.split("\r\n").collect();
    assert!(lines.len() > 1);
    assert!(lines[..lines.len() - 1].iter().all(|l| l.len() == 76));
}

#[test]
fn compose_cc_and_bcc_are_trimmed() {
    let r = ComposeRecipients { to: "a@b.c", cc: Some("  c@d.e "), bcc: Some("   ") };
    let raw = compose_rfc2822_ex(r, "s", "<div>x</div>", None, None, None).unwrap();
    assert!(raw.starts_with("To: a@b.c\r\nCc: c@d.e\r\nSubject: s\r\n"));
}

#[test]
fn email_address_and_name() {
    assert_eq!(parse_email_address("Ann Lee <ann@x.org>"), "ann@x.org");
    assert_eq!(parse_email_address("  ann@x.org "), "ann@x.org");
    assert_eq!(parse_email_name("\"Ann Lee\" <ann@x.org>"), "Ann Lee");
    assert_eq!(parse_email_name("ann@x.org"), "ann@x.org");
}

#[test]
fn html_detection() {
    assert!(looks_like_html("  <!DOCTYPE html><p>x"));
    assert!(looks_like_html("<div>a</div>"));
    assert!(!looks_like_html("a <br> b"));
    assert!(looks_like_html_for_compose("a <br> b"));
    assert!(looks_like_html_for_compose("see <a href=\"x\">here</a>"));
    assert!(!looks_like_html_for_compose("plain text"));
    assert!(looks_like_html_for_compose("Hi<br>there"));
    assert!(!looks_like_html("Hi<br>there"));
    assert!(looks_like_html_for_compose("see <a href=x>link</a>"));
    assert!(looks_like_html_for_compose("<div>x</div>"));
}

#[test]
fn forward_body_text_and_html() {
    let (t, is_html) = build_forward_body(Some("fyi"), "A <a@x>", "Mon", "Subj", "b@y", None, Some("orig"));
    assert!(!is_html);
    assert_eq!(
        t,
        "fyi\r\n\r\n---------- Forwarded message ---------\r\nFrom: A <a@x>\r\nDate: Mon\r\nSubject: Subj\r\nTo: b@y\r\n\r\norig"
    );
    let (h, is_html) = build_forward_body(None, "A <a@x>", "Mon", "S&P", "b@y", Some("<p>hi</p>"), None);
    assert!(is_html);
    assert!(h.contains("From: A &lt;a@x&gt;<br>"));
    assert!(h.contains("Subject: S&amp;P<br>"));
    assert!(h.ends_with("</div><br><p>hi</p></div>"));
}

#[test]
fn signature_appended_and_inserted() {
    assert_eq!(append_gmail_signature("body", "   "), "body");
    assert_eq!(
        append_gmail_signature("a\nb", " <b>sig</b> "),
        "a<br>\nb<br><br><div class=\"gmail_signature\" data-smartmail=\"gmail_signature\"><b>sig</b></div>"
    );
    let (out, html) = apply_signature_to_forward("c<div class=\"gmail_quote\">q</div>", true, "S");
    assert!(html);
    assert_eq!(
        out,
        "c<br><br><div class=\"gmail_signature\" data-smartmail=\"gmail_signature\">S</div><br><div class=\"gmail_quote\">q</div>"
    );
}

#[test]
fn signature_flags() {
    assert_eq!(ComposeSignature::from_flags(false, Some("x@y")), ComposeSignature::Omitted);
    assert_eq!(ComposeSignature::from_flags(true, None), ComposeSignature::Default);
    assert_eq!(ComposeSignature::from_flags(true, Some("x@y")).send_as_email(), Some("x@y"));
    assert_eq!(ComposeSignature::Default.send_as_email(), None);
}

fn part(mime: &str, data: Option<&str>, attachment_id: Option<&str>, filename: Option<&str>, parts: Option<Vec<MessagePart>>) -> MessagePart {
    MessagePart {
        part_id: None,
        mime_type: Some(mime.to_string()),
        filename: filename.map(|f| f.to_string()),
        headers: None,
        body: Some(MessagePartBody {
            attachment_id: attachment_id.map(|a| a.to_string()),
            size: Some(10),
            data: data.map(|d| d.to_string()),
        }),
        parts,
    }
}

fn message(payload: MessagePayload) -> GmailMessage {
    GmailMessage {
        id: Some("m".to_string()),
        thread_id: Some("t".to_string()),
        label_ids: None,
        snippet: None,
        internal_date: None,
        payload: Some(payload),
    }
}

#[test]
fn mime_tree_walk() {
    // "hello" and "<b>hi</b>" in unpadded base64url.
    let alt = part(
        "multipart/alternative",
        None,
        None,
        None,
        Some(vec![
            part("text/plain", Some("aGVsbG8"), None, None, None),
            part("text/html", None, Some("big-html"), None, None),
        ]),
    );
    let payload = MessagePayload {
        mime_type: Some("multipart/mixed".to_string()),
        headers: Some(vec![MessageHeader { name: "Subject".to_string(), value: "Hey".to_string() }]),
        body: None,
        parts: Some(vec![alt, part("application/pdf", None, Some("att-1"), Some("a.pdf"), None)]),
    };
    let m = message(payload);
    assert_eq!(m.get_header("subject").as_deref(), Some("Hey"));
    assert_eq!(m.get_header("From"), None);
    assert_eq!(m.text_body().as_deref(), Some("hello"));
    assert_eq!(m.html_body(), None);
    assert_eq!(m.html_body_attachment_id().as_deref(), Some("big-html"));
    assert_eq!(m.text_body_attachment_id(), None);
    let files = m.file_attachments();
    assert_eq!(files.len(), 1);
    assert_eq!(files[0].filename, "a.pdf");
    assert_eq!(files[0].attachment_id, "att-1");
}

#[test]
fn gmail_url_formats_correctly() {
    assert_eq!(gmail_url("thread123"), "https://mail.google.com/mail/u/0/#inbox/thread123");
}

#[test]
fn retryable_covers_quota_and_backend_errors() {
    assert!(is_retryable(reqwest::StatusCode::TOO_MANY_REQUESTS.as_u16()));
    assert!(is_retryable(reqwest::StatusCode::INTERNAL_SERVER_ERROR.as_u16()));
    assert!(is_retryable(reqwest::StatusCode::SERVICE_UNAVAILABLE.as_u16()));
}

#[test]
fn retryable_excludes_real_answers() {
    assert!(!is_retryable(reqwest::StatusCode::UNAUTHORIZED.as_u16()));
    assert!(!is_retryable(reqwest::StatusCode::FORBIDDEN.as_u16()));
    assert!(!is_retryable(reqwest::StatusCode::NOT_FOUND.as_u16()));
    assert!(!is_retryable(reqwest::StatusCode::OK.as_u16()));
}

#[test]
fn retry_after_reads_seconds_and_dates() {
    assert_eq!(retry_after_at(" 7 ", 0), Some(Delay::from_secs(7)));
    assert_eq!(retry_after(" 7 "), Some(Delay::from_secs(7)));
    // Thu, 01 Jan 1970 00:01:40 GMT is 100 s after the epoch.
    assert_eq!(retry_after_at("Thu, 01 Jan 1970 00:01:40 GMT", 40), Some(Delay::from_secs(60)));
    assert_eq!(retry_after_at("Thu, 01 Jan 1970 00:01:40 GMT", 100), None);
    assert_eq!(retry_after_at("soon", 0), None);
    assert_eq!(retry_after_at("-5", 0), None);
}

#[test]
fn compose_rfc2822_with_attachment_creates_multipart() {
    let raw = compose_rfc2822_with_attachment(
        ComposeRecipients::to_only("a@b.com"),
        "Subj",
        "body",
        Some("notes.txt"),
        b"test content",
        None,
        None,
        None,
    )
    .unwrap();
    assert!(raw.contains("void_boundary_001"));
    assert!(raw.contains("Content-Type: multipart/mixed"));
    assert!(raw.contains("Content-Transfer-Encoding: base64"));
    assert!(raw.contains("dGVzdCBjb250ZW50"));
    assert!(raw.contains("notes.txt"));
    assert!(raw.contains("To: a@b.com"));
    assert!(raw.contains("Subject: Subj"));
    assert!(raw.contains("Content-Disposition: attachment"));
    assert!(raw.contains("Content-Type: application/octet-stream; name=\"notes.txt\""));
    assert!(raw.ends_with("dGVzdCBjb250ZW50\r\n--void_boundary_001--"));
}

#[test]
fn compose_rfc2822_with_attachment_uses_provided_mime_type() {
    let pdf = compose_rfc2822_with_attachment(
        ComposeRecipients::to_only("x@y.com"),
        "Doc",
        "See attached",
        Some("doc.pdf"),
        b"PDF bytes",
        Some("application/pdf"),
        None,
        None,
    )
    .unwrap();
    assert!(pdf.contains("Content-Type: application/pdf"));
    assert!(pdf.contains("Content-Type: application/pdf; name=\"doc.pdf\""));
    let unnamed = compose_rfc2822_with_attachment(
        ComposeRecipients::to_only("x@y.com"),
        "Doc",
        "See attached",
        None,
        b"PDF bytes",
        Some("application/pdf"),
        None,
        None,
    )
    .unwrap();
    assert!(unnamed.contains("Content-Type: application/pdf; name=\"attachment\""));
}

#[test]
fn channel_messages_are_plain_text() {
    assert_eq!(
        reply_rfc2822("<m@x>", "ok"),
        "In-Reply-To: <m@x>\r\nReferences: <m@x>\r\nContent-Type: text/plain; charset=utf-8\r\n\r\nok"
    );
    let file = OutgoingContent::File { path: Some("/tmp/a".to_string()), caption: None };
    assert_eq!(
        outgoing_message("t@x", &file),
        "To: t@x\r\nSubject: (attachment)\r\nContent-Type: text/plain; charset=utf-8\r\n\r\n"
    );
}

fn header(name: &str, value: &str) -> MessageHeader {
    MessageHeader { name: name.to_string(), value: value.to_string() }
}

#[test]
fn store_plan_for_a_message() {
    let payload = MessagePayload {
        mime_type: Some("text/plain".to_string()),
        headers: Some(vec![
            header("From", "Ann <ann@x.org>"),
            header("Subject", "Lunch"),
            header("In-Reply-To", "<p@x>"),
        ]),
        body: Some(MessagePartBody { attachment_id: None, size: None, data: Some("aGVsbG8".to_string()) }),
        parts: None,
    };
    let mut m = message(payload);
    m.internal_date = Some("1700000000999".to_string());
    m.label_ids = Some(vec!["UNREAD".to_string(), "INBOX".to_string()]);
    let p = gmail_store_plan("acc", &m);
    assert_eq!(p.conversation.id, "acc-t");
    assert_eq!(p.conversation.name.as_deref(), Some("Lunch"));
    assert_eq!(p.conversation.kind, ConversationKind::Thread);
    assert_eq!(p.conversation.last_message_at, Some(1_700_000_000));
    assert_eq!(p.message.id, "acc-m");
    assert_eq!(p.message.sender, "ann@x.org");
    assert_eq!(p.message.sender_name.as_deref(), Some("Ann"));
    assert_eq!(p.message.body.as_deref(), Some("hello"));
    assert!(!p.message.is_archived);
    assert_eq!(p.message.reply_to_id.as_deref(), Some("acc-<p@x>"));
    assert_eq!(p.message.context_id.as_deref(), Some("acc-thread-t"));
    assert!(!p.has_html);
    m.label_ids = None;
    m.internal_date = Some("-1500".to_string());
    let q = gmail_store_plan("acc", &m);
    assert!(q.message.is_archived);
    assert_eq!(q.message.timestamp, -1);
}

#[test]
fn reply_all_skips_self_and_duplicates() {
    let payload = MessagePayload {
        mime_type: None,
        headers: Some(vec![
            header("From", "Ann <ANN@x.org>"),
            header("To", "me@y.org, Bob <bob@z.org>"),
            header("Cc", " ann@x.org , , carl@w.org"),
        ]),
        body: None,
        parts: None,
    };
    let m = message(payload);
    assert_eq!(build_reply_all_recipients(&m, "Me@Y.org"), "Ann <ANN@x.org>, Bob <bob@z.org>, carl@w.org");
}

#[test]
fn history_added_ids_in_order() {
    let added = |id: &str| HistoryMessageAdded { message: MessageRef { id: id.to_string(), thread_id: "t".to_string() } };
    let resp = HistoryListResponse {
        history: Some(vec![
            HistoryRecord { messages_added: Some(vec![added("a"), added("b")]) },
            HistoryRecord { messages_added: None },
            HistoryRecord { messages_added: Some(vec![added("c")]) },
        ]),
        history_id: None,
    };
    assert_eq!(added_message_ids(&resp), vec!["a".to_string(), "b".to_string(), "c".to_string()]);
}

#[test]
fn token_expiry_has_a_minute_of_slack() {
    assert!(token_expired(None, 0));
    assert!(!token_expired(Some(1000), 939));
    assert!(token_expired(Some(1000), 940));
    assert!(token_expired(Some(i64::MIN), 0));
}

#[test]
fn drafts_replies_and_forwards() {
    assert_eq!(
        draft_rfc2822("a@b", "Hi", "text", Some("<m@x>")),
        "To: a@b\r\nSubject: Hi\r\nContent-Type: text/plain; charset=utf-8\r\nIn-Reply-To: <m@x>\r\nReferences: <m@x>\r\n\r\ntext"
    );
    assert_eq!(
        draft_rfc2822("a@b", "café", "t", None),
        "To: a@b\r\nSubject: =?UTF-8?B?Y2Fmw6k=?=\r\nContent-Type: text/plain; charset=utf-8\r\n\r\nt"
    );
    assert_eq!(draft_recipients(Some("x@y"), None).unwrap(), Some("x@y".to_string()));
    assert_eq!(draft_recipients(None, Some("m1")).unwrap(), None);
    assert_eq!(draft_recipients(None, None).unwrap_err(), "--to is required when --reply-to is not set");
    assert_eq!(derived_recipients("a@b".to_string(), "m1").unwrap(), "a@b");
    assert_eq!(
        derived_recipients(String::new(), "m1").unwrap_err(),
        "could not determine recipients from message m1; provide --to explicitly"
    );
    assert_eq!(reply_subject(Some("Lunch")), "Re: Lunch");
    assert_eq!(reply_subject(Some("Re: Lunch")), "Re: Lunch");
    assert_eq!(reply_subject(None), "Re: (no subject)");
    assert_eq!(forward_subject("Lunch"), "Fwd: Lunch");
    assert_eq!(forward_subject("Fw: Lunch"), "Fw: Lunch");
    assert_eq!(encode_raw_message("hi?"), "aGk_");
}

#[test]
fn channel_store_plan_keeps_raw_sender_and_snippet() {
    let payload = MessagePayload {
        mime_type: Some("text/plain".to_string()),
        headers: Some(vec![header("From", "Me <me@x.org>")]),
        body: None,
        parts: None,
    };
    let mut m = message(payload);
    m.snippet = Some("snip".to_string());
    m.internal_date = Some("5000".to_string());
    let p = channel_store_plan("acc", Some("me@x.org"), &m);
    assert_eq!(p.conversation.id, "acc-t");
    assert_eq!(p.conversation.name.as_deref(), Some("(no subject)"));
    assert_eq!(p.message.sender, "Me <me@x.org>");
    assert_eq!(p.message.sender_name.as_deref(), Some("Me"));
    assert_eq!(p.message.body.as_deref(), Some("snip"));
    assert_eq!(p.message.timestamp, 5);
    assert!(p.message.is_from_me);
    assert!(!channel_store_plan("acc", None, &m).message.is_from_me);
}

#[test]
fn sent_only_and_paging() {
    assert!(is_sent_only(&Some(vec!["SENT".to_string()])));
    assert!(!is_sent_only(&Some(vec!["SENT".to_string(), "INBOX".to_string()])));
    assert!(!is_sent_only(&None));
    assert!(continue_paging(&Some("t".to_string()), 4, 5));
    assert!(!continue_paging(&Some("t".to_string()), 5, 5));
    assert!(!continue_paging(&None, 0, 5));
}

#[test]
fn api_error_classifies_forbidden_answers() {
    let scope_body = r#"{"error":{"details":[{"reason":"ACCESS_TOKEN_SCOPE_INSUFFICIENT"}]}}"#;
    let scope = reason_body("details", "ACCESS_TOKEN_SCOPE_INSUFFICIENT");
    assert!(matches!(api_error(403, scope_body, &scope), GmailError::InsufficientScope));
    let quota_body = r#"{"error":{"errors":[{"reason":"rateLimitExceeded"}]}}"#;
    let quota = reason_body("errors", "rateLimitExceeded");
    let e = api_error(403, quota_body, &quota);
    assert_eq!(e.message(), format!("API error: quota exceeded: {quota_body}"));
    let e = api_error(403, "Admin has disabled this API for the domain.", &None);
    assert_eq!(e.message(), "API error: 403: Admin has disabled this API for the domain.");
    let e = api_error(500, "backend", &None);
    assert_eq!(e.message(), "API error: 500: backend");
    assert!(matches!(api_error(401, scope_body, &scope), GmailError::Api(ref m) if m.starts_with("401: ")));
}

#[test]
fn store_plan_body_takes_the_rendered_markdown_of_html() {
    let payload = MessagePayload {
        mime_type: Some("text/html".to_string()),
        headers: Some(vec![header("From", "Ann <ann@x.org>")]),
        body: Some(MessagePartBody { attachment_id: None, size: None, data: Some("PHA-eDwvcD4".to_string()) }),
        parts: None,
    };
    let m = message(payload);
    let p = gmail_store_plan_rendered("acc", &m, Some("x".to_string()));
    assert_eq!(p.message.body.as_deref(), Some("x"));
    assert!(p.has_html);
    let q = gmail_store_plan_rendered("acc", &m, None);
    assert_eq!(q.message.body.as_deref(), Some("<p>x</p>"));
    let r = gmail_store_plan("acc", &m);
    assert_eq!(r.message.body, Some(html_to_markdown("<p>x</p>")));
    assert_eq!(render_or_keep(Some("**b**".to_string()), "<b>b</b>"), "**b**");
    assert_eq!(render_or_keep(None, "<b>b</b>"), "<b>b</b>");
}
