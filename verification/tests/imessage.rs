use void_kit::records::{
    batch_cursor, cursor_text, imessage_ingest_plan, load_cursor_value, ConversationKind, CURSOR_KEY,
};
use void_kit::imessage::{
    apple_cutoff, apple_time_to_unix, build_applescript, decode_text, escape_applescript_string,
    confirmed_guid, is_access_denied, messages_db_path, resolve_body, row_confirms_send, ImessageRow, SentRow, OutgoingContent, StoreError, TypedStreamError,
};

/// A `typedstream` archive holding `text`, laid out as `NSArchiver` writes it:
/// magic, version 1000, a class chain, the `+` type descriptor, the length
/// and the UTF-8 bytes.
fn archive(text: &str) -> Vec<u8> {
    let mut b: Vec<u8> = vec![0x04, 0x0b];
    b.extend_from_slice(b"streamtyped");
    b.extend_from_slice(&[0x81, 0xe8, 0x03]);
    b.extend_from_slice(&[0x84, 0x01, 0x40, 0x84, 0x84, 0x84]);
    b.push(0x19);
    b.extend_from_slice(b"NSMutableAttributedString");
    b.extend_from_slice(&[0x00, 0x84, 0x84]);
    b.push(0x12);
    b.extend_from_slice(b"NSAttributedString");
    b.extend_from_slice(&[0x00, 0x84, 0x84, 0x08]);
    b.extend_from_slice(b"NSObject");
    b.extend_from_slice(&[0x00, 0x85, 0x92, 0x84, 0x84, 0x84, 0x0f]);
    b.extend_from_slice(b"NSMutableString");
    b.extend_from_slice(&[0x01, 0x84, 0x84, 0x08]);
    b.extend_from_slice(b"NSString");
    b.extend_from_slice(&[0x01, 0x95, 0x84, 0x01, 0x2b]);
    let bytes = text.as_bytes();
    let n = bytes.len();
    if n < 0x80 {
        b.push(n as u8);
    } else if n <= i16::MAX as usize {
        b.push(0x81);
        b.extend_from_slice(&(n as i16).to_le_bytes());
    } else {
        b.push(0x82);
        b.extend_from_slice(&(n as i32).to_le_bytes());
    }
    b.extend_from_slice(bytes);
    b.extend_from_slice(&[0x86, 0x84, 0x02, 0x69, 0x49, 0x01]);
    b
}

fn ascii_blob() -> Vec<u8> {
    archive("Hello from a synthetic fixture")
}

#[test]
fn decodes_plain_ascii_body() {
    assert_eq!(
        decode_text(&ascii_blob()).unwrap(),
        Some("Hello from a synthetic fixture".to_string())
    );
}

#[test]
fn decodes_multibyte_unicode_body() {
    assert_eq!(
        decode_text(&archive("café — naïve 😀 你好")).unwrap(),
        Some("café — naïve 😀 你好".to_string())
    );
}

#[test]
fn decodes_empty_string_body_as_empty_not_none() {
    assert_eq!(decode_text(&archive("")).unwrap(), Some(String::new()));
}

#[test]
fn decodes_body_longer_than_one_byte_length_prefix() {
    let blob = archive(&"A".repeat(600));
    let decoded = decode_text(&blob).unwrap().unwrap();
    assert_eq!(decoded.len(), 600);
    assert!(decoded.chars().all(|c| c == 'A'));
}

#[test]
fn preserves_newlines_and_tabs() {
    assert_eq!(
        decode_text(&archive("line one\nline two\ttabbed")).unwrap(),
        Some("line one\nline two\ttabbed".to_string())
    );
}

#[test]
fn rejects_blob_without_streamtyped_magic() {
    let err = decode_text(b"this is not a typedstream archive").unwrap_err();
    assert!(
        err.message().contains("streamtyped"),
        "error should name the missing magic, got: {}",
        err.message()
    );
}

#[test]
fn rejects_truncated_blob_instead_of_panicking() {
    let blob = ascii_blob();
    let truncated = &blob[..blob.len() / 2];
    assert!(decode_text(truncated).is_err());
}

#[test]
fn empty_input_is_an_error_not_a_panic() {
    assert!(decode_text(&[]).is_err());
}

#[test]
fn length_prefix_of_600_is_wide() {
    let blob = archive(&"A".repeat(600));
    let at = blob.windows(3).position(|w| w == [0x84, 0x01, 0x2b]).unwrap();
    assert_eq!(&blob[at + 3..at + 6], &[0x81, 0x58, 0x02]);
}

#[test]
fn truncated_payload_names_the_declared_length() {
    let mut blob = archive("Hello");
    blob.truncate(blob.len() - 8);
    let err = decode_text(&blob).unwrap_err();
    assert_eq!(err, TypedStreamError::ShortPayload(5));
    assert_eq!(err.message(), "typedstream declares 5 bytes of text but holds fewer");
}

#[test]
fn missing_marker_is_reported() {
    let mut b: Vec<u8> = vec![0x04, 0x0b];
    b.extend_from_slice(b"streamtyped");
    b.extend_from_slice(&[0x81, 0xe8, 0x03, 0x01]);
    assert_eq!(decode_text(&b).unwrap_err(), TypedStreamError::NoPayload);
}

#[test]
fn prefers_text_column_when_it_has_content() {
    assert_eq!(
        resolve_body(Some("plain text"), Some(&ascii_blob())),
        Some("plain text".to_string())
    );
}

#[test]
fn falls_back_to_attributed_body_when_text_is_null() {
    assert_eq!(
        resolve_body(None, Some(&ascii_blob())),
        Some("Hello from a synthetic fixture".to_string())
    );
}

#[test]
fn falls_back_to_attributed_body_when_text_is_empty_string() {
    assert_eq!(
        resolve_body(Some(""), Some(&ascii_blob())),
        Some("Hello from a synthetic fixture".to_string())
    );
}

#[test]
fn returns_none_when_both_sources_are_absent() {
    assert_eq!(resolve_body(None, None), None);
}

#[test]
fn undecodable_attributed_body_does_not_lose_the_row() {
    assert_eq!(resolve_body(None, Some(b"garbage")), None);
    assert_eq!(
        resolve_body(Some("fallback"), Some(b"garbage")),
        Some("fallback".to_string())
    );
}

#[test]
fn converts_nanosecond_apple_timestamps() {
    let raw = (1_789_387_200_i64 - 978_307_200) * 1_000_000_000;
    assert_eq!(apple_time_to_unix(raw), 1_789_387_200);
}

#[test]
fn converts_legacy_second_apple_timestamps() {
    assert_eq!(
        apple_time_to_unix(1_789_387_200 - 978_307_200),
        1_789_387_200
    );
}

#[test]
fn treats_zero_timestamp_as_zero_not_as_2001() {
    assert_eq!(apple_time_to_unix(0), 0);
}

#[test]
fn negative_nanosecond_timestamps_convert() {
    assert_eq!(apple_time_to_unix(-2_000_000_000_000), -2_000 + 978_307_200);
}

#[test]
fn escape_applescript_string_handles_quotes_and_backslashes() {
    assert_eq!(
        escape_applescript_string("Hello \"world\" \\ test"),
        "Hello \\\"world\\\" \\\\ test"
    );
}

#[test]
fn escape_applescript_string_passes_whitespace_through_unchanged() {
    assert_eq!(escape_applescript_string("a\nb"), "a\nb");
    assert_eq!(escape_applescript_string("a\tb"), "a\tb");
    assert_eq!(escape_applescript_string("a\rb"), "a\rb");
}

#[test]
fn escape_applescript_string_leaves_unicode_intact() {
    let s = "café 你好 😀 — ok";
    assert_eq!(escape_applescript_string(s), s);
}

#[test]
fn applescript_for_text_escapes_recipient_and_body() {
    let script = build_applescript("a\"b", &OutgoingContent::Text("say \"hi\"".to_string())).unwrap();
    assert_eq!(
        script,
        "tell application \"Messages\"\n    set targetService to 1st service whose service type = iMessage\n    set targetBuddy to buddy \"a\\\"b\" of targetService\n    send \"say \\\"hi\\\"\" to targetBuddy\nend tell"
    );
}

#[test]
fn applescript_for_file_with_caption_sends_twice() {
    let content = OutgoingContent::File {
        path: Some("/tmp/x.png".to_string()),
        caption: Some("look".to_string()),
    };
    let script = build_applescript("+15551234", &content).unwrap();
    assert!(script.contains("send (POSIX file \"/tmp/x.png\") to targetBuddy"));
    assert!(script.contains("\ndelay 0.5\n"));
    assert!(script.ends_with("send \"look\" to targetBuddy\nend tell"));
}

#[test]
fn applescript_rejects_non_utf8_path() {
    let content = OutgoingContent::File { path: None, caption: None };
    assert_eq!(
        build_applescript("x", &content).unwrap_err(),
        "attachment path is not valid UTF-8"
    );
}

#[test]
fn apple_cutoff_is_two_seconds_before_now_in_nanoseconds() {
    assert_eq!(apple_cutoff(978_307_202 + 10), 10_000_000_000);
}

#[test]
fn access_denied_by_code_or_message() {
    assert!(is_access_denied(true, None));
    assert!(is_access_denied(false, Some("authorization denied")));
    assert!(!is_access_denied(false, Some("disk I/O error")));
    assert!(!is_access_denied(false, None));
}

#[test]
fn store_error_messages() {
    assert_eq!(
        StoreError::Missing("/x/chat.db".to_string()).message(),
        "the Messages database does not exist at /x/chat.db"
    );
    assert_eq!(
        StoreError::Open { path: "/p".to_string(), source: "boom".to_string() }.message(),
        "could not open the Messages database at /p: boom"
    );
}

#[test]
fn row_from_columns_resolves_body_and_dates() {
    let blob = ascii_blob();
    let row = ImessageRow::from_columns(
        7,
        "g".to_string(),
        None,
        Some(&blob),
        Some("+1555".to_string()),
        None,
        Some("iMessage".to_string()),
        1,
        (1_789_387_200_i64 - 978_307_200) * 1_000_000_000,
        None,
        Some(0),
    );
    assert_eq!(row.body.as_deref(), Some("Hello from a synthetic fixture"));
    assert!(row.is_from_me);
    assert_eq!(row.date_unix, 1_789_387_200);
    assert_eq!(row.date_delivered_unix, 0);
    assert_eq!(row.date_read_unix, 0);
}

#[test]
fn escape_applescript_string_neutralizes_an_injection_attempt() {
    let hostile = r#"x" & (do shell script "echo pwned") & "y"#;
    let escaped = escape_applescript_string(hostile);
    assert_eq!(escaped, r#"x\" & (do shell script \"echo pwned\") & \"y"#);
    let content = OutgoingContent::Text(hostile.to_string());
    let script = build_applescript("+14155551212", &content).unwrap();
    assert!(script.contains(r#"send "x\" & (do shell script \"echo pwned\") & \"y" to targetBuddy"#));
    assert!(!script.contains(r#"& (do shell script "echo pwned")"#));
}

#[test]
fn build_applescript_text_message() {
    let content = OutgoingContent::Text("Hello from void!".to_string());
    let script = build_applescript("+14155551212", &content).unwrap();
    assert!(script.contains(r#"buddy "+14155551212""#));
    assert!(script.contains(r#"send "Hello from void!" to targetBuddy"#));
}

#[test]
fn build_applescript_file_message_without_caption() {
    let content = OutgoingContent::File { path: Some("/tmp/photo.jpg".to_string()), caption: None };
    let script = build_applescript("+14155551212", &content).unwrap();
    assert!(script.contains(r#"send (POSIX file "/tmp/photo.jpg") to targetBuddy"#));
    assert!(!script.contains("delay 0.5"));
}

#[test]
fn build_applescript_file_message_with_caption() {
    let content = OutgoingContent::File {
        path: Some("/tmp/photo.jpg".to_string()),
        caption: Some("Look at this!".to_string()),
    };
    let script = build_applescript("+14155551212", &content).unwrap();
    assert!(script.contains(r#"send (POSIX file "/tmp/photo.jpg") to targetBuddy"#));
    assert!(script.contains("delay 0.5"));
    assert!(script.contains(r#"send "Look at this!" to targetBuddy"#));
}

#[test]
fn access_denied_error_names_full_disk_access() {
    let err = StoreError::AccessDenied("/tmp/chat.db".to_string());
    let text = err.message();
    assert!(text.contains("Full Disk Access"), "got: {text}");
    assert!(text.contains("System Settings"), "got: {text}");
}

fn row(rowid: i64, chat: Option<&str>, handle: Option<&str>, from_me: bool) -> ImessageRow {
    ImessageRow {
        rowid,
        guid: format!("g{rowid}"),
        body: Some("hi".to_string()),
        handle: handle.map(|h| h.to_string()),
        chat_guid: chat.map(|c| c.to_string()),
        service: Some("iMessage".to_string()),
        is_from_me: from_me,
        date_unix: 1_700_000_000 + rowid,
        date_delivered_unix: 0,
        date_read_unix: 0,
    }
}

#[test]
fn ingest_plan_keys_group_and_direct_chats() {
    let p = imessage_ingest_plan("c", &row(1, Some("iMessage;+;chat123"), Some("+1555"), false)).unwrap();
    assert_eq!(p.external_id, "imessage_c_g1");
    assert_eq!(p.conversation.id, "im_c_iMessage;+;chat123");
    assert_eq!(p.conversation.kind, ConversationKind::Dm);
    assert_eq!(p.message.id, "im_c_iMessage;+;chat123_g1");
    assert_eq!(p.message.sender, "+1555");
    assert_eq!(p.message.timestamp, 1_700_000_001);
    let g = imessage_ingest_plan("c", &row(2, Some("chat987"), None, true)).unwrap();
    assert_eq!(g.conversation.kind, ConversationKind::Group);
    assert_eq!(g.message.sender, "me");
    let d = imessage_ingest_plan("c", &row(3, None, Some("a@b.c"), false)).unwrap();
    assert_eq!(d.conversation.external_id, "a@b.c");
    assert_eq!(d.conversation.name.as_deref(), Some("a@b.c"));
    assert!(imessage_ingest_plan("c", &row(4, None, None, false)).is_none());
    assert!(imessage_ingest_plan("c", &row(5, Some(""), Some("x"), false)).is_none());
}

#[test]
fn batch_cursor_is_the_highest_rowid() {
    assert_eq!(batch_cursor(&vec![], 17), 17);
    assert_eq!(batch_cursor(&vec![row(5, None, None, false), row(9, None, None, false), row(7, None, None, false)], 3), 9);
    assert_eq!(load_cursor_value(Some("123")), 123);
    assert_eq!(load_cursor_value(Some("junk")), 0);
    assert_eq!(load_cursor_value(None), 0);
}

#[test]
fn cursor_text_reads_back() {
    for c in [0i64, 7, -42, 1_700_000_000, i64::MAX, i64::MIN] {
        let t = cursor_text(c);
        assert_eq!(t, c.to_string());
        assert_eq!(load_cursor_value(Some(&t)), c);
    }
    assert_eq!(CURSOR_KEY, "imessage_cursor");
}

fn sent_row(guid: &str, handle: Option<&str>, chat_identifier: Option<&str>, chat_guid: Option<&str>) -> SentRow {
    SentRow {
        guid: guid.to_string(),
        handle: handle.map(str::to_string),
        chat_identifier: chat_identifier.map(str::to_string),
        chat_guid: chat_guid.map(str::to_string),
    }
}

#[test]
fn find_sent_message_finds_matching_outgoing_row() {
    let rows = vec![sent_row("guid-confirmed-123", Some("+14155551212"), None, None)];
    assert_eq!(confirmed_guid("+14155551212", &rows).as_deref(), Some("guid-confirmed-123"));
}

#[test]
fn find_sent_message_returns_none_if_not_found() {
    assert_eq!(confirmed_guid("+141****1212", &vec![]), None);
    let rows = vec![sent_row("guid-1", Some("+15550000000"), Some("chat-x"), Some("iMessage;-;+15550000000"))];
    assert_eq!(confirmed_guid("+141****1212", &rows), None);
}

#[test]
fn find_sent_message_does_not_treat_underscore_in_recipient_as_a_wildcard() {
    let rows = vec![sent_row("guid-someone-else", Some("axb@example.com"), None, None)];
    assert_eq!(confirmed_guid("a_b@example.com", &rows), None);
}

#[test]
fn find_sent_message_does_not_treat_percent_in_recipient_as_a_wildcard() {
    let rows = vec![sent_row("guid-someone-else", Some("anything@example.com"), None, None)];
    assert_eq!(confirmed_guid("%@example.com", &rows), None);
}

#[test]
fn find_sent_message_still_matches_on_phone_number_suffix() {
    let rows = vec![sent_row("guid-suffix-match", Some("4155551212"), None, None)];
    assert_eq!(confirmed_guid("+14155551212", &rows).as_deref(), Some("guid-suffix-match"));
    let rows = vec![sent_row("guid-longer-handle", Some("+14155551212"), None, None)];
    assert_eq!(confirmed_guid("4155551212", &rows).as_deref(), Some("guid-longer-handle"));
}

#[test]
fn chat_identifier_and_chat_guid_confirm() {
    assert!(row_confirms_send("family", &sent_row("g", None, Some("family"), None)));
    assert!(row_confirms_send("+15551234567", &sent_row("g", None, None, Some("iMessage;-;+15551234567"))));
}

#[test]
fn empty_recipient_or_empty_handle_confirms_nothing() {
    assert!(!row_confirms_send("", &sent_row("g", Some(""), Some(""), Some("anything"))));
    assert!(!row_confirms_send("+15551234567", &sent_row("g", Some(""), None, None)));
}

#[test]
fn newest_confirming_row_wins() {
    let rows = vec![
        sent_row("guid-other", Some("someone@else.com"), None, None),
        sent_row("guid-new", Some("me@example.com"), None, None),
        sent_row("guid-old", Some("me@example.com"), None, None),
    ];
    assert_eq!(confirmed_guid("me@example.com", &rows).as_deref(), Some("guid-new"));
}

#[test]
fn messages_db_path_is_under_home_on_macos_only() {
    let home = std::path::Path::new("/Users/someone");
    assert_eq!(
        messages_db_path(Some(home), true).unwrap(),
        std::path::PathBuf::from("/Users/someone/Library/Messages/chat.db")
    );
    assert_eq!(
        messages_db_path(None, true).unwrap_err(),
        "HOME is not set, cannot locate the Messages database"
    );
    assert_eq!(messages_db_path(Some(home), false).unwrap_err(), "the Messages database only exists on macOS");
}

#[test]
fn decode_text_reads_short_and_extended_lengths() {
    let short = [b"\x04\x0bstreamtyped".as_slice(), &[0x84, 0x01, b'+', 0x02], b"hi"].concat();
    assert_eq!(decode_text(&short).unwrap(), Some("hi".to_string()));
    let long = [b"\x04\x0bstreamtyped".as_slice(), &[0x84, 0x01, b'+', 0x81, 0x58, 0x02], &[b'A'; 600]].concat();
    assert_eq!(decode_text(&long).unwrap(), Some("A".repeat(600)));
}

fn unescape_left_to_right(t: &str) -> String {
    let mut out = String::new();
    let mut it = t.chars();
    while let Some(c) = it.next() {
        if c == '\\' {
            match it.next() {
                Some(d) => out.push(d),
                None => out.push(c),
            }
        } else {
            out.push(c);
        }
    }
    out
}

#[test]
fn escaped_text_unescapes_and_keeps_quotes_escaped() {
    for s in [r#"x" & (do shell script "echo pwned") & "y"#, r#"\"#, r#"a\\"b"#, "café \"😀\"", ""] {
        let e = escape_applescript_string(s);
        assert_eq!(unescape_left_to_right(&e), s);
        let chars: Vec<char> = e.chars().collect();
        for (i, c) in chars.iter().enumerate() {
            if *c == '"' {
                let run = chars[..i].iter().rev().take_while(|c| **c == '\\').count();
                assert_eq!(run % 2, 1, "{e:?}");
            }
        }
    }
}
