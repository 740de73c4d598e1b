use void_kit::json::Json;
use void_kit::linkedin::{
    attachment_bytes, build_message_metadata, check_status, is_json_content, extract_media_metadata, parse_timestamp, send_response_id,
    LinkedInError,
    extract_media_type, extract_text, normalize_api_base, profile_from_attendee, profile_from_user,
    ProfileCache, ResolveStep, SenderProfile, UnipileAttachment, UnipileChatAttendee,
    UnipileMessage, UnipileUserProfile,
};

#[test]
fn normalize_api_base_adds_https_when_scheme_missing() {
    assert_eq!(
        normalize_api_base("api45.unipile.com:17560"),
        "https://api45.unipile.com:17560/api/v1"
    );
}

#[test]
fn normalize_api_base_keeps_existing_suffix() {
    assert_eq!(
        normalize_api_base(" https://x.unipile.com/api/v1// "),
        "https://x.unipile.com/api/v1"
    );
}

#[test]
fn extract_text_trims_and_skips_empty() {
    let with_text = UnipileMessage {
        text: Some("  hello  \n".into()),
        ..Default::default()
    };
    assert_eq!(extract_text(&with_text).as_deref(), Some("hello"));

    let empty = UnipileMessage {
        text: Some("   ".into()),
        ..Default::default()
    };
    assert!(extract_text(&empty).is_none());
}

#[test]
fn extract_media_type_from_type_and_mimetype() {
    let img = UnipileMessage {
        attachments: Some(vec![UnipileAttachment {
            id: "a1".into(),
            kind: Some("img".into()),
            ..Default::default()
        }]),
        ..Default::default()
    };
    assert_eq!(extract_media_type(&img).as_deref(), Some("image"));

    let mime = UnipileMessage {
        attachments: Some(vec![UnipileAttachment {
            id: "a2".into(),
            mimetype: Some("video/mp4".into()),
            ..Default::default()
        }]),
        ..Default::default()
    };
    assert_eq!(extract_media_type(&mime).as_deref(), Some("video"));
}

#[test]
fn media_type_defaults_to_document() {
    let m = UnipileMessage {
        attachments: Some(vec![UnipileAttachment { id: "a".into(), ..Default::default() }]),
        ..Default::default()
    };
    assert_eq!(extract_media_type(&m).as_deref(), Some("document"));
    assert_eq!(extract_media_type(&UnipileMessage::default()), None);
}

#[test]
fn profile_from_user_builds_name_and_url() {
    let user = UnipileUserProfile {
        provider_id: "ACo123".into(),
        first_name: Some("Matthieu".into()),
        last_name: Some("Lambda".into()),
        public_identifier: Some("matthieulambda".into()),
        profile_picture_url: None,
        public_profile_url: None,
    };
    let p = profile_from_user(&user);
    assert_eq!(p.display_name, "Matthieu Lambda");
    assert_eq!(
        p.profile_url.as_deref(),
        Some("https://www.linkedin.com/in/matthieulambda")
    );
}

#[test]
fn profile_from_user_without_name_uses_provider_id() {
    let user = UnipileUserProfile {
        provider_id: "ACo9".into(),
        first_name: Some("".into()),
        last_name: Some("".into()),
        ..Default::default()
    };
    assert_eq!(profile_from_user(&user).display_name, "ACo9");
}

#[test]
fn profile_from_attendee_prefers_name() {
    let a = UnipileChatAttendee {
        id: "att".into(),
        name: Some("Aubin Rioufol".into()),
        provider_id: "ACoA".into(),
        profile_url: None,
        picture_url: None,
    };
    assert_eq!(profile_from_attendee(&a).display_name, "Aubin Rioufol");
}

#[test]
fn syncable_messages() {
    let m = UnipileMessage { id: "m1".into(), ..Default::default() };
    assert!(m.is_syncable());
    let d = UnipileMessage { id: "m1".into(), deleted: Some(true), ..Default::default() };
    assert!(!d.is_syncable());
    assert!(!UnipileMessage::default().is_syncable());
}

#[test]
fn skips_hidden_event_and_deleted_messages() {
    let items = vec![
        UnipileMessage { id: "a".into(), hidden: Some(true), is_event: Some(false), ..Default::default() },
        UnipileMessage {
            id: "b".into(),
            hidden: Some(false),
            is_event: Some(true),
            event_type: Some(1),
            ..Default::default()
        },
        UnipileMessage {
            id: "c".into(),
            hidden: Some(false),
            is_event: Some(false),
            deleted: Some(true),
            ..Default::default()
        },
        UnipileMessage {
            id: "d".into(),
            hidden: Some(false),
            is_event: Some(false),
            text: Some("ok".into()),
            ..Default::default()
        },
    ];
    assert!(!items[0].is_syncable());
    assert!(!items[1].is_syncable());
    assert!(!items[2].is_syncable());
    assert!(items[3].is_syncable());
}

#[test]
fn cache_returns_what_was_remembered() {
    let mut cache = ProfileCache::new();
    assert!(matches!(cache.plan_resolve(None, None), ResolveStep::Known(p) if p.display_name == "unknown"));
    assert!(matches!(cache.plan_resolve(Some("p1"), Some("att")), ResolveStep::FetchAttendee(a) if a == "att"));
    assert!(matches!(cache.plan_resolve(Some("p1"), None), ResolveStep::FetchUser));
    cache.remember("p1", SenderProfile::unknown("Someone"));
    assert_eq!(cache.lookup("p1").unwrap().display_name, "Someone");
    assert!(matches!(cache.plan_resolve(Some("p1"), Some("att")), ResolveStep::Known(p) if p.display_name == "Someone"));
    cache.remember("p1", SenderProfile::unknown("Other"));
    assert_eq!(cache.lookup("p1").unwrap().display_name, "Other");
    assert!(cache.lookup("p2").is_none());
}

#[test]
fn profile_cache_resolve_prefers_chat_attendee() {
    let provider = "ACoAABFBQBcBtnr0Y6FNrtQpItSVnTX8Sxzl7Jg";
    let mut cache = ProfileCache::new();
    let msg = UnipileMessage {
        sender_id: Some(provider.into()),
        sender_attendee_id: Some("att-1".into()),
        ..Default::default()
    };
    let step = cache.plan_resolve(msg.sender_id.as_deref(), msg.sender_attendee_id.as_deref());
    assert!(matches!(step, ResolveStep::FetchAttendee(ref a) if a == "att-1"));
    let attendee = UnipileChatAttendee {
        id: "att-1".into(),
        name: Some("Aubin Rioufol".into()),
        provider_id: provider.into(),
        profile_url: None,
        picture_url: None,
    };
    let profile = profile_from_attendee(&attendee);
    assert_eq!(profile.display_name, "Aubin Rioufol");
    cache.remember(provider, profile);
    let again = cache.plan_resolve(msg.sender_id.as_deref(), msg.sender_attendee_id.as_deref());
    assert!(matches!(again, ResolveStep::Known(ref p) if p.display_name == "Aubin Rioufol"));
}

fn member<'a>(v: &'a Json, key: &str) -> Option<&'a Json> {
    match v {
        Json::Object(m) => m.iter().find(|(k, _)| k == key).map(|(_, v)| v),
        _ => None,
    }
}

fn str_member<'a>(v: &'a Json, key: &str) -> Option<&'a str> {
    match member(v, key) {
        Some(Json::Str(s)) => Some(s.as_str()),
        _ => None,
    }
}

#[test]
fn extract_media_metadata_includes_ids() {
    let msg = UnipileMessage {
        id: "m1".into(),
        provider_id: Some("prov-1".into()),
        attachments: Some(vec![UnipileAttachment {
            id: "att-1".into(),
            mimetype: Some("application/pdf".into()),
            kind: Some("file".into()),
            ..Default::default()
        }]),
        ..Default::default()
    };
    let meta = extract_media_metadata(&msg).unwrap();
    assert_eq!(str_member(&meta, "message_id"), Some("m1"));
    assert_eq!(str_member(&meta, "attachment_id"), Some("att-1"));
    assert!(matches!(member(&meta, "url"), Some(Json::Null)));
    assert!(extract_media_metadata(&UnipileMessage::default()).is_none());
}

#[test]
fn parse_timestamp_from_rfc3339() {
    let ts = parse_timestamp(Some("2026-05-19T11:41:45.871Z"));
    assert_eq!(ts, 1_779_190_905);
}

#[test]
fn build_message_metadata_includes_author_fields() {
    let msg = UnipileMessage { sender_id: Some("ACo123".into()), ..Default::default() };
    let profile = SenderProfile {
        display_name: "Matthieu Lambda".into(),
        profile_url: Some("https://www.linkedin.com/in/matthieulambda".into()),
        avatar_url: None,
        public_identifier: Some("matthieulambda".into()),
    };
    let meta = build_message_metadata(&msg, &profile).unwrap();
    assert_eq!(str_member(&meta, "author_name"), Some("Matthieu Lambda"));
    assert_eq!(
        str_member(&meta, "author_profile_url"),
        Some("https://www.linkedin.com/in/matthieulambda")
    );
}

#[test]
fn message_metadata_sender_id_replaces_attachment_provider_id() {
    let msg = UnipileMessage {
        id: "m1".into(),
        provider_id: Some("prov-1".into()),
        sender_id: Some("ACo9".into()),
        attachments: Some(vec![UnipileAttachment { id: "a".into(), ..Default::default() }]),
        ..Default::default()
    };
    let profile = SenderProfile {
        display_name: "X".into(),
        profile_url: None,
        avatar_url: None,
        public_identifier: None,
    };
    let meta = build_message_metadata(&msg, &profile).unwrap();
    assert_eq!(str_member(&meta, "provider_id"), Some("ACo9"));
    match &meta {
        Json::Object(m) => assert_eq!(m.len(), 7),
        _ => panic!("not an object"),
    }
}

#[test]
fn status_checks_and_send_ids() {
    assert!(check_status(200, "200 OK", "GET chats", "").is_ok());
    match check_status(401, "401 Unauthorized", "GET chats", "") {
        Err(LinkedInError::Auth(m)) => assert_eq!(m, "Invalid Unipile API key (401 Unauthorized)"),
        other => panic!("unexpected {other:?}"),
    }
    match check_status(404, "404 Not Found", "GET chats", "nope") {
        Err(LinkedInError::Connection(m)) => assert_eq!(m, "GET chats failed (404 Not Found): nope"),
        other => panic!("unexpected {other:?}"),
    }
    let obj = |k: &str, v: Json| Json::Object(vec![(k.to_string(), v)]);
    assert_eq!(send_response_id(&obj("id", Json::Str("m1".into()))).as_deref(), Some("m1"));
    assert_eq!(send_response_id(&obj("message_id", Json::Str("m2".into()))).as_deref(), Some("m2"));
    assert_eq!(send_response_id(&obj("id", Json::Null)), None);
}

#[test]
fn json_attachment_data_is_base64_decoded() {
    let r = attachment_bytes("application/json; charset=utf-8", b"{}".to_vec(), Some("aGVsbG8="));
    assert!(matches!(r, Ok(ref v) if v == b"hello"));
}

#[test]
fn invalid_base64_attachment_data_is_a_decode_error() {
    let r = attachment_bytes("application/json", b"{}".to_vec(), Some("not base64!"));
    assert!(matches!(r, Err(LinkedInError::Decode(_))));
}

#[test]
fn binary_attachment_body_is_returned_as_is() {
    let body = vec![0x89, b'P', b'N', b'G'];
    let r = attachment_bytes("image/png", body.clone(), Some("aGVsbG8="));
    assert!(matches!(r, Ok(ref v) if *v == body));
    let r = attachment_bytes("application/json", body.clone(), None);
    assert!(matches!(r, Ok(ref v) if *v == body));
}

#[test]
fn json_content_type_is_recognised() {
    assert!(is_json_content("application/json"));
    assert!(is_json_content("application/json; charset=utf-8"));
    assert!(!is_json_content("image/jpeg"));
}
