use void_kit::googlenews::{build_search_url, sanitize_id, strip_html, Guid, RssItem, Source};

#[test]
fn strip_html_removes_tags_and_collapses_whitespace() {
    let s = strip_html("<a href=\"x\">Hello</a>   <b>world</b>");
    assert_eq!(s, "Hello world");
}

#[test]
fn sanitize_id_replaces_non_alnum() {
    assert_eq!(sanitize_id("CBMi-aB/c=="), "CBMi_aB_c__");
}

#[test]
fn stable_id_falls_back_to_link() {
    let item = RssItem {
        link: Some("https://example.com/a".to_string()),
        ..Default::default()
    };
    assert_eq!(item.stable_id(), Some("https://example.com/a"));
}

#[test]
fn stable_id_prefers_guid_and_source_name() {
    let item = RssItem {
        link: Some("https://example.com/a".to_string()),
        guid: Some(Guid { value: "CBMiQWh0dHBz".to_string() }),
        source: Some(Source { url: None, name: "Le Monde".to_string() }),
        ..Default::default()
    };
    assert_eq!(item.stable_id(), Some("CBMiQWh0dHBz"));
    assert_eq!(item.source_name(), Some("Le Monde"));
    let empty = RssItem { guid: Some(Guid { value: String::new() }), ..Default::default() };
    assert_eq!(empty.stable_id(), None);
    assert_eq!(empty.source_name(), None);
}

#[test]
fn build_url_without_when() {
    let url = build_search_url("https://news.google.com/rss/search", "rust lang", "", "fr", "FR");
    assert!(url.contains("q=rust%20lang"));
    assert!(url.contains("hl=fr"));
    assert!(url.contains("gl=FR"));
    assert!(url.contains("ceid=FR%3Afr"));
    assert!(!url.contains("when%3A"));
}

#[test]
fn build_url_with_when_appends_operator() {
    let url = build_search_url("https://news.google.com/rss/search", "ai", "7d", "en", "US");
    assert!(url.contains("q=ai%20when%3A7d"));
}
