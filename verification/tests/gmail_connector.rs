use void_kit::gmail_channel::compose_rfc2822;
use void_kit::gmail_compose::{html_to_markdown, looks_like_html, parse_email_address, parse_email_name};
use void_kit::gmail_message::gmail_url;
use void_kit::records::continue_paging;

#[test]
fn channel_parse_email_name_with_brackets() {
    assert_eq!(parse_email_name("Alice <alice@example.com>"), "Alice");
    assert_eq!(parse_email_name("\"Bob Smith\" <bob@example.com>"), "Bob Smith");
    assert_eq!(parse_email_name("charlie@example.com"), "charlie@example.com");
}

#[test]
fn channel_compose_rfc2822_basic() {
    let raw = compose_rfc2822("alice@example.com", "Test Subject", "Hello, Alice!");
    assert!(raw.contains("To: alice@example.com"));
    assert!(raw.contains("Subject: Test Subject"));
    assert!(raw.contains("Hello, Alice!"));
}

#[test]
fn connector_parse_email_address_extracts_email() {
    assert_eq!(parse_email_address("Alice <alice@example.com>"), "alice@example.com");
    assert_eq!(parse_email_address("\"Bob Smith\" <bob@example.com>"), "bob@example.com");
    assert_eq!(parse_email_address("charlie@example.com"), "charlie@example.com");
}

#[test]
fn connector_parse_email_name_with_brackets() {
    assert_eq!(parse_email_name("Alice <alice@example.com>"), "Alice");
    assert_eq!(parse_email_name("\"Bob Smith\" <bob@example.com>"), "Bob Smith");
    assert_eq!(parse_email_name("charlie@example.com"), "charlie@example.com");
}

#[test]
fn connector_compose_rfc2822_basic() {
    let raw = compose_rfc2822("alice@example.com", "Test Subject", "Hello, Alice!");
    assert!(raw.contains("To: alice@example.com"));
    assert!(raw.contains("Subject: Test Subject"));
    assert!(raw.contains("Hello, Alice!"));
}

#[test]
fn connector_html_to_markdown_strips_tags() {
    let md = html_to_markdown("<p>Hello <b>world</b></p>");
    assert!(md.contains("Hello"));
    assert!(md.contains("**world**"));
    assert!(!md.contains("<p>"));
    assert!(!md.contains("<b>"));
}

#[test]
fn connector_html_to_markdown_preserves_links() {
    let md = html_to_markdown(r#"<p>Click <a href="https://example.com">here</a></p>"#);
    assert!(md.contains("[here](https://example.com)"));
}

#[test]
fn connector_html_to_markdown_preserves_headings() {
    let md = html_to_markdown("<h1>Title</h1><h2>Subtitle</h2>");
    assert!(md.contains("# Title"));
    assert!(md.contains("## Subtitle"));
}

#[test]
fn connector_html_to_markdown_handles_lists() {
    let md = html_to_markdown("<ul><li>Item 1</li><li>Item 2</li></ul>");
    assert!(md.contains("Item 1"));
    assert!(md.contains("Item 2"));
}

#[test]
fn connector_html_to_markdown_real_email() {
    let html = r#"
        <html>
        <body>
            <div style="font-family:Arial">
                <p>Hi Maxime,</p>
                <p>Your order <b>#12345</b> has been shipped.</p>
                <p>Track it <a href="https://track.example.com/12345">here</a>.</p>
                <br>
                <p>Thanks,<br>The Team</p>
            </div>
        </body>
        </html>
        "#;
    let md = html_to_markdown(html);
    assert!(md.contains("Hi Maxime"));
    assert!(md.contains("**#12345**"));
    assert!(md.contains("has been shipped"));
    assert!(md.contains("[here](https://track.example.com/12345)"));
    assert!(md.contains("Thanks"));
    assert!(!md.contains("<div"));
    assert!(!md.contains("font-family"));
}

#[test]
fn connector_html_to_markdown_empty() {
    let md = html_to_markdown("");
    assert!(md.trim().is_empty());
}

#[test]
fn connector_looks_like_html_detects_doctype() {
    assert!(looks_like_html("<!DOCTYPE html><html><body>Hi</body></html>"));
    assert!(looks_like_html("  <!DOCTYPE html>\n<html>"));
}

#[test]
fn connector_looks_like_html_detects_html_tag() {
    assert!(looks_like_html("<html><body>Hello</body></html>"));
    assert!(looks_like_html("<HTML><BODY>Hello</BODY></HTML>"));
}

#[test]
fn connector_looks_like_html_detects_div_table_body() {
    assert!(looks_like_html("<div class=\"wrapper\">Content</div>"));
    assert!(looks_like_html("<table><tr><td>cell</td></tr></table>"));
    assert!(looks_like_html("<body>hello</body>"));
}

#[test]
fn connector_looks_like_html_plain_text_is_false() {
    assert!(!looks_like_html("Hello, this is a plain text email."));
    assert!(!looks_like_html("Hi Maxime,\n\nSee you tomorrow.\nAlice"));
    assert!(!looks_like_html(""));
}

#[test]
fn connector_gmail_url_formats_correctly() {
    let url = gmail_url("thread123");
    assert_eq!(url, "https://mail.google.com/mail/u/0/#inbox/thread123");
}

#[test]
fn mod_parse_email_address_extracts_email() {
    assert_eq!(parse_email_address("Alice <alice@example.com>"), "alice@example.com");
    assert_eq!(parse_email_address("\"Bob Smith\" <bob@example.com>"), "bob@example.com");
    assert_eq!(parse_email_address("charlie@example.com"), "charlie@example.com");
}

#[test]
fn mod_parse_email_name_with_brackets() {
    assert_eq!(parse_email_name("Alice <alice@example.com>"), "Alice");
    assert_eq!(parse_email_name("\"Bob Smith\" <bob@example.com>"), "Bob Smith");
    assert_eq!(parse_email_name("charlie@example.com"), "charlie@example.com");
}

#[test]
fn mod_compose_rfc2822_basic() {
    let raw = compose_rfc2822("alice@example.com", "Test Subject", "Hello, Alice!");
    assert!(raw.contains("To: alice@example.com"));
    assert!(raw.contains("Subject: Test Subject"));
    assert!(raw.contains("Hello, Alice!"));
}

#[test]
fn mod_html_to_markdown_strips_tags() {
    let md = html_to_markdown("<p>Hello <b>world</b></p>");
    assert!(md.contains("Hello"));
    assert!(md.contains("**world**"));
    assert!(!md.contains("<p>"));
    assert!(!md.contains("<b>"));
}

#[test]
fn mod_html_to_markdown_preserves_links() {
    let md = html_to_markdown(r#"<p>Click <a href="https://example.com">here</a></p>"#);
    assert!(md.contains("[here](https://example.com)"));
}

#[test]
fn mod_html_to_markdown_preserves_headings() {
    let md = html_to_markdown("<h1>Title</h1><h2>Subtitle</h2>");
    assert!(md.contains("# Title"));
    assert!(md.contains("## Subtitle"));
}

#[test]
fn mod_html_to_markdown_handles_lists() {
    let md = html_to_markdown("<ul><li>Item 1</li><li>Item 2</li></ul>");
    assert!(md.contains("Item 1"));
    assert!(md.contains("Item 2"));
}

#[test]
fn mod_html_to_markdown_real_email() {
    let html = r#"
        <html>
        <body>
            <div style="font-family:Arial">
                <p>Hi Maxime,</p>
                <p>Your order <b>#12345</b> has been shipped.</p>
                <p>Track it <a href="https://track.example.com/12345">here</a>.</p>
                <br>
                <p>Thanks,<br>The Team</p>
            </div>
        </body>
        </html>
        "#;
    let md = html_to_markdown(html);
    assert!(md.contains("Hi Maxime"));
    assert!(md.contains("**#12345**"));
    assert!(md.contains("has been shipped"));
    assert!(md.contains("[here](https://track.example.com/12345)"));
    assert!(md.contains("Thanks"));
    assert!(!md.contains("<div"));
    assert!(!md.contains("font-family"));
}

#[test]
fn mod_html_to_markdown_empty() {
    let md = html_to_markdown("");
    assert!(md.trim().is_empty());
}

#[test]
fn mod_looks_like_html_detects_doctype() {
    assert!(looks_like_html("<!DOCTYPE html><html><body>Hi</body></html>"));
    assert!(looks_like_html("  <!DOCTYPE html>\n<html>"));
}

#[test]
fn mod_looks_like_html_detects_html_tag() {
    assert!(looks_like_html("<html><body>Hello</body></html>"));
    assert!(looks_like_html("<HTML><BODY>Hello</BODY></HTML>"));
}

#[test]
fn mod_looks_like_html_detects_div_table_body() {
    assert!(looks_like_html("<div class=\"wrapper\">Content</div>"));
    assert!(looks_like_html("<table><tr><td>cell</td></tr></table>"));
    assert!(looks_like_html("<body>hello</body>"));
}

#[test]
fn mod_looks_like_html_plain_text_is_false() {
    assert!(!looks_like_html("Hello, this is a plain text email."));
    assert!(!looks_like_html("Hi Maxime,\n\nSee you tomorrow.\nAlice"));
    assert!(!looks_like_html(""));
}

#[test]
fn mod_gmail_url_formats_correctly() {
    let url = gmail_url("thread123");
    assert_eq!(url, "https://mail.google.com/mail/u/0/#inbox/thread123");
}

/// Pages read by the initial sync when every page names a next one.
fn pages_read_with_endless_next_pages(max_pages: u64) -> u64 {
    let mut pages = 0u64;
    loop {
        let next = Some("next".to_string());
        pages += 1;
        if !continue_paging(&next, pages, max_pages) {
            break;
        }
    }
    pages
}

#[test]
fn connector_initial_sync_respects_max_pages() {
    assert_eq!(pages_read_with_endless_next_pages(5), 5);
}

#[test]
fn mod_initial_sync_respects_max_pages() {
    assert_eq!(pages_read_with_endless_next_pages(5), 5);
    assert!(!continue_paging(&None, 1, 5));
}
