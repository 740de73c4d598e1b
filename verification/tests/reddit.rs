use void_kit::records::{reddit_post_message, subreddit_conversation, ConversationKind};
use void_kit::reddit::{
    authorization_code_body, authorize_url, basic_auth, comment_body, comment_result, should_store_post,
    extract_comment_id_from_external, token_request_body, CommentError, extract_post_id,
    extract_post_id_from_postbody_external, flatten_comments, matches_filters, sanitize_subreddit,
    CommentTree, ListingItem, MoreStub, RedditComment, RedditConnector, RedditPost, USER_AGENT,
};

#[test]
fn sanitize_subreddit_strips_prefix_and_invalid_chars() {
    assert_eq!(sanitize_subreddit("r/Rust"), "rust");
    assert_eq!(sanitize_subreddit("/programming"), "programming");
    assert_eq!(sanitize_subreddit("start-ups!"), "startups");
}

#[test]
fn sanitize_subreddit_for_conversation_ids() {
    assert_eq!(sanitize_subreddit("r/Rust"), "rust");
    assert_eq!(sanitize_subreddit("start-ups!"), "startups");
}

#[test]
fn extract_post_id_from_various_inputs() {
    assert_eq!(extract_post_id("abc123").unwrap(), "abc123");
    assert_eq!(extract_post_id("t3_abc123").unwrap(), "abc123");
    assert_eq!(extract_post_id("reddit_reddit_post_abc123").unwrap(), "abc123");
    assert_eq!(
        extract_post_id("https://www.reddit.com/r/rust/comments/abc123/title/").unwrap(),
        "abc123"
    );
}

#[test]
fn extract_post_id_errors() {
    assert_eq!(extract_post_id("   ").unwrap_err(), "post id is empty");
    assert_eq!(
        extract_post_id("not an id!").unwrap_err(),
        "unable to parse Reddit post id from 'not an id!'"
    );
}

#[test]
fn extract_post_id_uses_last_separator() {
    assert_eq!(extract_post_id("reddit_conn_x_y").unwrap(), "y");
    assert_eq!(extract_post_id("a_post_b_post_c").unwrap(), "c");
}

#[test]
fn extract_comment_id_from_external_id() {
    assert_eq!(
        extract_comment_id_from_external("reddit_reddit_comment_xyz", "reddit").unwrap(),
        "xyz"
    );
}

#[test]
fn extract_comment_id_rejects_other_connections() {
    assert_eq!(
        extract_comment_id_from_external("reddit_other_comment_xyz", "reddit").unwrap_err(),
        "unable to parse Reddit comment id from 'reddit_other_comment_xyz'"
    );
}

#[test]
fn extract_postbody_id() {
    assert_eq!(
        extract_post_id_from_postbody_external("reddit_c1_postbody_p9", "c1").unwrap(),
        "p9"
    );
    assert!(extract_post_id_from_postbody_external("reddit_c1_comment_p9", "c1").is_err());
}

fn make_post(id: &str, title: &str, score: i32) -> RedditPost {
    RedditPost {
        id: id.to_string(),
        title: Some(title.to_string()),
        author: Some("author".to_string()),
        score: Some(score),
        url: Some("https://example.com".to_string()),
        permalink: Some("/r/rust/comments/abc/hello/".to_string()),
        num_comments: Some(10),
        subreddit: Some("rust".to_string()),
        selftext: None,
    }
}

#[test]
fn filters_on_score_and_keywords() {
    let kws = vec!["rust".to_string()];
    assert!(matches_filters(&make_post("1", "Learning Rust", 10), &kws, 5));
    assert!(!matches_filters(&make_post("1", "Learning Go", 10), &kws, 5));
    assert!(!matches_filters(&make_post("1", "Learning Rust", 3), &kws, 5));
    let mut untitled = make_post("1", "x", -3);
    untitled.title = None;
    assert!(!matches_filters(&untitled, &vec![], 1));
    untitled.score = None;
    assert!(matches_filters(&untitled, &vec![], 0));
}

#[test]
fn matches_keyword_case_insensitive() {
    let post = make_post("1", "Rust is Amazing", 200);
    let keywords = vec!["rust".to_string()];
    assert!(matches_filters(&post, &keywords, 0));
}

#[test]
fn rejects_below_min_score() {
    let post = make_post("1", "Rust is Amazing", 50);
    let keywords = vec!["rust".to_string()];
    assert!(!matches_filters(&post, &keywords, 100));
}

#[test]
fn rejects_non_matching_keyword() {
    let post = make_post("1", "Python is Great", 200);
    let keywords = vec!["rust".to_string()];
    assert!(!matches_filters(&post, &keywords, 0));
}

#[test]
fn empty_keywords_matches_all_posts_above_threshold() {
    let post = make_post("1", "Anything Goes", 200);
    assert!(matches_filters(&post, &vec![], 0));
}

#[test]
fn missing_score_defaults_to_zero() {
    let mut post = make_post("1", "No score", 0);
    post.score = None;
    assert!(matches_filters(&post, &vec![], 0));
    assert!(!matches_filters(&post, &vec![], 1));
}

#[test]
fn build_message_includes_all_fields() {
    let post = make_post("abc123", "Cool Rust Tool", 350);
    let rec = reddit_post_message(&post, "reddit", "reddit-rust", "rust", 1_700_000_000);
    let msg = rec.message;
    assert_eq!(msg.id, "reddit-abc123");
    assert_eq!(msg.conversation_id, "reddit-rust");
    assert_eq!(msg.external_id, "reddit_reddit_abc123");
    assert_eq!(msg.sender, "author");
    assert!(msg.body.as_ref().unwrap().contains("Cool Rust Tool"));
    assert!(msg.body.as_ref().unwrap().contains("350 upvotes"));
    assert!(msg.body.as_ref().unwrap().contains("https://example.com"));
    let meta = rec.meta;
    assert_eq!(meta.reddit_id, "abc123");
    assert_eq!(meta.subreddit, "rust");
    assert_eq!(meta.score, 350);
    assert_eq!(meta.num_comments, 10);
}

#[test]
fn post_message_body_and_defaults() {
    let mut post = make_post("p1", "T", -5);
    post.author = None;
    post.title = None;
    post.url = Some("https://www.reddit.com/r/rust/comments/abc/hello/".to_string());
    post.num_comments = None;
    let rec = reddit_post_message(&post, "c", "c-rust", "rust", 42);
    assert_eq!(rec.message.sender, "[deleted]");
    assert_eq!(rec.message.sender_name.as_deref(), Some("[deleted]"));
    assert_eq!(
        rec.message.body.as_deref(),
        Some("(untitled)\nhttps://www.reddit.com/r/rust/comments/abc/hello/\n0 upvotes | 0 comments")
    );
    assert_eq!(rec.message.timestamp, 42);
    assert_eq!(rec.meta.reddit_url, "https://www.reddit.com/r/rust/comments/abc/hello/");
    post.permalink = Some("https://old.reddit.com/x".to_string());
    let rec = reddit_post_message(&post, "c", "c-rust", "rust", 42);
    assert_eq!(
        rec.message.body.as_deref(),
        Some("(untitled)\nhttps://www.reddit.com/r/rust/comments/abc/hello/\nhttps://old.reddit.com/x\n0 upvotes | 0 comments")
    );
}

#[test]
fn subreddit_conversation_ids() {
    let c = subreddit_conversation("conn", "r/Rust");
    assert_eq!(c.id, "conn-rust");
    assert_eq!(c.external_id, "reddit_conn_rust");
    assert_eq!(c.name.as_deref(), Some("r/rust"));
    assert_eq!(c.kind, ConversationKind::Channel);
}

fn comment(id: &str, replies: Vec<ListingItem>) -> ListingItem {
    ListingItem::Comment(CommentTree {
        comment: RedditComment {
            id: id.to_string(),
            author: Some("u".to_string()),
            body: Some(format!("body {id}")),
            score: Some(1),
            parent_id: None,
            link_id: None,
            depth: None,
        },
        replies,
    })
}

#[test]
fn flatten_puts_replies_before_their_comment_and_skips_more() {
    let items = vec![
        comment("c1", vec![comment("c2", vec![]), ListingItem::More(MoreStub { count: 3 })]),
        ListingItem::More(MoreStub { count: 1 }),
        comment("c3", vec![]),
    ];
    let mut out = Vec::new();
    flatten_comments(&items, &mut out);
    let ids: Vec<&str> = out.iter().map(|c| c.id.as_str()).collect();
    assert_eq!(ids, vec!["c2", "c1", "c3"]);
    assert_eq!(out[1].body.as_deref(), Some("body c1"));
}

#[test]
fn connector_sanitizes_configuration() {
    let c = RedditConnector::new(
        "conn",
        "id".to_string(),
        "secret".to_string(),
        vec!["r/Rust".to_string(), "!!".to_string(), "/AskReddit".to_string()],
        vec!["TOKIO".to_string()],
        5,
        60,
    );
    assert_eq!(c.config_id, "conn");
    assert_eq!(c.subreddits, vec!["rust".to_string(), "askreddit".to_string()]);
    assert_eq!(c.keywords, vec!["tokio".to_string()]);
}

#[test]
fn authorize_url_encodes_parameters() {
    let url = authorize_url("https://www.reddit.com", "my id", "st&ate", "http://localhost:8765");
    assert_eq!(
        url,
        "https://www.reddit.com/api/v1/authorize?client_id=my%20id&response_type=code&state=st%26ate&redirect_uri=http%3A%2F%2Flocalhost%3A8765&duration=permanent&scope=read%20submit%20identity"
    );
}

#[test]
fn token_body_without_refresh_token_uses_client_credentials() {
    assert_eq!(token_request_body(None), "grant_type=client_credentials");
}

#[test]
fn token_body_with_refresh_token_uses_refresh_grant() {
    assert_eq!(
        token_request_body(Some("refresh-abc")),
        "grant_type=refresh_token&refresh_token=refresh-abc"
    );
    assert_eq!(
        token_request_body(Some("a b/c")),
        "grant_type=refresh_token&refresh_token=a%20b%2Fc"
    );
}

#[test]
fn basic_auth_encodes_client_pair() {
    assert_eq!(basic_auth("client", "app-secret"), "Basic Y2xpZW50OmFwcC1zZWNyZXQ=");
    assert_eq!(basic_auth("id", "secret"), "Basic aWQ6c2VjcmV0");
}

#[test]
fn authorization_code_body_encodes_parameters() {
    assert_eq!(
        authorization_code_body("c0de", "http://localhost:8765"),
        "grant_type=authorization_code&code=c0de&redirect_uri=http%3A%2F%2Flocalhost%3A8765"
    );
}

#[test]
fn comment_body_is_form_encoded() {
    assert_eq!(comment_body("t1_parent", "hello"), "thing_id=t1_parent&text=hello&api_type=json");
    assert_eq!(
        comment_body("t3_abc", "a&b = c"),
        "thing_id=t3_abc&text=a%26b%20%3D%20c&api_type=json"
    );
}

#[test]
fn comment_result_names_new_comment() {
    assert_eq!(comment_result(0, Some("newcomment")), Ok("t1_newcomment".to_string()));
}

#[test]
fn comment_result_errors() {
    assert_eq!(comment_result(2, Some("x")), Err(CommentError::Rejected));
    assert_eq!(comment_result(0, None), Err(CommentError::MissingId));
}

#[test]
fn get_post_comments_parses_nested_tree_and_skips_more() {
    let reply = ListingItem::Comment(CommentTree {
        comment: RedditComment {
            id: "c2".into(),
            author: Some("u2".into()),
            body: Some("reply".into()),
            score: None,
            parent_id: Some("t1_c1".into()),
            link_id: Some("t3_abc123".into()),
            depth: Some(1),
        },
        replies: vec![],
    });
    let top = ListingItem::Comment(CommentTree {
        comment: RedditComment {
            id: "c1".into(),
            author: Some("u1".into()),
            body: Some("top".into()),
            score: None,
            parent_id: Some("t3_abc123".into()),
            link_id: Some("t3_abc123".into()),
            depth: Some(0),
        },
        replies: vec![reply],
    });
    let items = vec![top, ListingItem::More(MoreStub { count: 5 })];
    let mut comments = Vec::new();
    flatten_comments(&items, &mut comments);
    assert_eq!(comments.len(), 2);
    assert_eq!(comments[0].id, "c2");
    assert_eq!(comments[1].id, "c1");
}

#[test]
fn token_request_uses_client_credentials_and_user_agent() {
    assert_eq!(USER_AGENT, "void-cli/1.0 (by /u/void-cli)");
    assert_eq!(basic_auth("client", "app-secret"), "Basic Y2xpZW50OmFwcC1zZWNyZXQ=");
    assert_eq!(token_request_body(None), "grant_type=client_credentials");
}

#[test]
fn token_request_uses_refresh_token_grant() {
    assert_eq!(
        token_request_body(Some("refresh-abc")),
        "grant_type=refresh_token&refresh_token=refresh-abc"
    );
}

#[test]
fn post_comment_sends_form_body_and_parses_response() {
    assert_eq!(comment_body("t1_parent", "hello"), "thing_id=t1_parent&text=hello&api_type=json");
    assert_eq!(comment_result(0, Some("newcomment")), Ok("t1_newcomment".to_string()));
}

#[test]
fn polled_post_is_stored_only_when_new_and_matching() {
    let post = make_post("p", "Rust 2024", 50);
    let kw = vec!["rust".to_string()];
    assert!(should_store_post(false, &post, &kw, 10));
    assert!(!should_store_post(true, &post, &kw, 10));
    assert!(!should_store_post(false, &post, &kw, 100));
}
