use void_kit::hackernews::{item_url, top_stories_url, HackerNewsError};
use void_kit::search::fuse_results;
use void_kit::kb::{
    format_query, fts5_escape, hash_content, is_supported_extension, plan_sync, DocumentRow,
    MockEmbedder, SourceType, SyncReport,
};

#[test]
fn db_fts5_escape_basic() {
    assert_eq!(fts5_escape("hello world"), "\"hello\" \"world\"");
    assert_eq!(fts5_escape(""), "\"\"");
    assert_eq!(fts5_escape("a\"b"), "\"a\"\"b\"");
}

#[test]
fn tests_fts5_escape_basic() {
    assert_eq!(fts5_escape("hello world"), "\"hello\" \"world\"");
    assert_eq!(fts5_escape(""), "\"\"");
    assert_eq!(fts5_escape("a\"b"), "\"a\"\"b\"");
}

#[test]
fn mock_embedder_dimension() {
    let e = MockEmbedder::new(1024);
    assert_eq!(e.dimension(), 1024);
}

#[test]
fn format_query_prefix() {
    let q = format_query("what is rust?");
    assert!(q.starts_with("Instruct:"));
    assert!(q.contains("what is rust?"));
}

#[test]
fn source_type_names_round_trip() {
    for t in [SourceType::Text, SourceType::File, SourceType::Synced] {
        assert_eq!(SourceType::parse(t.as_str()), Ok(t));
    }
    assert_eq!(
        SourceType::parse("blob").unwrap_err(),
        "unknown source type: blob"
    );
    let parsed: SourceType = "file".parse().unwrap();
    assert_eq!(parsed, SourceType::File);
}

#[test]
fn unknown_stored_source_type_reads_as_text() {
    let row = DocumentRow {
        id: "d".to_string(),
        content: "c".to_string(),
        source_type: "weird".to_string(),
        source_path: None,
        content_hash: "h".to_string(),
        expiration: None,
        created_at: "t0".to_string(),
        updated_at: "t1".to_string(),
    };
    let d = row.into_document(vec![]);
    assert_eq!(d.source_type, SourceType::Text);
    assert_eq!(d.id, "d");
}

#[test]
fn hash_content_deterministic() {
    let a = hash_content(b"hello");
    let b = hash_content(b"hello");
    assert_eq!(a, b);
    assert_ne!(a, hash_content(b"world"));
    assert_eq!(a, "2cf24dba5fb0a30e26e83b2ac5b9e29e1b161e5c1fa7425e73043362938b9824");
}

#[test]
fn supported_extensions_ignore_case() {
    assert!(is_supported_extension("md"));
    assert!(is_supported_extension("RS"));
    assert!(!is_supported_extension("exe"));
}

#[test]
fn sync_plan_classifies_files() {
    let disk = vec![
        ("/f/a.txt".to_string(), "h1".to_string()),
        ("/f/b.txt".to_string(), "h2new".to_string()),
        ("/f/c.txt".to_string(), "h3".to_string()),
    ];
    let db = vec![
        ("id-b".to_string(), "/f/b.txt".to_string(), "h2".to_string()),
        ("id-c".to_string(), "/f/c.txt".to_string(), "h3".to_string()),
        ("id-d".to_string(), "/f/d.txt".to_string(), "h4".to_string()),
    ];
    let plan = plan_sync(&disk, &db);
    assert_eq!(plan.to_add, vec![("/f/a.txt".to_string(), "h1".to_string())]);
    assert_eq!(
        plan.to_update,
        vec![("id-b".to_string(), "/f/b.txt".to_string(), "h2new".to_string())]
    );
    assert_eq!(plan.to_delete, vec![("id-d".to_string(), "/f/d.txt".to_string())]);
    assert_eq!(plan.unchanged, 1);
}

#[test]
fn sync_report_summary() {
    let r = SyncReport { added: 2, updated: 0, deleted: 10, errors: 1 };
    assert_eq!(r.summary(), "added: 2, updated: 0, deleted: 10, errors: 1");
    let d = SyncReport::default();
    assert_eq!(d.added + d.updated + d.deleted + d.errors, 0);
}

#[test]
fn hackernews_urls_and_errors() {
    assert_eq!(top_stories_url("https://h/v0"), "https://h/v0/topstories.json");
    assert_eq!(item_url("https://h/v0", 8863), "https://h/v0/item/8863.json");
    assert_eq!(HackerNewsError::Api("x".into()).message(), "API error: x");
}

#[test]
fn fuse_deduplicates_chunks() {
    let semantic = vec![(1i64, "d1".to_string(), "text".to_string())];
    let grep = vec![(1i64, "d1".to_string(), "text".to_string())];
    let fused = fuse_results(&semantic, &grep);
    assert_eq!(fused.len(), 1);
    assert!(fused[0].semantic_rank.is_some());
    assert!(fused[0].grep_rank.is_some());
}

#[test]
fn fuse_separate_chunks() {
    let semantic = vec![(1i64, "d1".to_string(), "a".to_string())];
    let grep = vec![(2i64, "d2".to_string(), "b".to_string())];
    let fused = fuse_results(&semantic, &grep);
    assert_eq!(fused.len(), 2);
}

#[test]
fn fuse_ranks_are_one_based_and_last_wins() {
    let h = |id: i64, d: &str| (id, d.to_string(), format!("c{id}"));
    let semantic = vec![h(5, "a"), h(6, "b"), h(5, "z")];
    let grep = vec![h(7, "g"), h(6, "x"), h(7, "y")];
    let fused = fuse_results(&semantic, &grep);
    assert_eq!(fused.len(), 3);
    let find = |id: i64| fused.iter().find(|c| c.chunk_id == id).unwrap();
    assert_eq!(find(5).semantic_rank, Some(3));
    assert_eq!(find(5).grep_rank, None);
    assert_eq!(find(5).document_id, "z");
    assert_eq!(find(6).semantic_rank, Some(2));
    assert_eq!(find(6).grep_rank, Some(2));
    assert_eq!(find(6).document_id, "b");
    assert_eq!(find(7).semantic_rank, None);
    assert_eq!(find(7).grep_rank, Some(3));
    assert_eq!(find(7).document_id, "g");
}

#[test]
fn sync_plan_is_empty_when_store_is_in_step() {
    let disk = vec![("a.md".to_string(), "h1".to_string()), ("b.md".to_string(), "h2".to_string())];
    let db = vec![
        ("d1".to_string(), "a.md".to_string(), "h1".to_string()),
        ("d2".to_string(), "b.md".to_string(), "h2".to_string()),
    ];
    let p = plan_sync(&disk, &db);
    assert!(p.to_add.is_empty());
    assert!(p.to_update.is_empty());
    assert!(p.to_delete.is_empty());
    assert_eq!(p.unchanged, 2);
}

fn files(entries: &[(&str, &str)]) -> Vec<(String, String)> {
    entries.iter().map(|(p, h)| (p.to_string(), h.to_string())).collect()
}

fn stored(entries: &[(&str, &str, &str)]) -> Vec<(String, String, String)> {
    entries.iter().map(|(i, p, h)| (i.to_string(), p.to_string(), h.to_string())).collect()
}

#[test]
fn sync_initial_adds_files() {
    let plan = plan_sync(&files(&[("/d/doc1.txt", "h1"), ("/d/doc2.md", "h2")]), &vec![]);
    assert_eq!(plan.to_add.len(), 2);
    assert_eq!(plan.to_update.len(), 0);
    assert_eq!(plan.to_delete.len(), 0);
}

#[test]
fn sync_detects_new_file() {
    let disk = files(&[("/d/doc1.txt", "h1"), ("/d/doc2.md", "h2"), ("/d/new.txt", "h3")]);
    let db = stored(&[("i1", "/d/doc1.txt", "h1"), ("i2", "/d/doc2.md", "h2")]);
    let plan = plan_sync(&disk, &db);
    assert_eq!(plan.to_add, files(&[("/d/new.txt", "h3")]));
    assert_eq!(plan.unchanged, 2);
}

#[test]
fn sync_detects_modified_file() {
    let disk = files(&[("/d/doc1.txt", "h1-modified"), ("/d/doc2.md", "h2")]);
    let db = stored(&[("i1", "/d/doc1.txt", "h1"), ("i2", "/d/doc2.md", "h2")]);
    let plan = plan_sync(&disk, &db);
    assert_eq!(plan.to_update, stored(&[("i1", "/d/doc1.txt", "h1-modified")]));
    assert!(plan.to_add.is_empty() && plan.to_delete.is_empty());
}

#[test]
fn sync_detects_deleted_file() {
    let disk = files(&[("/d/doc2.md", "h2")]);
    let db = stored(&[("i1", "/d/doc1.txt", "h1"), ("i2", "/d/doc2.md", "h2")]);
    let plan = plan_sync(&disk, &db);
    assert_eq!(plan.to_delete, vec![("i1".to_string(), "/d/doc1.txt".to_string())]);
    assert_eq!(plan.unchanged, 1);
}

#[test]
fn sync_empty_directory() {
    let plan = plan_sync(&vec![], &vec![]);
    assert_eq!(plan.to_add.len(), 0);
    assert_eq!(plan.unchanged, 0);
}
