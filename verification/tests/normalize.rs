use void_kit::normalize::{normalize_decomposed, normalize_for_search};

#[test]
fn ascii_passthrough() {
    assert_eq!(normalize_for_search("hello world"), "hello world");
}

#[test]
fn accent_removal() {
    assert_eq!(normalize_for_search("café"), "cafe");
    assert_eq!(normalize_for_search("résumé"), "resume");
    assert_eq!(normalize_for_search("Zürich"), "zurich");
    assert_eq!(normalize_for_search("naïve"), "naive");
}

#[test]
fn case_folding() {
    assert_eq!(normalize_for_search("HELLO"), "hello");
    assert_eq!(normalize_for_search("Hello World"), "hello world");
}

#[test]
fn ligatures() {
    assert_eq!(normalize_for_search("\u{FB01}nance"), "finance");
}

#[test]
fn cjk_passthrough() {
    assert_eq!(normalize_for_search("你好世界"), "你好世界");
}

#[test]
fn emoji_passthrough() {
    let result = normalize_for_search("hello 🌍 world");
    assert!(result.contains("hello"));
    assert!(result.contains("world"));
}

#[test]
fn empty_string() {
    assert_eq!(normalize_for_search(""), "");
}

#[test]
fn whitespace_only() {
    assert_eq!(normalize_for_search("   "), "");
}

#[test]
fn numbers_preserved() {
    assert_eq!(normalize_for_search("test123"), "test123");
}

#[test]
fn punctuation_collapsed() {
    assert_eq!(normalize_for_search("hello, world!"), "hello world");
    assert_eq!(normalize_for_search("a...b---c"), "a b c");
}

#[test]
fn mixed_accents_and_case() {
    assert_eq!(normalize_for_search("CRÈME BRÛLÉE"), "creme brulee");
}

#[test]
fn no_trailing_space() {
    assert_eq!(normalize_for_search("hello! "), "hello");
}

#[test]
fn decomposed_marks_are_dropped() {
    let cs: Vec<char> = vec!['e', '\u{0301}', 'T', '!', '!', 'x'];
    assert_eq!(normalize_decomposed(&cs), "et x");
}

#[test]
fn leading_punctuation_gives_no_space() {
    assert_eq!(normalize_for_search("...Hello"), "hello");
}

#[test]
fn normalized_text_is_single_spaced_and_a_fixed_point() {
    for text in ["  Héllo,,  World!! ", "Crème brûlée — ½ CUP", "a\t\tb\n\nc", "...", "ÉCOLE  Ⅻ  naïve"] {
        let once = normalize_for_search(text);
        assert!(!once.starts_with(' '), "{once:?}");
        assert!(!once.ends_with(' '), "{once:?}");
        assert!(!once.contains("  "), "{once:?}");
        assert_eq!(normalize_for_search(&once), once);
    }
    assert_eq!(normalize_for_search("  Héllo,,  World!! "), "hello world");
}
