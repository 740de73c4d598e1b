use void_kit::chunking::{chunk_text, try_chunk_text, ChunkConfig, TextChunk};

fn default_config() -> ChunkConfig {
    ChunkConfig::default()
}

fn chunks_of(text: &str, config: &ChunkConfig) -> Vec<TextChunk> {
    try_chunk_text(text, config).expect("chunking completes on this input")
}

#[test]
fn empty_text() {
    let chunks = chunk_text("", &default_config());
    assert!(chunks.is_empty());
}

#[test]
fn short_text_single_chunk() {
    let text = "Hello, world. This is a short document.";
    let chunks = chunks_of(text, &default_config());
    assert_eq!(chunks.len(), 1);
    assert_eq!(chunks[0].text, text);
    assert_eq!(chunks[0].start_byte, 0);
    assert_eq!(chunks[0].end_byte, text.len());
    assert_eq!(chunks[0].index, 0);
}

#[test]
fn long_text_splits() {
    let paragraph = "word ".repeat(500);
    let text = format!("{paragraph}\n\n{paragraph}\n\n{paragraph}");
    let config = ChunkConfig {
        chunk_chars: 800,
        overlap_chars: 100,
        min_chunk_chars: 50,
        max_chunks: 100,
    };
    let chunks = chunks_of(&text, &config);
    assert!(chunks.len() > 1, "expected multiple chunks, got {}", chunks.len());
}

#[test]
fn overlap_between_chunks() {
    let sentences: String = (0..100)
        .map(|i| format!("Sentence number {i} with some extra words to pad it. "))
        .collect();
    let config = ChunkConfig {
        chunk_chars: 200,
        overlap_chars: 50,
        min_chunk_chars: 30,
        max_chunks: 100,
    };
    let chunks = chunks_of(&sentences, &config);
    assert!(chunks.len() >= 2);

    for pair in chunks.windows(2) {
        let a_end = &pair[0].text;
        let b_start = &pair[1].text;
        let a_tail: String = a_end.chars().rev().take(30).collect::<String>().chars().rev().collect();
        assert!(
            b_start.contains(&a_tail) || pair[1].start_byte < pair[0].end_byte,
            "chunks should overlap"
        );
    }
}

#[test]
fn paragraph_boundary_respected() {
    let p1 = "a ".repeat(300);
    let p2 = "b ".repeat(300);
    let text = format!("{}\n\n{}", p1.trim(), p2.trim());
    let config = ChunkConfig {
        chunk_chars: 700,
        overlap_chars: 50,
        min_chunk_chars: 30,
        max_chunks: 100,
    };
    let chunks = chunks_of(&text, &config);
    assert!(chunks.len() >= 2);
    assert!(chunks[0].text.starts_with("a "));
}

#[test]
fn tiny_tail_merged() {
    let main = "word ".repeat(350);
    let tail = "end";
    let text = format!("{}\n\n{}", main.trim(), tail);
    let config = ChunkConfig {
        chunk_chars: 1800,
        overlap_chars: 100,
        min_chunk_chars: 160,
        max_chunks: 100,
    };
    let chunks = chunks_of(&text, &config);
    assert_eq!(chunks.len(), 1, "tiny tail should be merged");
    assert!(chunks[0].text.contains("end"));
}

#[test]
fn unicode_multibyte() {
    let text = "こんにちは世界。これはテストです。";
    let chunks = chunks_of(text, &default_config());
    assert_eq!(chunks.len(), 1);
    assert_eq!(chunks[0].text, text);
}

#[test]
fn byte_offsets_valid() {
    let text = "Hello world.\n\nSecond paragraph here.";
    let chunks = chunks_of(text, &default_config());
    for chunk in &chunks {
        assert!(chunk.start_byte <= chunk.end_byte);
        assert!(chunk.end_byte <= text.len());
    }
}

#[test]
fn max_chunks_enforced() {
    let text = "word ".repeat(100_000);
    let config = ChunkConfig {
        chunk_chars: 50,
        overlap_chars: 10,
        min_chunk_chars: 10,
        max_chunks: 5,
    };
    let chunks = chunks_of(&text, &config);
    assert!(chunks.len() <= 5);
}

#[test]
fn indices_sequential() {
    let text = "a ".repeat(5000);
    let config = ChunkConfig {
        chunk_chars: 200,
        overlap_chars: 30,
        min_chunk_chars: 20,
        max_chunks: 100,
    };
    let chunks = chunks_of(&text, &config);
    for (i, c) in chunks.iter().enumerate() {
        assert_eq!(c.index, i);
    }
}

#[test]
fn two_short_paragraphs_share_one_chunk() {
    let text = "First paragraph.\n\n  Second paragraph.  ";
    let chunks = chunks_of(text, &default_config());
    assert_eq!(chunks.len(), 1);
    assert_eq!(chunks[0].text, "First paragraph.\nSecond paragraph.");
    assert_eq!(chunks[0].start_byte, 0);
    assert_eq!(chunks[0].end_byte, 34);
}

#[test]
fn blank_document_has_no_chunks() {
    let chunks = chunks_of(" \n\n \n\n ", &default_config());
    assert!(chunks.is_empty());
}

#[test]
fn zero_limit_still_yields_one_chunk() {
    let config = ChunkConfig {
        chunk_chars: 10,
        overlap_chars: 2,
        min_chunk_chars: 1,
        max_chunks: 0,
    };
    let chunks = chunks_of("alpha beta gamma delta epsilon zeta", &config);
    assert_eq!(chunks.len(), 1);
    assert_eq!(chunks[0].index, 0);
}

#[test]
fn default_config_values() {
    let c = ChunkConfig::default();
    assert_eq!(c.chunk_chars, 1536);
    assert_eq!(c.overlap_chars, 256);
    assert_eq!(c.min_chunk_chars, 160);
    assert_eq!(c.max_chunks, 2000);
}
