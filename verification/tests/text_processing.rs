//! Tests of the text-processing pipeline: term extraction, normalization,
//! compression, token estimation and similarity.

use ghost_lib::compress::{compress_text, estimate_tokens, remove_filler_phrases, remove_stopwords,
    truncate_to_tokens, compression_permille};
use ghost_lib::dedup::{cosine_above, Embedding};
use ghost_lib::score::{extract_terms, keyword_score, term_counts};
use ghost_lib::text::{extract_markdown_sections, normalize};

fn embedding(coords: Vec<i64>) -> Embedding {
    Embedding::new(coords).expect("coordinates in range")
}

#[test]
fn test_extract_terms() {
    let terms = extract_terms("How does context distillation work?");
    assert!(terms.contains(&"how".to_string()));
    assert!(terms.contains(&"does".to_string()));
    assert!(terms.contains(&"context".to_string()));
    assert!(terms.contains(&"distillation".to_string()));
    assert!(terms.contains(&"work".to_string()));
}

#[test]
fn test_tfidf_score() {
    let text = "Context distillation is a technique for compressing context";
    let terms = vec!["context".to_string(), "distillation".to_string()];
    let (counts, total) = term_counts(text, &terms);
    // The pseudo-idf boost for a term counted `c` times is ln(1 + c) + 1,
    // on the millionth scale.
    let boosts: Vec<u64> = counts
        .iter()
        .map(|c| (((1.0 + *c as f64).ln() + 1.0) * 1_000_000.0) as u64)
        .collect();
    let score = keyword_score(&counts, total, &boosts);
    assert!(score > 0);
}

#[test]
fn test_truncate_to_tokens() {
    let text = "This is a test sentence with several words in it";
    let truncated = truncate_to_tokens(text, 5);
    let word_count = truncated.split_whitespace().count();
    assert!(word_count <= 4); // 5 / 1.3 ≈ 3.8 → 3
}

#[test]
fn test_redundancy_removal() {
    // Two identical embeddings should result in one being removed.
    let chunks = vec![
        ghost_lib::rank::ScoredChunk {
            text: "Hello world".to_string(),
            section: "A".to_string(),
            filename: "test.md".to_string(),
            score: 9_000_000,
        },
        ghost_lib::rank::ScoredChunk {
            text: "Hello world again".to_string(),
            section: "A".to_string(),
            filename: "test.md".to_string(),
            score: 8_000_000,
        },
    ];
    let embeddings = vec![
        embedding(vec![1_000_000, 0, 0]),
        embedding(vec![1_000_000, 0, 0]),
    ];
    let result = ghost_lib::dedup::remove_redundant(&chunks, &embeddings, 850);
    assert_eq!(result.len(), 1);
}

#[test]
fn test_normalize() {
    let input = "Hello  \x07 World\t\ttab";
    let result = normalize(input);
    assert_eq!(result, "Hello World tab");
}

#[test]
fn test_extract_markdown_sections() {
    let md = "# Title\nSome intro\n## Section A\nContent A\n## Section B\nContent B";
    let sections = extract_markdown_sections(md);
    assert_eq!(sections.len(), 3);
    assert_eq!(sections[0].0, "Title");
    assert_eq!(sections[1].0, "Section A");
    assert_eq!(sections[2].0, "Section B");
}

#[test]
fn test_stopword_removal_preserves_negation() {
    let text = "This is not a good idea";
    let result = remove_stopwords(text);
    assert!(result.contains("not"));
    assert!(result.contains("good"));
    assert!(result.contains("idea"));
    assert!(!result.contains("This"));
}

#[test]
fn test_filler_removal() {
    let text = "It is important to note that the system works well";
    let result = remove_filler_phrases(text);
    assert!(!result.contains("It is important to note that"));
    assert!(result.contains("system works well"));
}

#[test]
fn test_estimate_tokens() {
    let text = "This is a test sentence with seven words";
    let tokens = estimate_tokens(text);
    assert_eq!(tokens, 11); // 8 * 1.3 = 10.4 -> 11
}

#[test]
fn test_compression_ratio() {
    let original = "This is a very important and absolutely critical document";
    let compressed = compress_text(original);
    let ratio = compression_permille(original, &compressed);
    assert!(ratio > 0, "Compression ratio should be positive");
    assert!(ratio < 1000, "Compression ratio should be less than one");
}

#[test]
fn test_cosine_similarity() {
    let a = embedding(vec![1_000_000, 0, 0]);
    let b = embedding(vec![1_000_000, 0, 0]);
    // Identical vectors: similarity one, above every threshold below one.
    assert!(cosine_above(&a, &b, 999));

    let c = embedding(vec![0, 1_000_000, 0]);
    // Orthogonal vectors: similarity zero, above no positive threshold.
    assert!(!cosine_above(&a, &c, 1));
}

#[test]
fn normalize_handles_mixed_whitespace_and_control_chars() {
    let input = "Hello\x07  World\t\ttab\n  indented\n\nblank line";
    let result = normalize(input);

    assert!(!result.contains('\x07'));
    assert!(!result.contains("\t\t"));
    assert!(result.contains("Hello World tab"));
}

#[test]
fn markdown_section_extraction_handles_nested_headings() {
    let md = "\
# Top Level
Intro text

## Section A
Content for A

### Subsection A.1
Details

## Section B
Content for B";

    let headings: Vec<String> = extract_markdown_sections(md)
        .into_iter()
        .map(|(heading, _)| heading)
        .collect();

    assert_eq!(headings.len(), 4);
    assert_eq!(headings[0], "Top Level");
    assert_eq!(headings[1], "Section A");
    assert_eq!(headings[2], "Subsection A.1");
    assert_eq!(headings[3], "Section B");
}

#[test]
fn stopword_removal_preserves_negations_in_complex_text() {
    let text = "This is not a good idea and the system cannot handle it";
    let result: Vec<String> = remove_stopwords(text)
        .split_whitespace()
        .map(|w| w.to_string())
        .collect();

    assert!(result.contains(&"not".to_string()));
    assert!(result.contains(&"cannot".to_string()));
    assert!(!result.iter().any(|w| *w == "a"));
    assert!(!result.iter().any(|w| *w == "the"));
}

#[test]
fn token_estimation_is_reasonable() {
    // Rough heuristic: words * 1.3.
    let text = "The quick brown fox jumps over the lazy dog";
    let word_count = text.split_whitespace().count(); // 9
    let tokens = estimate_tokens(text);

    assert_eq!(tokens, 12); // 9 * 1.3 = 11.7 -> 12
    assert!(tokens > word_count);
    assert!(tokens < word_count * 2);
}

#[test]
fn cosine_similarity_edge_cases() {
    // Identical vectors -> 1.0
    let a = vec![1.0f32, 2.0, 3.0];
    let b = vec![1.0f32, 2.0, 3.0];
    let dot: f32 = a.iter().zip(b.iter()).map(|(x, y)| x * y).sum();
    let norm_a: f32 = a.iter().map(|x| x * x).sum::<f32>().sqrt();
    let norm_b: f32 = b.iter().map(|x| x * x).sum::<f32>().sqrt();
    let sim = dot / (norm_a * norm_b);
    assert!((sim - 1.0).abs() < 1e-6);

    // Orthogonal vectors -> 0.0
    let c = vec![1.0f32, 0.0, 0.0];
    let d = vec![0.0f32, 1.0, 0.0];
    let dot2: f32 = c.iter().zip(d.iter()).map(|(x, y)| x * y).sum();
    assert!(dot2.abs() < 1e-6);

    // Zero vector -> 0.0 (no panic); the fixed-point comparison agrees.
    let z = vec![0.0f32, 0.0, 0.0];
    let norm_z: f32 = z.iter().map(|x| x * x).sum::<f32>().sqrt();
    assert_eq!(norm_z, 0.0);
    let zi = embedding(vec![0, 0, 0]);
    let xi = embedding(vec![1_000_000, 0, 0]);
    assert!(!cosine_above(&zi, &xi, 1));
    assert!(!cosine_above(&zi, &zi, 1));
}

#[test]
fn filler_phrase_removal_is_case_insensitive() {
    let text = "It Is Important To Note That the system works well. IN ORDER TO achieve this, we need more data.";
    let result = remove_filler_phrases(text);

    assert!(!result.to_lowercase().contains("it is important to note that"));
    assert!(!result.to_lowercase().contains("in order to"));
    assert!(result.contains("system works well"));
    assert!(result.contains("achieve this"));
}

#[test]
fn compression_reduces_token_count() {
    let original = "It is important to note that the system has been very carefully designed in order to handle a large number of requests from the users";

    let word_count_original = original.split_whitespace().count();
    let compressed = remove_filler_phrases(original);
    let word_count_compressed = compressed.split_whitespace().count();
    assert!(
        word_count_compressed < word_count_original,
        "Compression should reduce word count: {} >= {}",
        word_count_compressed,
        word_count_original
    );
}
