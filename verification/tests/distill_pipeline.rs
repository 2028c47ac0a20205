//! Tests of the distillation pipeline: scoring, ranking, deduplication,
//! packing, the result statistics, and the chat-session state machine.

use ghost_lib::active_model_name;
use ghost_lib::compress::truncate_to_tokens;
use ghost_lib::dedup::{remove_redundant, Embedding};
use ghost_lib::distill::{
    distill_ranked, empty_result, scored_chunk_of, Candidate, DistillConfig,
};
use ghost_lib::rank::{rank_chunks, ScoredChunk};
use ghost_lib::score::{blend_score, extract_terms, keyword_score};
use ghost_lib::session::{
    handle_distill_error, handle_distill_result, handle_input_event, handle_stream_event,
    spinning_dots, App, AppPhase, InputEvent, Role, StreamEvent, UiAction,
};
use ghost_lib::text::find_section_for_chunk;

fn embedding(coords: Vec<i64>) -> Embedding {
    Embedding::new(coords).expect("coordinates in range")
}

fn chunk(text: &str, section: &str, score: i64) -> ScoredChunk {
    ScoredChunk {
        text: text.to_string(),
        section: section.to_string(),
        filename: String::new(),
        score,
    }
}

#[test]
fn term_extraction_yields_exact_terms() {
    let terms = extract_terms("How does context distillation work?");
    assert_eq!(terms, vec!["how", "does", "context", "distillation", "work"]);
}

#[test]
fn keyword_score_zero_cases_and_bound() {
    // No query terms: score is zero.
    let none: Vec<u64> = Vec::new();
    assert_eq!(keyword_score(&none, 7, &none), 0);
    // Empty chunk text (zero words): score is zero.
    let counts = vec![3u64];
    let boosts = vec![2_000_000u64];
    assert_eq!(keyword_score(&counts, 0, &boosts), 0);
    // The score is capped at the scale even for huge boosts.
    let counts = vec![5u64];
    let big = vec![0x1_0000_0000u64];
    assert_eq!(keyword_score(&counts, 5, &big), 1_000_000);
    // An exact mid-range value: one occurrence in ten words, boost 1.693147.
    let counts = vec![1u64];
    let boosts = vec![1_693_147u64];
    assert_eq!(keyword_score(&counts, 10, &boosts), 169_314);
}

#[test]
fn blend_weighs_seven_to_three() {
    assert_eq!(blend_score(1_000_000, 0), 7_000_000);
    assert_eq!(blend_score(0, 1_000_000), 3_000_000);
    assert_eq!(blend_score(500_000, 200_000), 4_100_000);
    assert_eq!(blend_score(-1_000_000, 0), -7_000_000);
}

#[test]
fn ranking_is_stable_and_descending() {
    let chunks = vec![
        chunk("first", "A", 5),
        chunk("second", "B", 9),
        chunk("third", "C", 5),
        chunk("fourth", "D", 7),
    ];
    let ranked = rank_chunks(chunks);
    let order: Vec<(String, i64)> = ranked.into_iter().map(|c| (c.text, c.score)).collect();
    assert_eq!(
        order,
        vec![
            ("second".to_string(), 9),
            ("fourth".to_string(), 7),
            ("first".to_string(), 5),
            ("third".to_string(), 5),
        ]
    );
}

#[test]
fn identical_embeddings_collapse_to_one() {
    let chunks = vec![
        chunk("one", "A", 3),
        chunk("two", "A", 2),
        chunk("three", "A", 1),
    ];
    let e = vec![700_000, -300_000, 40_000];
    let embeddings = vec![
        embedding(e.clone()),
        embedding(e.clone()),
        embedding(e),
    ];
    let kept = remove_redundant(&chunks, &embeddings, 999);
    assert_eq!(kept.len(), 1);
    assert_eq!(kept[0].text, "one");
}

#[test]
fn dedup_never_grows_and_keeps_dissimilar() {
    let chunks = vec![chunk("one", "A", 3), chunk("two", "A", 2)];
    let embeddings = vec![
        embedding(vec![1_000_000, 0, 0]),
        embedding(vec![0, 1_000_000, 0]),
    ];
    let kept = remove_redundant(&chunks, &embeddings, 850);
    assert_eq!(kept.len(), 2);
}

#[test]
fn empty_retrieval_gives_all_zero_result() {
    let r = empty_result();
    assert_eq!(r.context, "");
    assert_eq!(r.original_tokens, 0);
    assert_eq!(r.distilled_tokens, 0);
    assert_eq!(r.compression_permille, 0);
    assert_eq!(r.chunks_retrieved, 0);
    assert_eq!(r.chunks_after_dedup, 0);
}

#[test]
fn truncation_respects_token_budget() {
    let text = "This is a test sentence with several words in it";
    let truncated = truncate_to_tokens(text, 5);
    // floor(5 / 1.3) = 3 words at most.
    assert_eq!(truncated, "This is a");
}

/// A text of `n` distinct words that compression leaves untouched.
fn plain_words(n: usize, tag: &str) -> String {
    let words: Vec<String> = (0..n).map(|i| format!("{tag}{i}")).collect();
    words.join(" ")
}

#[test]
fn packing_halts_instead_of_truncating_under_fifty_remaining() {
    // Two chunks of compressed-token-estimate 60 each (46 words), budget 100:
    // the first is included whole, the remaining 40 is not worth a
    // truncation, so the second is dropped and packing halts.
    let t1 = plain_words(46, "alpha");
    let t2 = plain_words(46, "beta");
    let ranked = vec![chunk(&t1, "A", 9), chunk(&t2, "B", 8)];
    let embeddings = vec![
        embedding(vec![1_000_000, 0, 0]),
        embedding(vec![0, 1_000_000, 0]),
    ];
    let config = DistillConfig {
        budget: 100,
        dedup_threshold: 850,
    };
    let r = distill_ranked(&ranked, &embeddings, &config);
    assert_eq!(r.chunks_retrieved, 2);
    assert_eq!(r.chunks_after_dedup, 2);
    assert_eq!(r.context, format!("[A] {t1}"));
    assert!(!r.context.contains("beta"));
    // Both chunks were attempted before the halt, so both count.
    assert_eq!(r.original_tokens, 120);
    // 47 words in "[A] ..." estimate to ceil(61.1) = 62.
    assert_eq!(r.distilled_tokens, 62);
}

#[test]
fn packing_truncates_when_enough_budget_remains() {
    let t1 = plain_words(46, "alpha");
    let t2 = plain_words(100, "beta");
    let ranked = vec![chunk(&t1, "A", 9), chunk(&t2, "B", 8)];
    let embeddings = vec![
        embedding(vec![1_000_000, 0, 0]),
        embedding(vec![0, 1_000_000, 0]),
    ];
    let config = DistillConfig {
        budget: 130,
        dedup_threshold: 850,
    };
    // Chunk one spends 60 of 130; chunk two estimates 130 > 70 remaining,
    // and 70 > 50, so it is truncated to floor(70 / 1.3) = 53 words.
    let r = distill_ranked(&ranked, &embeddings, &config);
    let parts: Vec<&str> = r.context.split("\n\n").collect();
    assert_eq!(parts.len(), 2);
    assert_eq!(parts[1].split_whitespace().count(), 54); // "[B]" plus 53 words
    assert_eq!(r.chunks_after_dedup, 2);
}

#[test]
fn distillation_deduplicates_before_packing() {
    let t1 = plain_words(10, "alpha");
    let t2 = plain_words(10, "beta");
    let ranked = vec![chunk(&t1, "A", 9), chunk(&t2, "B", 8)];
    // Near-identical embeddings: the lower-ranked duplicate is dropped.
    let embeddings = vec![
        embedding(vec![1_000_000, 0, 0]),
        embedding(vec![999_999, 1, 0]),
    ];
    let config = DistillConfig {
        budget: 3000,
        dedup_threshold: 850,
    };
    let r = distill_ranked(&ranked, &embeddings, &config);
    assert_eq!(r.chunks_retrieved, 2);
    assert_eq!(r.chunks_after_dedup, 1);
    assert!(r.chunks_after_dedup <= r.chunks_retrieved);
    assert!(r.context.contains("alpha0"));
    assert!(!r.context.contains("beta0"));
}

#[test]
fn empty_query_yields_no_terms() {
    assert_eq!(extract_terms(""), Vec::<String>::new());
    assert_eq!(extract_terms("a an of"), Vec::<String>::new()); // all too short
}

#[test]
fn compression_figure_may_be_negative() {
    // A one-word chunk: 2 tokens before packing, but the section label makes
    // the packed entry 2 words (3 tokens), so the figure goes negative.
    // That is reported, not treated as an error.
    let ranked = vec![chunk("zebra", "A", 1)];
    let embeddings = vec![embedding(vec![1_000_000, 0, 0])];
    let config = DistillConfig {
        budget: 3000,
        dedup_threshold: 850,
    };
    let r = distill_ranked(&ranked, &embeddings, &config);
    assert_eq!(r.context, "[A] zebra");
    assert_eq!(r.original_tokens, 2);
    assert_eq!(r.distilled_tokens, 3);
    assert_eq!(r.compression_permille, -500);
}

#[test]
fn missing_payload_fields_get_defaults() {
    let c = Candidate {
        similarity: 500_000,
        text: None,
        section: None,
        filename: None,
    };
    let sc = scored_chunk_of(&c, 42);
    assert_eq!(sc.text, "");
    assert_eq!(sc.section, "(unknown)");
    assert_eq!(sc.filename, "");
    assert_eq!(sc.score, 42);
}

#[test]
fn embedding_rejects_out_of_range_coordinates() {
    assert!(Embedding::new(vec![1_048_576, -1_048_576]).is_some());
    assert!(Embedding::new(vec![1_048_577]).is_none());
    assert!(Embedding::new(vec![-1_048_577]).is_none());
}

#[test]
fn section_lookup_finds_containing_section() {
    let sections = vec![
        ("Section A".to_string(), "Content A talks about alpha".to_string()),
        ("Section B".to_string(), "Content B talks about beta".to_string()),
    ];
    assert_eq!(find_section_for_chunk("about beta", &sections), "Section B");
    assert_eq!(find_section_for_chunk("gamma", &sections), "(unknown)");
    // A chunk that contains a section's whole (short) content matches it.
    assert_eq!(
        find_section_for_chunk("xx Content A talks about alpha yy", &sections),
        "Section A"
    );
}

#[test]
fn model_name_prefers_override_then_configured() {
    assert_eq!(active_model_name(Some("phi"), Some("mistral")), "phi");
    assert_eq!(active_model_name(None, Some("mistral")), "mistral");
    assert_eq!(active_model_name(None, None), "llama3");
}

#[test]
fn spinner_dots_cycle_with_the_tick() {
    assert_eq!(spinning_dots(0), "");
    assert_eq!(spinning_dots(5), ".");
    assert_eq!(spinning_dots(10), "..");
    assert_eq!(spinning_dots(15), "...");
    assert_eq!(spinning_dots(20), "");
}

#[test]
fn session_editing_and_submit() {
    let mut app = App::new("llama3".to_string(), None);
    for c in "  hi there  ".chars() {
        let a = handle_input_event(&mut app, InputEvent::Typed(c));
        assert!(matches!(a, UiAction::Nothing));
    }
    assert_eq!(app.input, "  hi there  ");
    let action = handle_input_event(&mut app, InputEvent::Enter);
    match action {
        UiAction::Ask(q) => assert_eq!(q, "hi there"),
        _ => panic!("expected a query submission"),
    }
    assert!(matches!(app.phase, AppPhase::Distilling));
    assert_eq!(app.input, "");
    assert_eq!(app.messages.len(), 1);
    assert!(matches!(app.messages[0].role, Role::User));
    assert_eq!(app.messages[0].content, "hi there");
}

#[test]
fn session_blank_submit_is_discarded() {
    let mut app = App::new("llama3".to_string(), None);
    for c in "   ".chars() {
        handle_input_event(&mut app, InputEvent::Typed(c));
    }
    let action = handle_input_event(&mut app, InputEvent::Enter);
    assert!(matches!(action, UiAction::Nothing));
    assert!(matches!(app.phase, AppPhase::Idle));
    assert_eq!(app.input, "");
    assert_eq!(app.messages.len(), 0);
}

#[test]
fn session_cursor_editing() {
    let mut app = App::new("llama3".to_string(), None);
    handle_input_event(&mut app, InputEvent::Typed('a'));
    handle_input_event(&mut app, InputEvent::Typed('c'));
    handle_input_event(&mut app, InputEvent::CursorLeft);
    handle_input_event(&mut app, InputEvent::Typed('b'));
    assert_eq!(app.input, "abc");
    handle_input_event(&mut app, InputEvent::CursorEnd);
    handle_input_event(&mut app, InputEvent::Backspace);
    assert_eq!(app.input, "ab");
    handle_input_event(&mut app, InputEvent::CursorHome);
    handle_input_event(&mut app, InputEvent::Backspace);
    assert_eq!(app.input, "ab");
    let quit = handle_input_event(&mut app, InputEvent::Quit);
    assert!(matches!(quit, UiAction::Leave));
    assert!(app.should_quit);
}

#[test]
fn session_stream_and_distill_flow() {
    let mut app = App::new("llama3".to_string(), Some(512));
    app.phase = AppPhase::Distilling;

    // A finished distillation with content opens an assistant message.
    let t1 = plain_words(10, "alpha");
    let ranked = vec![chunk(&t1, "A", 9)];
    let embeddings = vec![embedding(vec![1_000_000, 0, 0])];
    let config = DistillConfig {
        budget: 3000,
        dedup_threshold: 850,
    };
    let result = distill_ranked(&ranked, &embeddings, &config);
    let start = handle_distill_result(&mut app, &result);
    assert!(start);
    assert!(matches!(app.phase, AppPhase::Streaming));
    let stats = app.messages.last().unwrap().stats.as_ref().unwrap();
    assert_eq!(stats.chunks_retrieved, 1);
    assert_eq!(stats.after_dedup, 1);

    // Tokens append to the open message; the end of the stream goes idle.
    handle_stream_event(&mut app, StreamEvent::Token("Hel".to_string()));
    handle_stream_event(&mut app, StreamEvent::Token("lo".to_string()));
    assert_eq!(app.messages.last().unwrap().content, "Hello");
    handle_stream_event(&mut app, StreamEvent::Done);
    assert!(matches!(app.phase, AppPhase::Idle));

    // An empty distillation logs a hint instead of streaming.
    app.phase = AppPhase::Distilling;
    let empty = empty_result();
    let start = handle_distill_result(&mut app, &empty);
    assert!(!start);
    assert!(matches!(app.phase, AppPhase::Idle));
    assert!(matches!(app.messages.last().unwrap().role, Role::System));

    // Errors are logged.
    handle_distill_error(&mut app, "backend unreachable");
    assert_eq!(
        app.messages.last().unwrap().content,
        "Distillation error: backend unreachable"
    );
    handle_stream_event(&mut app, StreamEvent::Error("boom".to_string()));
    assert_eq!(app.messages.last().unwrap().content, "LLM error: boom");
}
