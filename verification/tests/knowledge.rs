use worksmith::knowledge::{
    chunk_text, fts_query, hard_split, index_step, is_stale, IndexStats, IndexStep, CHUNK_CHARS,
    MAX_FILE_BYTES,
};
use worksmith::json::Json;
use worksmith::tools::recall::{knowledge_call, show_chunks, show_index, KnowledgeCall};

#[test]
fn chunking_splits_on_paragraphs_and_caps_size() {
    let text = "para one\n\npara two\n\n".to_string() + &"x".repeat(CHUNK_CHARS * 3);
    let chunks = chunk_text(&text);
    assert!(chunks.len() > 1, "a long document should chunk");
    assert!(chunks.iter().all(|c| !c.trim().is_empty()), "no empty chunks");
    assert!(chunks[0].contains("para one"));
}

#[test]
fn fts_query_is_punctuation_safe() {
    // Bare punctuation would otherwise be FTS5 syntax and error the query.
    assert_eq!(fts_query("a (b) c-d"), "\"a\" OR \"b\" OR \"c-d\"");
    assert_eq!(fts_query("   "), "");
}

#[test]
fn ordinary_paragraphs_are_packed_into_ordinary_chunks() {
    let text = vec!["word ".repeat(100); 7].join("\n\n");
    let chunks = chunk_text(&text);
    assert_eq!(chunks.len(), 4);
    assert!(chunks.iter().all(|c| c.chars().count() <= 2 * CHUNK_CHARS));
    assert_eq!(chunks.iter().map(|c| c.matches("word").count()).sum::<usize>(), 700);
}

#[test]
fn a_long_paragraph_is_broken_on_its_lines() {
    assert_eq!(hard_split("aa\nbb\ncc", 4), vec!["aa\n".to_string(), "bb\n".into(), "cc\n".into()]);
    assert_eq!(hard_split("aa\nb", 4), vec!["aa\nb\n".to_string()]);
    assert!(hard_split("  \n ", 4).is_empty());
}

#[test]
fn only_what_changed_and_is_worth_it_is_read_again() {
    assert_eq!(index_step("rs", 10, 5, None), IndexStep::Read);
    assert_eq!(index_step("rs", 10, 5, Some(4)), IndexStep::Read);
    assert_eq!(index_step("rs", 10, 5, Some(5)), IndexStep::Unchanged);
    assert_eq!(index_step("lock", 10, 5, None), IndexStep::Skip);
    assert_eq!(index_step("rs", MAX_FILE_BYTES + 1, 5, None), IndexStep::Skip);
    assert!(is_stale(None, 100, 60, 7));
    assert!(is_stale(Some(100), 100, 60, 0));
    assert!(!is_stale(Some(40), 100, 60, 7));
    assert!(is_stale(Some(39), 100, 60, 7));
}

#[test]
fn the_tool_says_what_it_needs() {
    let call = |s: &str| knowledge_call(&Json::parse(s).unwrap());
    assert!(matches!(call(r#"{"action": "index"}"#), KnowledgeCall::Index));
    match call(r#"{"query": "wal", "limit": 99}"#) {
        KnowledgeCall::Search { query, limit } => assert_eq!((query.as_str(), limit), ("wal", 20)),
        other => panic!("{other:?}"),
    }
    match call("{}") {
        KnowledgeCall::Refused(o) => assert_eq!(o.content, "missing required argument: query"),
        other => panic!("{other:?}"),
    }
    match call(r#"{"action": "burn"}"#) {
        KnowledgeCall::Refused(o) => {
            assert!(o.is_error);
            assert_eq!(o.content, "unknown action `burn` (search|index)");
        }
        other => panic!("{other:?}"),
    }
    let stats = IndexStats { files: 2, chunks: 9, skipped_unchanged: 1 };
    assert_eq!(
        show_index(stats, 3).content,
        "indexed 2 file(s) into 9 chunk(s); 1 unchanged, 3 stale source(s) removed"
    );
    assert_eq!(
        show_chunks(&vec![]).content,
        "(no matches in the project's own documents or source)"
    );
}

#[test]
fn a_line_that_is_too_long_by_itself_is_cut() {
    let chunks = chunk_text(&"x".repeat(CHUNK_CHARS * 3));
    assert_eq!(chunks.len(), 3);
    assert!(chunks.iter().all(|c| c.chars().count() <= CHUNK_CHARS * 2), "the size is capped");
    assert_eq!(chunks.concat().replace('\n', ""), "x".repeat(CHUNK_CHARS * 3), "nothing is lost");
    // Characters are counted, and none is cut in half.
    let wide = chunk_text(&"é".repeat(CHUNK_CHARS * 2 + 1));
    assert_eq!(wide.len(), 3);
    assert_eq!(wide[2], "é\n");
}

#[test]
fn no_chunk_is_blank_however_the_text_is_spaced() {
    let blank = " ".repeat(CHUNK_CHARS);
    let text = format!("{blank}\n{blank}\nword\n{blank}\n{}", "y".repeat(CHUNK_CHARS));
    let chunks = chunk_text(&text);
    assert!(chunks.iter().all(|c| !c.trim().is_empty()), "{chunks:?}");
    assert!(chunks.iter().any(|c| c.contains("word")));
}

#[test]
fn a_quote_inside_a_word_does_not_end_its_term() {
    assert_eq!(fts_query("a\"b"), "\"a\"\"b\"");
    assert_eq!(fts_query("\"say \"it\"\""), "\"say\" OR \"it\"");
    assert_eq!(fts_query("a\"b c\"\"d").matches('"').count() % 2, 0);
}
