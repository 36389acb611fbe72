use mindrush::batch::{build_batch_prompt, build_retry_prompt, parse_batch_response};
use mindrush::language::Language;

#[test]
fn test_parse_happy_path() {
    let input = "[SEG_0]\n你好\n\n[SEG_1]\n世界\n\n[SEG_2]\n测试\n";
    let result = parse_batch_response(input, 3);
    let translations = result.expect("happy path should succeed");
    assert_eq!(translations.len(), 3);
    assert_eq!(translations[0], "你好");
    assert_eq!(translations[1], "世界");
    assert_eq!(translations[2], "测试");
}

#[test]
fn test_parse_single_segment() {
    let input = "[SEG_0]\nhello\n";
    let result = parse_batch_response(input, 1);
    let translations = result.expect("single segment should succeed");
    assert_eq!(translations, vec!["hello"]);
}

#[test]
fn test_parse_wrong_count() {
    let input = "[SEG_0]\nonly one\n";
    let result = parse_batch_response(input, 3);
    let err = result.expect_err("wrong count should fail");
    assert!(err.contains("Expected 3"), "error should mention Expected 3, got: {}", err);
}

#[test]
fn test_parse_malformed() {
    let input = "no markers here at all";
    let result = parse_batch_response(input, 1);
    assert!(result.is_err(), "malformed input should fail");
}

#[test]
fn test_parse_whitespace() {
    let input = "[SEG_0]  \n  bonjour  \n\n[SEG_1]\t\nmonde  \n";
    let result = parse_batch_response(input, 2);
    let translations = result.expect("whitespace input should succeed");
    assert_eq!(translations[0], "bonjour");
    assert_eq!(translations[1], "monde");
}

#[test]
fn test_parse_empty_segment() {
    let input = "[SEG_0]\nhello\n\n[SEG_1]\n\n[SEG_2]\nworld\n";
    let result = parse_batch_response(input, 3);
    let translations = result.expect("empty segment should succeed");
    assert_eq!(translations[1], "");
}

#[test]
fn parse_sorts_by_segment_index() {
    let input = "[SEG_7]\nseven\n[SEG_2]\ntwo\n[SEG_5]\nfive";
    let translations = parse_batch_response(input, 3).unwrap();
    assert_eq!(translations, vec!["two", "five", "seven"]);
}

#[test]
fn parse_reports_found_count() {
    let err = parse_batch_response("[SEG_0] a [SEG_1] b", 3).unwrap_err();
    assert_eq!(err, "Expected 3 translations in batch response, but found 2");
    let err = parse_batch_response("nothing", 2).unwrap_err();
    assert_eq!(err, "Expected 2 translations in batch response, but found 0");
}

#[test]
fn parse_rejects_index_past_usize() {
    let input = "[SEG_99999999999999999999999]\nx\n";
    let err = parse_batch_response(input, 1).unwrap_err();
    assert_eq!(err, "Invalid segment index in response: [SEG_99999999999999999999999]");
}

#[test]
fn parse_ignores_text_before_first_marker() {
    let translations = parse_batch_response("Sure! Here you go:\n[SEG_3]\nok", 1).unwrap();
    assert_eq!(translations, vec!["ok"]);
}

#[test]
fn batch_prompt_lists_segments_with_their_indices() {
    let segs: Vec<(usize, &str)> = vec![(4, "Hello"), (9, "World")];
    let p = build_batch_prompt(&segs, &Language::English, &Language::ChineseSimplified);
    let expected = "Translate the following 2 segments from en to zh-Hans.\n\
Each segment is wrapped in [SEG_N] markers.\n\
In your response, preserve the [SEG_N] markers exactly.\n\
Place each translation immediately after its marker.\n\
DO NOT translate code, variable names, or technical identifiers.\n\
\n[SEG_4]\nHello\n\n[SEG_9]\nWorld\n";
    assert_eq!(p, expected);
}

#[test]
fn retry_prompt_prepends_instruction() {
    let p = build_retry_prompt("ORIGINAL");
    assert_eq!(
        p,
        "CRITICAL: You must preserve ALL [SEG_N] markers exactly as shown in your response. \
Do not skip, merge, or modify any markers.\n\nORIGINAL"
    );
}

#[test]
fn prompt_then_parse_round_trip() {
    let segs: Vec<(usize, &str)> = vec![(0, "a"), (1, "b")];
    let p = build_batch_prompt(&segs, &Language::English, &Language::French);
    let body = &p[p.find("[SEG_0]").unwrap()..];
    let parsed = parse_batch_response(body, 2).unwrap();
    assert_eq!(parsed, vec!["a", "b"]);
}

#[test]
fn reply_with_markers_parses_to_trimmed_texts_by_index() {
    let reply = "Here you go.\n[SEG_2]\n  deux \n[SEG_0]un[SEG_1]\ttrois\n";
    let parsed = parse_batch_response(reply, 3).unwrap();
    assert_eq!(parsed, vec!["un", "trois", "deux"]);
}

#[test]
fn reply_with_brackets_but_no_markers_in_texts_parses() {
    let reply = "Intro [note] [SEG_x]\n[SEG_0] Hallo [x] \n[SEG_1] Welt [SEG_]";
    let parsed = parse_batch_response(reply, 2).unwrap();
    assert_eq!(parsed, vec!["Hallo [x]", "Welt [SEG_]"]);
}

#[test]
fn whole_prompt_parses_back_to_trimmed_texts() {
    let segs: Vec<(usize, &str)> = vec![(0, "a [b]"), (3, " c \n"), (3, "d")];
    let p = build_batch_prompt(&segs, &Language::German, &Language::Japanese);
    let parsed = parse_batch_response(&p, 3).unwrap();
    assert_eq!(parsed, vec!["a [b]", "c", "d"]);
}
