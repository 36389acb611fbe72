use mindrush::code_blocks::{count_code_blocks, extract_first_code_text};
use mindrush::document::{EpubDocument, MarkedSection};
use mindrush::epub_read::{EpubAssembly, SectionState};
use mindrush::export::{
    check_translations_complete, clean_segment_translation, find_matching_section,
    markdown_export_content, render_epub_section, render_markdown,
};
use mindrush::markdown::parse_markdown_to_document;
use mindrush::pdf::{
    char_to_byte_idx, code_block_text, ends_sentence, group_spans_to_paragraphs, is_figure_caption,
    page_runs, pdf_incomplete_error, LineSpan, PageRun, PageSpan,
};

#[test]
fn markdown_heading_and_paragraph_become_segments() {
    let (doc, info) = parse_markdown_to_document("# Hello\n\nWorld\n", "a.md").unwrap();
    assert_eq!(doc.segments, vec!["Hello".to_string(), "World".to_string()]);
    assert_eq!(info.segment_count, 2);
    assert_eq!(info.filename, "a.md");
    assert_eq!(doc.marked_sections.len(), 1);
    assert_eq!(doc.marked_sections[0].spine_path, "root");
    assert_eq!(doc.marked_sections[0].marked_xhtml, "# \u{0}MD_0\u{0}\n\n\u{0}MD_1\u{0}\n\n");
    assert_eq!(doc.translations, vec![None, None]);
}

#[test]
fn markdown_inline_code_becomes_placeholder() {
    let (doc, _) = parse_markdown_to_document("Use `x` now", "b.md").unwrap();
    assert_eq!(doc.segments, vec!["Use `C0` now".to_string()]);
    assert_eq!(doc.code_spans, vec!["x".to_string()]);
}

#[test]
fn markdown_code_block_is_kept_verbatim() {
    let (doc, _) = parse_markdown_to_document("```rust\nlet a = 1;\n```\n", "c.md").unwrap();
    assert_eq!(doc.segments.len(), 0);
    assert_eq!(doc.marked_sections[0].marked_xhtml, "```rust\nlet a = 1;\n```\n");
}

#[test]
fn markdown_export_round_trip() {
    let (mut doc, _) = parse_markdown_to_document("# Hello\n\nUse `x` now\n", "d.md").unwrap();
    doc.translations = vec![Some("你好".to_string()), Some("现在用 `C0`".to_string())];
    let out = markdown_export_content(&doc).unwrap();
    assert_eq!(out, "# 你好\n\n现在用 `x`\n\n");
}

#[test]
fn markdown_export_without_sections_is_refused() {
    let doc = EpubDocument {
        original_path: String::new(),
        filename: String::new(),
        segments: vec![],
        translations: vec![],
        segment_meta: vec![],
        marked_sections: vec![],
        code_spans: vec![],
    };
    assert_eq!(markdown_export_content(&doc).unwrap_err(), "No marked content found in document");
}

#[test]
fn render_markdown_missing_index_gives_empty_text() {
    let t = vec![Some("x".to_string())];
    let segs = vec!["a".to_string()];
    let out = render_markdown("[\u{0}MD_5\u{0}]", &t, &segs, &vec![]);
    assert_eq!(out, "[]");
}

#[test]
fn render_markdown_unknown_code_span_keeps_placeholder() {
    let out = render_markdown("see `C3`", &vec![], &vec![], &vec!["a".to_string()]);
    assert_eq!(out, "see ``C3``");
}

#[test]
fn clean_translation_patterns() {
    assert_eq!(clean_segment_translation("Ensure -> 确保", "Ensure"), "确保");
    assert_eq!(clean_segment_translation("Ensure ->  确保", "Ensure"), " 确保");
    assert_eq!(clean_segment_translation("Ensure ->确保", "Ensure"), "确保");
    assert_eq!(clean_segment_translation("The  -> > 这个 ", "The"), "这个");
    assert_eq!(clean_segment_translation("确保", "Ensure"), "确保");
    assert_eq!(clean_segment_translation("Ensure", "Ensure"), "Ensure");
    assert_eq!(clean_segment_translation("Ensure --", "Ensure"), "Ensure --");
    assert_eq!(clean_segment_translation("", "Ensure"), "");
    assert_eq!(clean_segment_translation("abc", ""), "abc");
}

#[test]
fn incomplete_translations_are_refused() {
    let t = vec![Some("a".to_string()), None, None];
    let err = check_translations_complete(&t).unwrap_err();
    assert_eq!(
        err,
        "Translation incomplete: segment 1 is not translated. Click 'Translate File' to retry remaining segments."
    );
    assert!(check_translations_complete(&vec![Some("a".to_string())]).is_ok());
    assert!(check_translations_complete(&vec![]).is_ok());
}

#[test]
fn epub_section_markers_are_replaced() {
    let t = vec![Some("Bonjour".to_string()), Some("Monde".to_string())];
    let marked = "<p>\u{0}EPUB_0\u{0}</p><p>\u{0}EPUB_1\u{0}</p><p>\u{0}EPUB_7\u{0}</p>";
    assert_eq!(render_epub_section(marked, &t), "<p>Bonjour</p><p>Monde</p><p></p>");
}

#[test]
fn epub_marker_with_unparsable_index_names_segment_zero() {
    let t = vec![Some("zero".to_string())];
    let marked = "\u{0}EPUB_99999999999999999999999\u{0}";
    assert_eq!(render_epub_section(marked, &t), "zero");
}

#[test]
fn section_matching_by_suffix() {
    let sections = vec![
        MarkedSection {
            spine_path: "OPS/ch1.xhtml".to_string(),
            marked_xhtml: String::new(),
            segment_start: 0,
            segment_count: 0,
        },
        MarkedSection {
            spine_path: "ch2.xhtml".to_string(),
            marked_xhtml: String::new(),
            segment_start: 0,
            segment_count: 0,
        },
    ];
    assert_eq!(find_matching_section(&sections, "OPS/ch1.xhtml"), Some(0));
    assert_eq!(find_matching_section(&sections, "ch1.xhtml"), Some(0));
    assert_eq!(find_matching_section(&sections, "OEBPS/ch2.xhtml"), Some(1));
    assert_eq!(find_matching_section(&sections, "image.png"), None);
}

#[test]
fn section_state_numbers_segments_and_markers_alike() {
    let mut st = SectionState::new(5);
    assert!(st.open_translatable());
    st.add_text("  Hello ");
    st.add_text("world  ");
    assert_eq!(st.close_translatable(), Some("\u{0}EPUB_5\u{0}".to_string()));
    assert!(st.open_translatable());
    st.add_text("   ");
    assert_eq!(st.close_translatable(), None);
    st.enter_code();
    assert!(!st.open_translatable());
    st.add_text("ignored");
    st.leave_code();
    assert!(st.open_translatable());
    st.add_text("Second");
    assert_eq!(st.close_translatable(), Some("\u{0}EPUB_6\u{0}".to_string()));
    assert_eq!(st.segments, vec!["Hello world".to_string(), "Second".to_string()]);
    assert_eq!(st.marker_idx, 7);
}

#[test]
fn assembly_lays_out_sections() {
    let mut book = EpubAssembly::new();
    let mut st = SectionState::new(book.next_idx);
    st.open_translatable();
    st.add_text("a");
    let m0 = st.close_translatable().unwrap();
    book.add_section("ch1.xhtml".to_string(), format!("<p>{}</p>", m0), st);
    let mut st = SectionState::new(book.next_idx);
    st.open_translatable();
    st.add_text("b");
    let m1 = st.close_translatable().unwrap();
    assert_eq!(m1, "\u{0}EPUB_1\u{0}");
    book.add_section("ch2.xhtml".to_string(), format!("<p>{}</p>", m1), st);
    let (doc, info) = book.finish("/x/book.epub".to_string(), "book.epub".to_string());
    assert_eq!(doc.segments, vec!["a".to_string(), "b".to_string()]);
    assert_eq!(doc.marked_sections[1].segment_start, 1);
    assert_eq!(doc.marked_sections[1].segment_count, 1);
    assert_eq!(info.segment_count, 2);
    let t = vec![Some("A".to_string()), Some("B".to_string())];
    assert_eq!(render_epub_section(&doc.marked_sections[1].marked_xhtml, &t), "<p>B</p>");
}

#[test]
fn code_block_probes() {
    let html = "<p>x</p><pre><code class=\"r\">  let a;  </code></pre><code>b</code>";
    assert_eq!(count_code_blocks(html), 3);
    assert_eq!(extract_first_code_text(html), Some("let a;".to_string()));
    assert_eq!(extract_first_code_text("<pre>  fn f() </pre>"), Some("fn f()".to_string()));
    assert_eq!(extract_first_code_text("<code broken"), None);
    assert_eq!(extract_first_code_text("<code></code><pre>p</pre>"), Some("p".to_string()));
    assert_eq!(extract_first_code_text("plain"), None);
    assert_eq!(count_code_blocks("plain"), 0);
}

#[test]
fn byte_index_of_char_position() {
    let chars: Vec<char> = "aé中😀".chars().collect();
    assert_eq!(char_to_byte_idx(&chars, 0), 0);
    assert_eq!(char_to_byte_idx(&chars, 2), 3);
    assert_eq!(char_to_byte_idx(&chars, 3), 6);
    assert_eq!(char_to_byte_idx(&chars, 9), 10);
}

#[test]
fn figure_captions() {
    assert!(is_figure_caption("  图 3-1 结构"));
    assert!(is_figure_caption("See Figure 2"));
    assert!(!is_figure_caption("figure lower case"));
}

#[test]
fn pdf_incomplete_message() {
    assert_eq!(pdf_incomplete_error(4), "Translation incomplete: segment 4.");
}

#[test]
fn spans_group_into_paragraphs() {
    let spans = vec![
        LineSpan { text: "Hello ".to_string(), near_previous: false },
        LineSpan { text: "world".to_string(), near_previous: true },
        LineSpan { text: "   ".to_string(), near_previous: false },
        LineSpan { text: "Next".to_string(), near_previous: false },
        LineSpan { text: " line ".to_string(), near_previous: true },
    ];
    assert_eq!(
        group_spans_to_paragraphs(&spans),
        vec!["Hello world".to_string(), "Next line".to_string()]
    );
    assert_eq!(group_spans_to_paragraphs(&vec![]), Vec::<String>::new());
}

#[test]
fn sentence_ends() {
    assert!(ends_sentence("Done. "));
    assert!(ends_sentence("完成。"));
    assert!(!ends_sentence("and so"));
    assert!(!ends_sentence("   "));
}

#[test]
fn non_ascii_digit_marker_is_seen_but_not_parsed() {
    // U+0663 is a decimal digit for `\d`, so the marker is found; its index
    // does not parse as a `usize`.
    let err = mindrush::batch::parse_batch_response("[SEG_\u{663}]\nx\n", 1).unwrap_err();
    assert_eq!(err, "Invalid segment index in response: [SEG_\u{663}]");
    let t = vec![Some("zero".to_string())];
    assert_eq!(render_epub_section("<\u{0}EPUB_\u{663}\u{0}>", &t), "<zero>");
}

#[test]
fn markdown_lists_and_links() {
    let (doc, _) = parse_markdown_to_document("- one\n- two\n\n1. a\n2. b\n", "l.md").unwrap();
    assert_eq!(doc.segments, vec!["one".to_string(), "two".to_string(), "a".to_string(), "b".to_string()]);
    let out = &doc.marked_sections[0].marked_xhtml;
    assert!(out.starts_with("- \u{0}MD_0\u{0}"));
    assert!(out.contains("- \u{0}MD_1\u{0}"));
    assert!(out.contains("1. \u{0}MD_2\u{0}"));
    assert!(out.contains("2. \u{0}MD_3\u{0}"));
    let (doc, _) = parse_markdown_to_document("See [docs](http://x.y) now", "k.md").unwrap();
    assert_eq!(doc.segments, vec!["See".to_string(), "docs".to_string(), "now".to_string()]);
    assert_eq!(
        doc.marked_sections[0].marked_xhtml,
        "\u{0}MD_0\u{0}[\u{0}MD_1\u{0}](http://x.y)\u{0}MD_2\u{0}\n\n"
    );
}

#[test]
fn markdown_round_trip_puts_translations_in_marker_order() {
    let (mut doc, info) = parse_markdown_to_document("# T\n\nA\n\n> B\n", "r.md").unwrap();
    assert_eq!(info.segment_count, 3);
    doc.translations = vec![Some("t".to_string()), Some("a".to_string()), Some("b".to_string())];
    let out = markdown_export_content(&doc).unwrap();
    assert_eq!(out, "# t\n\na\n\n> b\n\n\n");
}

fn span(text: &str, monospace: bool) -> PageSpan {
    PageSpan { text: text.to_string(), monospace }
}

#[test]
fn page_spans_split_into_text_and_code_runs() {
    let spans = vec![
        span("Intro", false),
        span("more", false),
        span("   ", true),
        span("let a = 1;", true),
        span("let b = 2;", true),
        span("After", false),
    ];
    let runs = page_runs(&spans);
    assert_eq!(runs.len(), 3);
    assert!(matches!(&runs[0], PageRun::Text(v) if *v == vec![0, 1]));
    match &runs[1] {
        PageRun::Code(v) => {
            assert_eq!(*v, vec![3, 4]);
            assert_eq!(code_block_text(&spans, v), "let a = 1;\nlet b = 2;");
        }
        _ => panic!("expected a code run"),
    }
    assert!(matches!(&runs[2], PageRun::Text(v) if *v == vec![5]));
    let trailing = vec![span("x", false), span("fn f()", true)];
    let runs = page_runs(&trailing);
    assert!(matches!(&runs[1], PageRun::Code(v) if *v == vec![1]));
    assert!(page_runs(&vec![span(" ", false)]).is_empty());
}
