use mindrush::document::{EpubDocument, SegmentMeta, SegmentType};
use mindrush::epub_job::{effective_system_prompt, translation_needed, EpubTranslationJob, JobStep, ReplyStep};
use mindrush::language::{parse_language_pair, Language};

fn meta(keep: bool) -> SegmentMeta {
    SegmentMeta {
        segment_type: if keep { SegmentType::Code } else { SegmentType::Paragraph },
        keep_original: keep,
        font_size_bits: None,
        is_monospace: keep,
        indent_bits: None,
        is_italic: false,
    }
}

fn strings(v: &[&str]) -> Vec<String> {
    v.iter().map(|s| s.to_string()).collect()
}

#[test]
fn job_translates_in_one_batch() {
    let segs = strings(&["Hello", "code()", "World"]);
    let metas = vec![meta(false), meta(true), meta(false)];
    let mut job = EpubTranslationJob::new(segs, vec![None, None, None], &metas, Language::English, Language::French)
        .expect("work to do");
    assert_eq!(job.results[1], Some("code()".to_string()));
    let prompt = match job.next_step() {
        JobStep::Request { prompt, progress } => {
            assert_eq!(progress.current_segment, 1);
            assert_eq!(progress.total_segments, 3);
            assert_eq!(progress.llm_attempts, 0);
            prompt
        }
        _ => panic!("expected a request"),
    };
    assert!(prompt.contains("[SEG_0]\nHello\n"));
    assert!(prompt.contains("[SEG_2]\nWorld\n"));
    let step = job.on_reply(Some("[SEG_0]\nBonjour\n[SEG_2]\nMonde".to_string()));
    assert!(matches!(step, ReplyStep::Stored));
    assert_eq!(job.results, vec![Some("Bonjour".to_string()), Some("code()".to_string()), Some("Monde".to_string())]);
    match job.next_step() {
        JobStep::Finished { progress, outcome } => {
            assert_eq!(progress.current_segment, 3);
            assert_eq!(progress.llm_attempts, 1);
            assert_eq!(progress.llm_successes, 1);
            assert!(outcome.is_ok());
        }
        _ => panic!("expected the end"),
    }
}

#[test]
fn job_retries_then_fails_single_segment() {
    let mut job = EpubTranslationJob::new(strings(&["Only"]), vec![None], &[meta(false)], Language::English, Language::German)
        .unwrap();
    let prompt = match job.next_step() {
        JobStep::Request { prompt, .. } => prompt,
        _ => panic!("expected a request"),
    };
    match job.on_reply(Some("garbage".to_string())) {
        ReplyStep::Retry { prompt: retry } => {
            assert!(retry.starts_with("CRITICAL: You must preserve ALL [SEG_N] markers"));
            assert!(retry.ends_with(&prompt));
        }
        _ => panic!("expected a retry"),
    }
    match job.on_reply(None) {
        ReplyStep::SegmentFailed { segment, llm_error } => {
            assert_eq!(segment, 0);
            assert!(llm_error);
        }
        _ => panic!("expected a failure"),
    }
    match job.next_step() {
        JobStep::Finished { outcome, progress } => {
            assert_eq!(progress.llm_attempts, 2);
            assert_eq!(
                outcome.unwrap_err(),
                "0 of 1 segments translated. Failed segments: [0]. Click 'Translate File' again to retry, or reduce BATCH_SIZE."
            );
        }
        _ => panic!("expected the end"),
    }
}

#[test]
fn job_splits_failed_batch() {
    let mut job = EpubTranslationJob::new(strings(&["a", "b"]), vec![None, None], &[meta(false), meta(false)], Language::English, Language::German)
        .unwrap();
    assert!(matches!(job.next_step(), JobStep::Request { .. }));
    assert!(matches!(job.on_reply(None), ReplyStep::Retry { .. }));
    assert!(matches!(job.on_reply(Some("[SEG_0] x".to_string())), ReplyStep::Resplit));
    match job.next_step() {
        JobStep::Request { prompt, .. } => {
            assert!(prompt.contains("[SEG_0]\na\n"));
            assert!(!prompt.contains("[SEG_1]"));
        }
        _ => panic!("expected the first half"),
    }
    assert!(matches!(job.on_reply(Some("[SEG_0] A".to_string())), ReplyStep::Stored));
    assert!(matches!(job.next_step(), JobStep::Request { .. }));
    assert!(matches!(job.on_reply(Some("[SEG_1] B".to_string())), ReplyStep::Stored));
    assert_eq!(job.results, vec![Some("A".to_string()), Some("B".to_string())]);
}

#[test]
fn large_batches_are_split_before_sending() {
    let segs: Vec<String> = (0..150).map(|i| format!("s{}", i)).collect();
    let metas: Vec<SegmentMeta> = (0..150).map(|_| meta(false)).collect();
    let mut job = EpubTranslationJob::new(segs, vec![None; 150], &metas, Language::English, Language::German).unwrap();
    assert!(matches!(job.next_step(), JobStep::Resplit));
    match job.next_step() {
        JobStep::Request { prompt, .. } => {
            assert!(prompt.starts_with("Translate the following 100 segments"));
        }
        _ => panic!("expected a request"),
    }
}

#[test]
fn nothing_to_translate() {
    assert!(EpubTranslationJob::new(strings(&["a"]), vec![Some("x".to_string())], &[meta(false)], Language::English, Language::German).is_none());
    assert_eq!(translation_needed(&None).unwrap_err(), "No EPUB loaded. Please load an EPUB first.");
    let doc = EpubDocument::for_segments(strings(&["a"]));
    assert_eq!(translation_needed(&Some(doc)), Ok(true));
}

#[test]
fn glossary_goes_after_system_prompt() {
    assert_eq!(effective_system_prompt("SYS", "  "), "SYS");
    assert_eq!(
        effective_system_prompt("SYS", "cat=chat"),
        "SYS\n\n[Terminology Glossary - follow these term mappings precisely]:\ncat=chat"
    );
}

#[test]
fn languages() {
    assert_eq!(Language::from_code("ZH-Hans"), Some(Language::ChineseSimplified));
    assert_eq!(Language::from_code("cht"), Some(Language::ChineseTraditional));
    assert_eq!(Language::from_code("klingon"), None);
    assert_eq!(Language::Japanese.to_ietf_tag(), "ja");
    assert_eq!(Language::Unknown.to_ietf_tag(), "und");
    assert_eq!(Language::detect_language("こんにちは世界"), Language::Japanese);
    assert_eq!(Language::detect_language("안녕하세요"), Language::Korean);
    assert_eq!(Language::detect_language("你好"), Language::ChineseSimplified);
    assert_eq!(Language::detect_language("Grüße"), Language::English);
    assert_eq!(Language::detect_language("1234 !!"), Language::Unknown);
    assert_eq!(parse_language_pair("en", "de"), Ok((Language::English, Language::German)));
    assert_eq!(parse_language_pair("en", "??"), Err("Invalid target language".to_string()));
}

#[test]
fn language_codes_in_any_case() {
    let all = [
        Language::ChineseSimplified,
        Language::ChineseTraditional,
        Language::Japanese,
        Language::Korean,
        Language::English,
        Language::German,
        Language::French,
        Language::Spanish,
        Language::Russian,
        Language::Portuguese,
        Language::Italian,
        Language::Dutch,
        Language::Polish,
        Language::Czech,
        Language::Hungarian,
    ];
    for l in all {
        let tag = l.to_ietf_tag();
        assert_eq!(Language::from_code(tag), Some(l));
        assert_eq!(Language::from_code(&tag.to_ascii_uppercase()), Some(l));
    }
    assert_eq!(Language::from_code("EnG"), Some(Language::English));
    assert_eq!(Language::from_code("und"), None);
}
