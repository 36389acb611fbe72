use mindrush::cache_item::{CacheItem, TranslationStatus};
use mindrush::history::{
    add_history, batch_export_name, chrono_lite_timestamp, clear_history, clock_time, config_snapshot,
    export_batch_text, export_file_name, file_results_name_at, get_history, history_export_name,
    loaded_glossary, record_history, BatchResultItem, HistoryItem,
};
use mindrush::language::Language;
use mindrush::memory_cache::{CacheService, MemoryCache};
use mindrush::registry::default_llm_configs;
use mindrush::task::{LanguagePair, Task, TaskMetadata, TaskStatus};
use mindrush::text_processor::{contains_placeholder, TextProcessor};
use mindrush::translate::{
    cached_translation, default_system_prompt, greet, store_translation, translation_messages,
};
use mindrush::translation_result::TranslationResult;
use mindrush::llm::MessageRole;

fn item(n: u32) -> HistoryItem {
    HistoryItem {
        original: format!("o{}", n),
        translated: format!("t{}", n),
        source_lang: "en".to_string(),
        target_lang: "fr".to_string(),
        tokens: n,
        timestamp: "00:00:00".to_string(),
    }
}

#[test]
fn history_keeps_last_items() {
    let mut h: Vec<HistoryItem> = Vec::new();
    for n in 0..1000u32 {
        record_history(&mut h, item(n));
    }
    assert_eq!(h.len(), 1000);
    record_history(&mut h, item(1000));
    assert_eq!(h.len(), 901);
    assert_eq!(h[0].tokens, 100);
    assert_eq!(h[900].tokens, 1000);
    let copy = get_history(&h);
    assert_eq!(copy.len(), 901);
    assert_eq!(copy[5].original, "o105");
    clear_history(&mut h);
    assert!(h.is_empty());
}

#[test]
fn add_history_stamps_time_of_day() {
    let mut h: Vec<HistoryItem> = Vec::new();
    add_history(&mut h, "a".to_string(), "b".to_string(), "en".to_string(), "de".to_string(), 9);
    assert_eq!(h.len(), 1);
    assert_eq!(h[0].translated, "b");
    let ts = &h[0].timestamp;
    assert_eq!(ts.len(), 8);
    assert_eq!(&ts[2..3], ":");
    assert_eq!(chrono_lite_timestamp().len(), 8);
}

#[test]
fn clock_formatting() {
    assert_eq!(clock_time(0), "00:00:00");
    assert_eq!(clock_time(3661), "01:01:01");
    assert_eq!(clock_time(86399), "23:59:59");
    assert_eq!(clock_time(86400 + 45296), "12:34:56");
}

#[test]
fn batch_text_and_names() {
    let results = vec![
        BatchResultItem { original: "a".to_string(), translated: "b".to_string(), source_lang: String::new(), target_lang: String::new(), tokens: 0 },
        BatchResultItem { original: "c".to_string(), translated: "d".to_string(), source_lang: String::new(), target_lang: String::new(), tokens: 0 },
    ];
    assert_eq!(export_batch_text(&results), "[Original]\na\n[Translated]\nb\n---[Original]\nc\n[Translated]\nd\n---");
    assert_eq!(export_batch_text(&vec![]), "");
    assert_eq!(file_results_name_at("book.txt", 5), "translated_book.txt");
    assert_eq!(file_results_name_at("", 17), "mindrush_translated_17.txt");
    assert_eq!(export_file_name("x.md"), "translated_x.md");
    assert!(export_file_name("").starts_with("mindrush_translated_"));
    assert!(batch_export_name().starts_with("mindrush_batch_"));
    assert!(history_export_name().ends_with(".json"));
}

#[test]
fn glossary_fallback() {
    assert_eq!(loaded_glossary(String::new(), Some("g".to_string())), "g");
    assert_eq!(loaded_glossary("own".to_string(), Some("g".to_string())), "own");
    assert_eq!(loaded_glossary(String::new(), None), "");
    let configs = default_llm_configs();
    let snap = config_snapshot(&configs, 0, "sys", "gl");
    assert_eq!(snap.system_prompt, "sys");
    assert_eq!(snap.llm_configs.len(), 1);
    assert_eq!(snap.active_llm_index, 0);
}

#[test]
fn cache_item_basics() {
    assert_eq!(CacheItem::compute_hash("hello"), "2cf24dba5fb0a30e26e83b2ac5b9e29e1b161e5c1fa7425e73043362938b9824");
    assert_eq!(CacheItem::compute_hash(""), "e3b0c44298fc1c149afbf4c8996fb92427ae41e4649b934ca495991b7852b855");
    let mut it = CacheItem::new("hello".to_string(), 3);
    assert_eq!(it.source_hash, CacheItem::compute_hash("hello"));
    assert_eq!(it.text_index, 3);
    assert_eq!(it.final_text(), "hello");
    assert!(!it.is_translated());
    it.translated_text = "salut".to_string();
    it.translation_status = TranslationStatus::Polished;
    assert_eq!(it.final_text(), "salut");
    assert!(it.is_translated());
    it.translation_status = TranslationStatus::Excluded;
    assert!(it.is_excluded());
    assert!(!it.is_translated());
    assert_eq!(TranslationStatus::default(), TranslationStatus::Untranslated);
    assert_eq!(it.created_at, it.updated_at);
}

#[test]
fn memory_cache_read_after_write() {
    let mut c = MemoryCache::new();
    assert!(c.is_empty());
    c.set("k".to_string(), CacheItem::new("one".to_string(), 0));
    c.set("j".to_string(), CacheItem::new("two".to_string(), 1));
    c.set("k".to_string(), CacheItem::new("three".to_string(), 2));
    assert_eq!(c.len(), 2);
    assert_eq!(c.get("k").unwrap().source_text, "three");
    assert_eq!(c.get("j").unwrap().source_text, "two");
    assert!(c.get("x").is_none());
    c.remove("k");
    assert!(c.get("k").is_none());
    assert_eq!(c.len(), 1);
    c.clear();
    assert!(c.is_empty());
    assert_eq!(c.counts(), (0, 0));
    assert_eq!(MemoryCache::with_capacity(4).counts(), (0, 0));
}

#[test]
fn translate_from_cache_after_store() {
    let mut c = MemoryCache::new();
    assert!(cached_translation(&c, "hello").is_none());
    let r = TranslationResult::new("bonjour".to_string(), 3, 4, "gpt".to_string());
    store_translation(&mut c, "hello".to_string(), &r);
    let hit = cached_translation(&c, "hello").unwrap();
    assert_eq!(hit.translated_text, "bonjour");
    assert_eq!(hit.model, "gpt");
    assert_eq!(hit.prompt_tokens, 0);
    let stored = c.get(&CacheItem::compute_hash("hello")).unwrap();
    assert_eq!(stored.tokens_used, 7);
    assert_eq!(stored.translation_status, TranslationStatus::Translated);
}

#[test]
fn untranslated_cache_item_is_not_served() {
    let mut c = MemoryCache::new();
    c.set(CacheItem::compute_hash("t"), CacheItem::new("t".to_string(), 0));
    assert!(cached_translation(&c, "t").is_none());
}

#[test]
fn request_messages() {
    let m = translation_messages("Hi", "en", "ZH-CN", Some("你好".to_string())).unwrap();
    assert_eq!(m.len(), 2);
    assert_eq!(m[0].role, MessageRole::Assistant);
    assert_eq!(m[0].content, "[Previous translation]:\n你好");
    assert_eq!(m[1].role, MessageRole::User);
    assert_eq!(m[1].content, "Translate the following from en to zh-Hans:\n\nHi");
    let m = translation_messages("Hi", "ja", "ko", None).unwrap();
    assert_eq!(m.len(), 1);
    assert_eq!(translation_messages("Hi", "xx", "en", None).unwrap_err(), "Invalid source language");
    assert_eq!(translation_messages("Hi", "en", "yy", None).unwrap_err(), "Invalid target language");
}

#[test]
fn fixed_texts() {
    assert_eq!(default_system_prompt(), "You are a professional translator. Translate the following text accurately.");
    assert_eq!(greet("Ann"), "Hello, Ann! MindRush is working.");
}

#[test]
fn text_processor_drops_zero_width() {
    let mut p = TextProcessor::new();
    let pre = p.preprocess("a\u{200B}b\u{FEFF}c\u{200C}\u{200D}");
    assert_eq!(pre, "abc");
    assert_eq!(p.postprocess(&pre), "abc");
    assert!(contains_placeholder("x [placeholder:ab_9] y"));
    assert!(!contains_placeholder("x [placeholder:] y"));
    assert!(!contains_placeholder("[placeholder:a-b]"));
    let mut d = TextProcessor::default();
    assert_eq!(d.postprocess("keep"), "keep");
}

#[test]
fn task_lifecycle() {
    let pair = LanguagePair { source: Language::English, target: Language::German };
    let t = Task::new("Hello".to_string(), pair);
    assert!(matches!(t.status, TaskStatus::Pending));
    assert_eq!(t.created_at, t.updated_at);
    let mut meta = TaskMetadata::default();
    meta.line_number = Some(4);
    let mut t = t.with_metadata(meta);
    assert_eq!(t.metadata.line_number, Some(4));
    t.mark_translated("Hallo".to_string());
    assert!(matches!(t.status, TaskStatus::Translated));
    assert_eq!(t.translated_text, Some("Hallo".to_string()));
    t.mark_failed("boom".to_string());
    assert!(matches!(t.status, TaskStatus::Failed(ref e) if e == "boom"));
}

#[test]
fn translation_result_totals() {
    let r = TranslationResult::new("x".to_string(), 10, 32, "m".to_string());
    assert_eq!(r.total_tokens(), 42);
    assert_eq!(r.think_content, None);
    assert_eq!(r.duplicate().model, "m");
}

#[test]
fn text_processor_takes_out_and_puts_back_placeholders() {
    let mut p = TextProcessor::new();
    let pre = p.preprocess("a [placeholder:x] b [placeholder:y_2]");
    assert_eq!(pre, "a [placeholder:ph_0] b [placeholder:ph_1]");
    assert_eq!(p.postprocess("A [placeholder:ph_1] B [placeholder:ph_0]"), "A [placeholder:y_2] B [placeholder:x]");
    assert_eq!(p.postprocess("[placeholder:ph_0]"), "[placeholder:ph_0]");

    let text = "[placeholder:ph_1] and [place\u{200B}holder:k] [placeholder:]";
    let pre = p.preprocess(text);
    assert_eq!(pre, "[placeholder:ph_0] and [placeholder:ph_1] [placeholder:]");
    assert_eq!(p.postprocess(&pre), "[placeholder:ph_1] and [placeholder:k] [placeholder:]");

    p.preprocess("[placeholder:first]");
    let pre = p.preprocess("[placeholder:second]");
    assert_eq!(pre, "[placeholder:ph_0]");
    assert_eq!(p.postprocess(&pre), "[placeholder:second]");
}
