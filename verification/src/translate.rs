//! The decisions of a single-text translation: serving it from the cache,
//! the messages of the request, and what is cached once the reply is in.

use vstd::prelude::*;
use crate::text::{string_from, push_str};
use crate::language::{Language, language_of_code, lowercase, ietf_tag, parse_language_pair};
use crate::llm::{Message, MessageRole};
use crate::cache_item::{CacheItem, CacheItemView, TranslationStatus, text_hash};
use crate::memory_cache::CacheService;
use crate::translation_result::{TranslationResult, TranslationResultView};

verus! {

/// The view of an optional result.
pub open spec fn opt_result_view(o: Option<TranslationResult>) -> Option<TranslationResultView> {
    match o {
        Some(r) => Some(r@),
        None => None,
    }
}

/// Whether a cached item holds a translation.
pub open spec fn holds_translation(item: CacheItemView) -> bool {
    item.translation_status == TranslationStatus::Translated || item.translation_status
        == TranslationStatus::Polished
}

/// What the cache answers for `text`: the translation it holds under the
/// text's hash, with no tokens counted, if it holds one.
pub open spec fn cached_view(entries: Map<Seq<char>, CacheItemView>, text: Seq<char>) -> Option<
    TranslationResultView,
> {
    let k = text_hash(text);
    if entries.contains_key(k) && holds_translation(entries[k]) {
        Some(
            TranslationResultView {
                translated_text: entries[k].translated_text,
                think_content: None,
                prompt_tokens: 0,
                completion_tokens: 0,
                model: entries[k].model,
                finish_reason: None,
            },
        )
    } else {
        None
    }
}

/// The translation of `text` that the cache can serve, if any.
pub fn cached_translation<C: CacheService>(cache: &C, text: &str) -> (r: Option<TranslationResult>)
    ensures
        opt_result_view(r) == cached_view(cache.entries(), text@),
{
    let key = CacheItem::compute_hash(text);
    match cache.get(key.as_str()) {
        Some(item) => {
            if item.is_translated() {
                Some(
                    TranslationResult {
                        translated_text: item.translated_text,
                        think_content: None,
                        prompt_tokens: 0,
                        completion_tokens: 0,
                        model: item.model,
                        finish_reason: None,
                    },
                )
            } else {
                None
            }
        },
        None => None,
    }
}

/// The request for a translation of `text` from `source` to `target`.
pub open spec fn user_request(source: Language, target: Language, text: Seq<char>) -> Seq<char> {
    "Translate the following from "@ + ietf_tag(source) + " to "@ + ietf_tag(target) + ":\n\n"@
        + text
}

/// The message that hands the model its previous translation.
pub open spec fn previous_note(prev: Seq<char>) -> Seq<char> {
    "[Previous translation]:\n"@ + prev
}

/// The messages of a translation request: the previous translation, where
/// there is one, as the assistant's, then the request as the user's.
/// Unknown language codes are refused.
pub fn translation_messages(
    text: &str,
    source_lang: &str,
    target_lang: &str,
    previous_text: Option<String>,
) -> (r: Result<Vec<Message>, String>)
    ensures
        language_of_code(lowercase(source_lang@)) is None ==> r is Err && r->Err_0@
            == "Invalid source language"@,
        language_of_code(lowercase(source_lang@)) is Some && language_of_code(
            lowercase(target_lang@),
        ) is None ==> r is Err && r->Err_0@ == "Invalid target language"@,
        language_of_code(lowercase(source_lang@)) is Some && language_of_code(
            lowercase(target_lang@),
        ) is Some ==> {
            let s = language_of_code(lowercase(source_lang@))->Some_0;
            let t = language_of_code(lowercase(target_lang@))->Some_0;
            let n = if previous_text is Some {
                1int
            } else {
                0int
            };
            &&& r is Ok
            &&& r->Ok_0@.len() == n + 1
            &&& previous_text matches Some(p) ==> r->Ok_0@[0].role == MessageRole::Assistant
                && r->Ok_0@[0].content@ == previous_note(p@)
            &&& r->Ok_0@[n].role == MessageRole::User
            &&& r->Ok_0@[n].content@ == user_request(s, t, text@)
        },
{
    let (source, target) = match parse_language_pair(source_lang, target_lang) {
        Ok(p) => p,
        Err(e) => {
            return Err(e);
        },
    };
    let mut req: Vec<char> = Vec::new();
    push_str(&mut req, "Translate the following from ");
    push_str(&mut req, source.to_ietf_tag());
    push_str(&mut req, " to ");
    push_str(&mut req, target.to_ietf_tag());
    push_str(&mut req, ":\n\n");
    push_str(&mut req, text);
    let user = Message { role: MessageRole::User, content: string_from(req.as_slice()) };
    let mut messages: Vec<Message> = Vec::new();
    match previous_text {
        Some(prev) => {
            let mut v: Vec<char> = Vec::new();
            push_str(&mut v, "[Previous translation]:\n");
            push_str(&mut v, prev.as_str());
            messages.push(Message { role: MessageRole::Assistant, content: string_from(v.as_slice()) });
        },
        None => {},
    }
    messages.push(user);
    Ok(messages)
}

/// What is cached for a text once its translation `result` is in: an item
/// for the text (position 0), translated, holding the result's text, model
/// and token count.
pub open spec fn stored_item(item: CacheItemView, text: Seq<char>, result: TranslationResultView) -> bool {
    &&& item.text_index == 0
    &&& item.translation_status == TranslationStatus::Translated
    &&& item.source_text == text
    &&& item.source_hash == text_hash(text)
    &&& item.translated_text == result.translated_text
    &&& item.model == result.model
    &&& item.tokens_used == result.prompt_tokens + result.completion_tokens
    &&& item.text_to_detect is None
    &&& item.lang_code is None
    &&& item.extra.len() == 0
}

/// Caches the translation `result` of `text` under the text's hash.
pub fn store_translation<C: CacheService>(cache: &mut C, text: String, result: &TranslationResult)
    requires
        result.prompt_tokens + result.completion_tokens <= u32::MAX,
    ensures
        exists|item: CacheItemView|
            stored_item(item, text@, result@) && final(cache).entries() == old(cache).entries().insert(
                text_hash(text@),
                item,
            ),
{
    let key = CacheItem::compute_hash(text.as_str());
    let mut item = CacheItem::new(text, 0);
    item.translated_text = result.translated_text.clone();
    item.model = result.model.clone();
    item.tokens_used = result.total_tokens();
    item.translation_status = TranslationStatus::Translated;
    let ghost iv = item@;
    cache.set(key, item);
    assert(stored_item(iv, text@, result@));
}

/// Once a translation is cached, the cache serves it: its text and model,
/// with no tokens counted.
pub proof fn lemma_cache_serves_stored(
    entries: Map<Seq<char>, CacheItemView>,
    item: CacheItemView,
    text: Seq<char>,
    result: TranslationResultView,
)
    requires
        stored_item(item, text, result),
    ensures
        cached_view(entries.insert(text_hash(text), item), text) == Some(
            TranslationResultView {
                translated_text: result.translated_text,
                think_content: None,
                prompt_tokens: 0,
                completion_tokens: 0,
                model: result.model,
                finish_reason: None,
            },
        ),
{
}

/// The system prompt in force before the user sets one.
pub fn default_system_prompt() -> (r: String)
    ensures
        r@ == "You are a professional translator. Translate the following text accurately."@,
{
    String::from_str("You are a professional translator. Translate the following text accurately.")
}

/// Simple greeting that shows the application answers.
pub fn greet(name: &str) -> (r: String)
    ensures
        r@ == "Hello, "@ + name@ + "! MindRush is working."@,
{
    let mut v: Vec<char> = Vec::new();
    push_str(&mut v, "Hello, ");
    push_str(&mut v, name);
    push_str(&mut v, "! MindRush is working.");
    string_from(v.as_slice())
}

} // verus!
