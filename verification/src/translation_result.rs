//! The result of one completion request.

use vstd::prelude::*;
use crate::document::opt_view;

verus! {

/// Translation result from LLM
#[derive(Debug)]
pub struct TranslationResult {
    pub translated_text: String,
    pub think_content: Option<String>,
    pub prompt_tokens: u32,
    pub completion_tokens: u32,
    pub model: String,
    pub finish_reason: Option<String>,
}

/// The contents of a [`TranslationResult`].
pub struct TranslationResultView {
    pub translated_text: Seq<char>,
    pub think_content: Option<Seq<char>>,
    pub prompt_tokens: u32,
    pub completion_tokens: u32,
    pub model: Seq<char>,
    pub finish_reason: Option<Seq<char>>,
}

impl View for TranslationResult {
    type V = TranslationResultView;

    open spec fn view(&self) -> TranslationResultView {
        TranslationResultView {
            translated_text: self.translated_text@,
            think_content: opt_view(self.think_content),
            prompt_tokens: self.prompt_tokens,
            completion_tokens: self.completion_tokens,
            model: self.model@,
            finish_reason: opt_view(self.finish_reason),
        }
    }
}

/// A copy of an optional text.
pub fn copy_opt_string(o: &Option<String>) -> (r: Option<String>)
    ensures
        opt_view(r) == opt_view(*o),
{
    match o {
        Some(s) => Some(s.clone()),
        None => None,
    }
}

impl TranslationResult {
    /// A result with no reasoning text and no finish reason.
    pub fn new(translated_text: String, prompt_tokens: u32, completion_tokens: u32, model: String) -> (r:
        Self)
        ensures
            r.translated_text@ == translated_text@,
            r.think_content is None,
            r.prompt_tokens == prompt_tokens,
            r.completion_tokens == completion_tokens,
            r.model@ == model@,
            r.finish_reason is None,
    {
        TranslationResult {
            translated_text,
            think_content: None,
            prompt_tokens,
            completion_tokens,
            model,
            finish_reason: None,
        }
    }

    /// Prompt and completion tokens together.
    pub fn total_tokens(&self) -> (r: u32)
        requires
            self.prompt_tokens + self.completion_tokens <= u32::MAX,
        ensures
            r == self.prompt_tokens + self.completion_tokens,
    {
        self.prompt_tokens + self.completion_tokens
    }

    /// A copy of this result.
    pub fn duplicate(&self) -> (r: TranslationResult)
        ensures
            r@ == self@,
    {
        TranslationResult {
            translated_text: self.translated_text.clone(),
            think_content: copy_opt_string(&self.think_content),
            prompt_tokens: self.prompt_tokens,
            completion_tokens: self.completion_tokens,
            model: self.model.clone(),
            finish_reason: copy_opt_string(&self.finish_reason),
        }
    }
}

} // verus!
