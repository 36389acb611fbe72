//! Chat-completion providers: their configuration, the requests they are
//! sent, how their replies are judged, and the retry policy. The HTTP
//! exchange itself, and the JSON coding of requests and replies, run
//! outside; they hand in and take back the plain values used here.

use vstd::prelude::*;
use crate::text::{chars_of, string_from, push_str, chars_equal_str};
use crate::document::opt_view;
use crate::language::{lowercase, to_lowercase, is_ascii_text, ascii_lowercase};
use crate::translation_result::{TranslationResult, copy_opt_string};

verus! {

/// Provider type enumeration
#[derive(Clone, Copy, Debug, PartialEq, Eq, Structural)]
pub enum ProviderType {
    OpenAI,
    Anthropic,
    Google,
    AmazonBedrock,
    LocalLLM,
    Sakura,
}

/// LLM configuration. The sampling temperature is held as the bit pattern
/// of its `f32` value (`f32::to_bits`); it is only passed on.
#[derive(Debug)]
pub struct LLMConfig {
    pub provider_type: ProviderType,
    pub model: String,
    pub api_key: String,
    pub base_url: Option<String>,
    pub max_tokens: Option<u32>,
    pub temperature_bits: u32,
    pub timeout_secs: u64,
}

/// The contents of an [`LLMConfig`].
pub struct LLMConfigView {
    pub provider_type: ProviderType,
    pub model: Seq<char>,
    pub api_key: Seq<char>,
    pub base_url: Option<Seq<char>>,
    pub max_tokens: Option<u32>,
    pub temperature_bits: u32,
    pub timeout_secs: u64,
}

impl View for LLMConfig {
    type V = LLMConfigView;

    open spec fn view(&self) -> LLMConfigView {
        LLMConfigView {
            provider_type: self.provider_type,
            model: self.model@,
            api_key: self.api_key@,
            base_url: opt_view(self.base_url),
            max_tokens: self.max_tokens,
            temperature_bits: self.temperature_bits,
            timeout_secs: self.timeout_secs,
        }
    }
}

/// `0.7_f32.to_bits()`, the default temperature.
pub const DEFAULT_TEMPERATURE_BITS: u32 = 0x3F33_3333u32;

/// The request timeout of every configuration made from user input.
pub const CONFIG_TIMEOUT_SECS: u64 = 120u64;

/// The default configuration: OpenAI, `gpt-4`, no key, the provider's own
/// endpoint, 4096 tokens, temperature 0.7, 120 s.
pub open spec fn default_config_view() -> LLMConfigView {
    LLMConfigView {
        provider_type: ProviderType::OpenAI,
        model: "gpt-4"@,
        api_key: Seq::empty(),
        base_url: None,
        max_tokens: Some(4096),
        temperature_bits: DEFAULT_TEMPERATURE_BITS,
        timeout_secs: CONFIG_TIMEOUT_SECS,
    }
}

impl Default for LLMConfig {
    fn default() -> (r: Self)
        ensures
            r@ == default_config_view(),
    {
        LLMConfig {
            provider_type: ProviderType::OpenAI,
            model: String::from_str("gpt-4"),
            api_key: String::new(),
            base_url: None,
            max_tokens: Some(4096),
            temperature_bits: DEFAULT_TEMPERATURE_BITS,
            timeout_secs: CONFIG_TIMEOUT_SECS,
        }
    }
}

impl LLMConfig {
    /// A copy of this configuration.
    pub fn duplicate(&self) -> (r: LLMConfig)
        ensures
            r@ == self@,
    {
        LLMConfig {
            provider_type: self.provider_type,
            model: self.model.clone(),
            api_key: self.api_key.clone(),
            base_url: copy_opt_string(&self.base_url),
            max_tokens: self.max_tokens,
            temperature_bits: self.temperature_bits,
            timeout_secs: self.timeout_secs,
        }
    }
}

/// A named configuration.
#[derive(Debug)]
pub struct LLMConfigEntry {
    pub name: String,
    pub config: LLMConfig,
}

/// The contents of an [`LLMConfigEntry`].
pub struct LLMConfigEntryView {
    pub name: Seq<char>,
    pub config: LLMConfigView,
}

impl View for LLMConfigEntry {
    type V = LLMConfigEntryView;

    open spec fn view(&self) -> LLMConfigEntryView {
        LLMConfigEntryView { name: self.name@, config: self.config@ }
    }
}

impl LLMConfigEntry {
    /// A copy of this entry.
    pub fn duplicate(&self) -> (r: LLMConfigEntry)
        ensures
            r@ == self@,
    {
        LLMConfigEntry { name: self.name.clone(), config: self.config.duplicate() }
    }
}

/// The provider that a lower-cased provider name names, if any.
pub open spec fn provider_of_name(s: Seq<char>) -> Option<ProviderType> {
    if s == "openai"@ {
        Some(ProviderType::OpenAI)
    } else if s == "anthropic"@ {
        Some(ProviderType::Anthropic)
    } else if s == "google"@ {
        Some(ProviderType::Google)
    } else if s == "bedrock"@ {
        Some(ProviderType::AmazonBedrock)
    } else if s == "local"@ {
        Some(ProviderType::LocalLLM)
    } else if s == "sakura"@ {
        Some(ProviderType::Sakura)
    } else {
        None
    }
}

/// The provider named (case-insensitively) by `name`, or the refusal
/// `"Unknown provider"`.
pub fn provider_from_name(name: &str) -> (r: Result<ProviderType, String>)
    ensures
        match provider_of_name(lowercase(name@)) {
            Some(p) => r == Ok::<ProviderType, String>(p),
            None => r is Err && r->Err_0@ == "Unknown provider"@,
        },
        is_ascii_text(name@) ==> match provider_of_name(ascii_lowercase(name@)) {
            Some(p) => r == Ok::<ProviderType, String>(p),
            None => r is Err,
        },
{
    let lower = to_lowercase(name);
    let c = chars_of(lower.as_str());
    let s = c.as_slice();
    if chars_equal_str(s, "openai") {
        Ok(ProviderType::OpenAI)
    } else if chars_equal_str(s, "anthropic") {
        Ok(ProviderType::Anthropic)
    } else if chars_equal_str(s, "google") {
        Ok(ProviderType::Google)
    } else if chars_equal_str(s, "bedrock") {
        Ok(ProviderType::AmazonBedrock)
    } else if chars_equal_str(s, "local") {
        Ok(ProviderType::LocalLLM)
    } else if chars_equal_str(s, "sakura") {
        Ok(ProviderType::Sakura)
    } else {
        Err(String::from_str("Unknown provider"))
    }
}

/// The configuration made from user input: the named provider, the given
/// fields and the standard timeout; refused as an unknown provider where
/// the name names none.
pub fn config_from_input(
    provider: &str,
    model: String,
    api_key: String,
    base_url: Option<String>,
    temperature_bits: u32,
    max_tokens: Option<u32>,
) -> (r: Result<LLMConfig, String>)
    ensures
        match provider_of_name(lowercase(provider@)) {
            Some(p) => r is Ok && r->Ok_0@ == (LLMConfigView {
                provider_type: p,
                model: model@,
                api_key: api_key@,
                base_url: opt_view(base_url),
                max_tokens,
                temperature_bits,
                timeout_secs: CONFIG_TIMEOUT_SECS,
            }),
            None => r is Err && r->Err_0@ == "Unknown provider"@,
        },
{
    let provider_type = match provider_from_name(provider) {
        Ok(p) => p,
        Err(e) => {
            return Err(e);
        },
    };
    Ok(
        LLMConfig {
            provider_type,
            model,
            api_key,
            base_url,
            max_tokens,
            temperature_bits,
            timeout_secs: CONFIG_TIMEOUT_SECS,
        },
    )
}

/// Chat message
#[derive(Debug)]
pub struct Message {
    pub role: MessageRole,
    pub content: String,
}

/// The speaker of a message.
#[derive(Clone, Copy, Debug, PartialEq, Eq, Structural)]
pub enum MessageRole {
    System,
    User,
    Assistant,
}

impl Message {
    /// A copy of this message.
    pub fn duplicate(&self) -> (r: Message)
        ensures
            r.role == self.role,
            r.content@ == self.content@,
    {
        Message { role: self.role, content: self.content.clone() }
    }
}

/// LLM error types
#[derive(Debug)]
pub enum LLMError {
    RequestFailed(String),
    ParseResponseFailed(String),
    RateLimited,
    AuthFailed,
    InvalidConfig(String),
    Timeout(String),
    InvalidResponse(String),
}

/// The contents of an [`LLMError`].
pub enum LLMErrorView {
    RequestFailed(Seq<char>),
    ParseResponseFailed(Seq<char>),
    RateLimited,
    AuthFailed,
    InvalidConfig(Seq<char>),
    Timeout(Seq<char>),
    InvalidResponse(Seq<char>),
}

impl View for LLMError {
    type V = LLMErrorView;

    open spec fn view(&self) -> LLMErrorView {
        match self {
            LLMError::RequestFailed(s) => LLMErrorView::RequestFailed(s@),
            LLMError::ParseResponseFailed(s) => LLMErrorView::ParseResponseFailed(s@),
            LLMError::RateLimited => LLMErrorView::RateLimited,
            LLMError::AuthFailed => LLMErrorView::AuthFailed,
            LLMError::InvalidConfig(s) => LLMErrorView::InvalidConfig(s@),
            LLMError::Timeout(s) => LLMErrorView::Timeout(s@),
            LLMError::InvalidResponse(s) => LLMErrorView::InvalidResponse(s@),
        }
    }
}

/// The text that an error displays as.
pub open spec fn error_text(e: LLMErrorView) -> Seq<char> {
    match e {
        LLMErrorView::RequestFailed(s) => "API request failed: "@ + s,
        LLMErrorView::ParseResponseFailed(s) => "Failed to parse API response: "@ + s,
        LLMErrorView::RateLimited => "Rate limited: please retry later"@,
        LLMErrorView::AuthFailed => "Authentication failed: check API key"@,
        LLMErrorView::InvalidConfig(s) => "Invalid configuration: "@ + s,
        LLMErrorView::Timeout(s) => "Timeout: "@ + s,
        LLMErrorView::InvalidResponse(s) => "Invalid response format: "@ + s,
    }
}

/// Whether a failed request may be tried again: on a rate limit or a
/// timeout.
pub open spec fn is_retryable(e: LLMErrorView) -> bool {
    e is RateLimited || e is Timeout
}

fn prefixed(prefix: &str, s: &String) -> (r: String)
    ensures
        r@ == prefix@ + s@,
{
    let mut v: Vec<char> = Vec::new();
    push_str(&mut v, prefix);
    push_str(&mut v, s.as_str());
    string_from(v.as_slice())
}

impl LLMError {
    /// The text this error displays as.
    pub fn message(&self) -> (r: String)
        ensures
            r@ == error_text(self@),
    {
        match self {
            LLMError::RequestFailed(s) => prefixed("API request failed: ", s),
            LLMError::ParseResponseFailed(s) => prefixed("Failed to parse API response: ", s),
            LLMError::RateLimited => String::from_str("Rate limited: please retry later"),
            LLMError::AuthFailed => String::from_str("Authentication failed: check API key"),
            LLMError::InvalidConfig(s) => prefixed("Invalid configuration: ", s),
            LLMError::Timeout(s) => prefixed("Timeout: ", s),
            LLMError::InvalidResponse(s) => prefixed("Invalid response format: ", s),
        }
    }

    /// A copy of this error.
    pub fn duplicate(&self) -> (r: LLMError)
        ensures
            r@ == self@,
    {
        match self {
            LLMError::RequestFailed(s) => LLMError::RequestFailed(s.clone()),
            LLMError::ParseResponseFailed(s) => LLMError::ParseResponseFailed(s.clone()),
            LLMError::RateLimited => LLMError::RateLimited,
            LLMError::AuthFailed => LLMError::AuthFailed,
            LLMError::InvalidConfig(s) => LLMError::InvalidConfig(s.clone()),
            LLMError::Timeout(s) => LLMError::Timeout(s.clone()),
            LLMError::InvalidResponse(s) => LLMError::InvalidResponse(s.clone()),
        }
    }

    /// Whether a request that failed so may be tried again.
    pub fn retryable(&self) -> (r: bool)
        ensures
            r == is_retryable(self@),
    {
        match self {
            LLMError::RateLimited => true,
            LLMError::Timeout(_) => true,
            _ => false,
        }
    }
}

/// Checks that a configuration can be used: it needs an API key and a
/// model.
pub fn validate_config(config: &LLMConfig) -> (r: Result<(), LLMError>)
    ensures
        config.api_key@.len() == 0 ==> r is Err && r->Err_0@ == LLMErrorView::InvalidConfig(
            "API key is required"@,
        ),
        config.api_key@.len() > 0 && config.model@.len() == 0 ==> r is Err && r->Err_0@
            == LLMErrorView::InvalidConfig("Model is required"@),
        config.api_key@.len() > 0 && config.model@.len() > 0 ==> r is Ok,
{
    if config.api_key.as_str().is_empty() {
        return Err(LLMError::InvalidConfig(String::from_str("API key is required")));
    }
    if config.model.as_str().is_empty() {
        return Err(LLMError::InvalidConfig(String::from_str("Model is required")));
    }
    Ok(())
}

/// `s` without its trailing `/` characters (`trim_end_matches('/')`).
pub open spec fn trim_end_slashes(s: Seq<char>) -> Seq<char>
    decreases s.len(),
{
    if s.len() > 0 && s.last() == '/' {
        trim_end_slashes(s.drop_last())
    } else {
        s
    }
}

fn trim_end_slashes_exec(s: &str) -> (r: Vec<char>)
    ensures
        r@ == trim_end_slashes(s@),
{
    let mut v = chars_of(s);
    while v.len() > 0 && v[v.len() - 1] == '/'
        invariant
            trim_end_slashes(v@) == trim_end_slashes(s@),
        decreases v@.len(),
    {
        v.pop();
    }
    v
}

/// `base` without trailing slashes, followed by `path`; or `default`
/// where there is no base.
pub open spec fn endpoint(base: Option<Seq<char>>, path: Seq<char>, default: Seq<char>) -> Seq<
    char,
> {
    match base {
        Some(b) => trim_end_slashes(b) + path,
        None => default,
    }
}

fn endpoint_exec(base: &Option<String>, path: &str, default: &str) -> (r: String)
    ensures
        r@ == endpoint(opt_view(*base), path@, default@),
{
    match base {
        Some(b) => {
            let mut v = trim_end_slashes_exec(b.as_str());
            push_str(&mut v, path);
            string_from(v.as_slice())
        },
        None => String::from_str(default),
    }
}

/// The chat-completions address of an OpenAI-compatible service.
pub fn openai_endpoint(config: &LLMConfig) -> (r: String)
    ensures
        r@ == endpoint(
            config@.base_url,
            "/chat/completions"@,
            "https://api.openai.com/v1/chat/completions"@,
        ),
{
    endpoint_exec(&config.base_url, "/chat/completions", "https://api.openai.com/v1/chat/completions")
}

/// The messages address of the Anthropic service.
pub fn anthropic_endpoint(config: &LLMConfig) -> (r: String)
    ensures
        r@ == endpoint(config@.base_url, "/v1/messages"@, "https://api.anthropic.com/v1/messages"@),
{
    endpoint_exec(&config.base_url, "/v1/messages", "https://api.anthropic.com/v1/messages")
}

/// The token limit sent with a request: the configured one, else 4096.
pub fn request_max_tokens(config: &LLMConfig) -> (r: u32)
    ensures
        r == match config.max_tokens {
            Some(m) => m,
            None => 4096u32,
        },
{
    match config.max_tokens {
        Some(m) => m,
        None => 4096,
    }
}

/// The value of the `Authorization` header of an OpenAI request.
pub fn bearer_header(api_key: &str) -> (r: String)
    ensures
        r@ == "Bearer "@ + api_key@,
{
    let mut v: Vec<char> = Vec::new();
    push_str(&mut v, "Bearer ");
    push_str(&mut v, api_key);
    string_from(v.as_slice())
}

/// The role name of a message in an OpenAI request.
pub open spec fn openai_role(r: MessageRole) -> Seq<char> {
    match r {
        MessageRole::System => "system"@,
        MessageRole::User => "user"@,
        MessageRole::Assistant => "assistant"@,
    }
}

/// The role name of a message in an Anthropic request, where a system
/// message is sent as the user's.
pub open spec fn anthropic_role(r: MessageRole) -> Seq<char> {
    match r {
        MessageRole::Assistant => "assistant"@,
        _ => "user"@,
    }
}

fn openai_role_name(r: MessageRole) -> (s: String)
    ensures
        s@ == openai_role(r),
{
    match r {
        MessageRole::System => String::from_str("system"),
        MessageRole::User => String::from_str("user"),
        MessageRole::Assistant => String::from_str("assistant"),
    }
}

fn anthropic_role_name(r: MessageRole) -> (s: String)
    ensures
        s@ == anthropic_role(r),
{
    match r {
        MessageRole::Assistant => String::from_str("assistant"),
        _ => String::from_str("user"),
    }
}

/// The (role, content) pairs of an OpenAI request: the system prompt first,
/// then the messages.
pub fn openai_messages(messages: &Vec<Message>, system_prompt: &str) -> (r: Vec<(String, String)>)
    ensures
        r@.len() == messages@.len() + 1,
        r@[0].0@ == "system"@,
        r@[0].1@ == system_prompt@,
        forall|i: int|
            0 <= i < messages@.len() ==> (#[trigger] r@[i + 1]).0@ == openai_role(messages@[i].role)
                && r@[i + 1].1@ == messages@[i].content@,
{
    let mut out: Vec<(String, String)> = Vec::new();
    out.push((String::from_str("system"), String::from_str(system_prompt)));
    let mut i: usize = 0;
    while i < messages.len()
        invariant
            i <= messages@.len(),
            out@.len() == i + 1,
            out@[0].0@ == "system"@,
            out@[0].1@ == system_prompt@,
            forall|j: int|
                0 <= j < i ==> (#[trigger] out@[j + 1]).0@ == openai_role(messages@[j].role)
                    && out@[j + 1].1@ == messages@[j].content@,
        decreases messages@.len() - i,
    {
        let m = &messages[i];
        out.push((openai_role_name(m.role), m.content.clone()));
        i = i + 1;
    }
    out
}

/// The (role, content) pairs of an Anthropic request.
pub fn anthropic_messages(messages: &Vec<Message>) -> (r: Vec<(String, String)>)
    ensures
        r@.len() == messages@.len(),
        forall|i: int|
            0 <= i < messages@.len() ==> (#[trigger] r@[i]).0@ == anthropic_role(messages@[i].role)
                && r@[i].1@ == messages@[i].content@,
{
    let mut out: Vec<(String, String)> = Vec::new();
    let mut i: usize = 0;
    while i < messages.len()
        invariant
            i <= messages@.len(),
            out@.len() == i,
            forall|j: int|
                0 <= j < i ==> (#[trigger] out@[j]).0@ == anthropic_role(messages@[j].role)
                    && out@[j].1@ == messages@[j].content@,
        decreases messages@.len() - i,
    {
        let m = &messages[i];
        out.push((anthropic_role_name(m.role), m.content.clone()));
        i = i + 1;
    }
    out
}

/// The system field of an Anthropic request: the prompt, unless it is
/// empty.
pub fn anthropic_system(system_prompt: &str) -> (r: Option<String>)
    ensures
        system_prompt@.len() == 0 ==> r is None,
        system_prompt@.len() > 0 ==> r is Some && r->Some_0@ == system_prompt@,
{
    if system_prompt.is_empty() {
        None
    } else {
        Some(String::from_str(system_prompt))
    }
}

/// What a reply's HTTP status says.
#[derive(Debug)]
pub enum StatusVerdict {
    /// Read the reply's body as a completion
    Proceed,
    /// The request failed so
    Fail(LLMError),
    /// The request failed; its body is to be read for the message
    FailWithBody,
}

/// How an OpenAI reply's status is judged: 401 is an authentication
/// failure, 429 a rate limit, any other non-success status a failure whose
/// body is reported.
pub fn openai_status(code: u16, is_success: bool) -> (r: StatusVerdict)
    ensures
        code == 401 ==> (r matches StatusVerdict::Fail(e) && e@ == LLMErrorView::AuthFailed),
        code == 429 ==> (r matches StatusVerdict::Fail(e) && e@ == LLMErrorView::RateLimited),
        code != 401 && code != 429 && !is_success ==> r is FailWithBody,
        code != 401 && code != 429 && is_success ==> r is Proceed,
{
    if code == 401 {
        StatusVerdict::Fail(LLMError::AuthFailed)
    } else if code == 429 {
        StatusVerdict::Fail(LLMError::RateLimited)
    } else if !is_success {
        StatusVerdict::FailWithBody
    } else {
        StatusVerdict::Proceed
    }
}

/// How an Anthropic reply's status is judged: 401 is an authentication
/// failure, 429 a rate limit, anything else is read as a completion.
pub fn anthropic_status(code: u16) -> (r: StatusVerdict)
    ensures
        code == 401 ==> (r matches StatusVerdict::Fail(e) && e@ == LLMErrorView::AuthFailed),
        code == 429 ==> (r matches StatusVerdict::Fail(e) && e@ == LLMErrorView::RateLimited),
        code != 401 && code != 429 ==> r is Proceed,
{
    if code == 401 {
        StatusVerdict::Fail(LLMError::AuthFailed)
    } else if code == 429 {
        StatusVerdict::Fail(LLMError::RateLimited)
    } else {
        StatusVerdict::Proceed
    }
}

/// The failure of a request whose status (as displayed, e.g.
/// `"404 Not Found"`) was not a success, with the body of the reply.
pub fn http_failure(status_text: &str, body: &str) -> (r: LLMError)
    ensures
        r@ == LLMErrorView::RequestFailed("HTTP "@ + status_text@ + ": "@ + body@),
{
    let mut v: Vec<char> = Vec::new();
    push_str(&mut v, "HTTP ");
    push_str(&mut v, status_text);
    push_str(&mut v, ": ");
    push_str(&mut v, body);
    LLMError::RequestFailed(string_from(v.as_slice()))
}

/// One choice of an OpenAI reply.
#[derive(Debug)]
pub struct OpenAIChoice {
    pub content: Option<String>,
    pub finish_reason: Option<String>,
}

/// The text of an optional content, or the empty text.
pub open spec fn content_or_empty(o: Option<Seq<char>>) -> Seq<char> {
    match o {
        Some(s) => s,
        None => Seq::empty(),
    }
}

/// The result of an OpenAI reply: the content of its first choice (empty
/// where it has none) with its finish reason; a reply without choices is
/// an invalid response.
pub fn openai_result(choices: &Vec<OpenAIChoice>, prompt_tokens: u32, completion_tokens: u32, model: &str) -> (r:
    Result<TranslationResult, LLMError>)
    ensures
        choices@.len() == 0 ==> r is Err && r->Err_0@ == LLMErrorView::InvalidResponse(
            "No choices in response"@,
        ),
        choices@.len() > 0 ==> r is Ok && r->Ok_0.translated_text@ == content_or_empty(
            opt_view(choices@[0].content),
        ) && r->Ok_0.think_content is None && r->Ok_0.prompt_tokens == prompt_tokens
            && r->Ok_0.completion_tokens == completion_tokens && r->Ok_0.model@ == model@ && opt_view(
            r->Ok_0.finish_reason,
        ) == opt_view(choices@[0].finish_reason),
{
    if choices.len() == 0 {
        return Err(LLMError::InvalidResponse(String::from_str("No choices in response")));
    }
    let choice = &choices[0];
    let content = match &choice.content {
        Some(c) => c.clone(),
        None => String::new(),
    };
    Ok(
        TranslationResult {
            translated_text: content,
            think_content: None,
            prompt_tokens,
            completion_tokens,
            model: String::from_str(model),
            finish_reason: copy_opt_string(&choice.finish_reason),
        },
    )
}

/// One content block of an Anthropic reply.
#[derive(Debug)]
pub struct AnthropicBlock {
    pub block_type: String,
    pub text: Option<String>,
}

/// The position of the first block of type `text`, if any.
fn find_text_block(blocks: &Vec<AnthropicBlock>) -> (r: Option<usize>)
    ensures
        match r {
            Some(i) => i < blocks@.len() && blocks@[i as int].block_type@ == "text"@ && forall|j: int|
                0 <= j < i ==> blocks@[j].block_type@ != "text"@,
            None => forall|j: int| 0 <= j < blocks@.len() ==> blocks@[j].block_type@ != "text"@,
        },
{
    let mut i: usize = 0;
    while i < blocks.len()
        invariant
            i <= blocks@.len(),
            forall|j: int| 0 <= j < i ==> blocks@[j].block_type@ != "text"@,
        decreases blocks@.len() - i,
    {
        let t = chars_of(blocks[i].block_type.as_str());
        if chars_equal_str(t.as_slice(), "text") {
            return Some(i);
        }
        i = i + 1;
    }
    None
}

/// The result of an Anthropic reply: the text of its first block of type
/// `text` (empty where there is none, or where that block has no text).
pub fn anthropic_result(blocks: &Vec<AnthropicBlock>, input_tokens: u32, output_tokens: u32, model: &str) -> (r:
    TranslationResult)
    ensures
        (exists|i: int|
            {
                &&& 0 <= i < blocks@.len()
                &&& blocks@[i].block_type@ == "text"@
                &&& forall|j: int| 0 <= j < i ==> blocks@[j].block_type@ != "text"@
                &&& r.translated_text@ == content_or_empty(opt_view(blocks@[i].text))
            }) || ((forall|j: int| 0 <= j < blocks@.len() ==> blocks@[j].block_type@ != "text"@)
            && r.translated_text@ == Seq::<char>::empty()),
        r.think_content is None,
        r.prompt_tokens == input_tokens,
        r.completion_tokens == output_tokens,
        r.model@ == model@,
        r.finish_reason is None,
{
    let text = match find_text_block(blocks) {
        Some(i) => match &blocks[i].text {
            Some(x) => x.clone(),
            None => String::new(),
        },
        None => String::new(),
    };
    TranslationResult {
        translated_text: text,
        think_content: None,
        prompt_tokens: input_tokens,
        completion_tokens: output_tokens,
        model: String::from_str(model),
        finish_reason: None,
    }
}

/// The kinds of provider that requests can be sent through.
#[derive(Clone, Copy, Debug, PartialEq, Eq, Structural)]
pub enum ProviderKind {
    OpenAI,
    Anthropic,
}

/// The kind of provider that serves a provider type: Anthropic its own,
/// every other type the OpenAI-compatible one.
pub open spec fn provider_kind_of(p: ProviderType) -> ProviderKind {
    match p {
        ProviderType::Anthropic => ProviderKind::Anthropic,
        _ => ProviderKind::OpenAI,
    }
}

/// LLM Provider factory
pub struct LLMProviderFactory;

impl LLMProviderFactory {
    /// The kind of provider that a configuration is served by.
    pub fn kind_for(config: &LLMConfig) -> (r: ProviderKind)
        ensures
            r == provider_kind_of(config.provider_type),
    {
        match config.provider_type {
            ProviderType::Anthropic => ProviderKind::Anthropic,
            _ => ProviderKind::OpenAI,
        }
    }
}

/// What to do after a failed attempt.
#[derive(Debug)]
pub enum RetryDecision {
    /// Give up with this error
    Stop(LLMError),
    /// Wait this many milliseconds, then try again
    Wait(u64),
    /// Go on to the next attempt, if one is left
    Next,
}

/// The retry policy of a request: up to `max_retries` attempts; a rate
/// limit or a timeout is tried again, after a wait that doubles each time
/// (none after the last attempt); any other failure ends it.
#[derive(Debug)]
pub struct RetryState {
    pub attempt: u32,
    pub max_retries: u32,
    pub delay_ms: u64,
    pub last_error: Option<LLMError>,
}

/// The view of an optional error.
pub open spec fn opt_error_view(o: Option<LLMError>) -> Option<LLMErrorView> {
    match o {
        Some(e) => Some(e@),
        None => None,
    }
}

impl RetryState {
    /// No attempt made yet.
    pub fn new(max_retries: u32, initial_delay_ms: u64) -> (r: RetryState)
        ensures
            r.attempt == 0,
            r.max_retries == max_retries,
            r.delay_ms == initial_delay_ms,
            r.last_error is None,
    {
        RetryState { attempt: 0, max_retries, delay_ms: initial_delay_ms, last_error: None }
    }

    /// Whether another attempt may be made.
    pub fn may_attempt(&self) -> (r: bool)
        ensures
            r == (self.attempt < self.max_retries),
    {
        self.attempt < self.max_retries
    }

    /// The error a request ends with once no attempt is left: the last
    /// failure, or `"Max retries exceeded"` where none was made.
    pub fn final_error(&self) -> (r: LLMError)
        ensures
            match opt_error_view(self.last_error) {
                Some(e) => r@ == e,
                None => r@ == LLMErrorView::RequestFailed("Max retries exceeded"@),
            },
    {
        match &self.last_error {
            Some(e) => e.duplicate(),
            None => LLMError::RequestFailed(String::from_str("Max retries exceeded")),
        }
    }

    /// Records the failure `e` of the current attempt and decides what
    /// follows.
    pub fn on_failure(&mut self, e: LLMError) -> (r: RetryDecision)
        requires
            old(self).attempt < old(self).max_retries,
            is_retryable(e@) && old(self).attempt + 1 < old(self).max_retries ==> old(self).delay_ms
                * 2 <= u64::MAX,
        ensures
            final(self).attempt == old(self).attempt + 1,
            final(self).max_retries == old(self).max_retries,
            opt_error_view(final(self).last_error) == Some(e@),
            !is_retryable(e@) ==> (r matches RetryDecision::Stop(x) && x@ == e@),
            is_retryable(e@) && old(self).attempt + 1 < old(self).max_retries ==> r
                == RetryDecision::Wait(old(self).delay_ms) && final(self).delay_ms == old(self).delay_ms * 2,
            is_retryable(e@) && old(self).attempt + 1 >= old(self).max_retries ==> r is Next
                && final(self).delay_ms == old(self).delay_ms,
            !(is_retryable(e@) && old(self).attempt + 1 < old(self).max_retries) ==> final(self).delay_ms == old(self).delay_ms,
    {
        let retry = e.retryable();
        let last = e.duplicate();
        self.attempt = self.attempt + 1;
        self.last_error = Some(last);
        if !retry {
            return RetryDecision::Stop(e);
        }
        if self.attempt < self.max_retries {
            let d = self.delay_ms;
            self.delay_ms = d * 2;
            RetryDecision::Wait(d)
        } else {
            RetryDecision::Next
        }
    }
}

} // verus!
