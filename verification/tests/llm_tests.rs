use mindrush::llm::{
    anthropic_endpoint, anthropic_messages, anthropic_result, anthropic_status, anthropic_system,
    bearer_header, config_from_input, http_failure, openai_endpoint, openai_messages, openai_result,
    openai_status, provider_from_name, request_max_tokens, validate_config, AnthropicBlock, LLMConfig,
    LLMError, LLMProviderFactory, Message, MessageRole, OpenAIChoice, ProviderKind, ProviderType,
    RetryDecision, RetryState, StatusVerdict,
};
use mindrush::registry::{
    add_llm_config, default_llm_configs, get_llm_config, list_llm_configs, remove_llm_config,
    set_active_llm, update_llm_config,
};

fn config_with(base_url: Option<&str>) -> LLMConfig {
    let mut c = LLMConfig::default();
    c.base_url = base_url.map(|s| s.to_string());
    c
}

#[test]
fn default_config_values() {
    let c = LLMConfig::default();
    assert_eq!(c.provider_type, ProviderType::OpenAI);
    assert_eq!(c.model, "gpt-4");
    assert_eq!(c.api_key, "");
    assert_eq!(c.base_url, None);
    assert_eq!(c.max_tokens, Some(4096));
    assert_eq!(f32::from_bits(c.temperature_bits), 0.7_f32);
    assert_eq!(c.timeout_secs, 120);
}

#[test]
fn provider_names_are_case_insensitive() {
    assert_eq!(provider_from_name("OpenAI"), Ok(ProviderType::OpenAI));
    assert_eq!(provider_from_name("ANTHROPIC"), Ok(ProviderType::Anthropic));
    assert_eq!(provider_from_name("google"), Ok(ProviderType::Google));
    assert_eq!(provider_from_name("Bedrock"), Ok(ProviderType::AmazonBedrock));
    assert_eq!(provider_from_name("local"), Ok(ProviderType::LocalLLM));
    assert_eq!(provider_from_name("Sakura"), Ok(ProviderType::Sakura));
    assert_eq!(provider_from_name("mistral"), Err("Unknown provider".to_string()));
}

#[test]
fn config_from_user_input() {
    let c = config_from_input("anthropic", "model-a".to_string(), "k".to_string(), None, 0, Some(10)).unwrap();
    assert_eq!(c.provider_type, ProviderType::Anthropic);
    assert_eq!(c.timeout_secs, 120);
    assert_eq!(c.max_tokens, Some(10));
    assert!(config_from_input("x", String::new(), String::new(), None, 0, None).is_err());
}

#[test]
fn validation_messages() {
    let mut c = LLMConfig::default();
    let e = validate_config(&c).unwrap_err();
    assert_eq!(e.message(), "Invalid configuration: API key is required");
    c.api_key = "k".to_string();
    c.model = String::new();
    let e = validate_config(&c).unwrap_err();
    assert_eq!(e.message(), "Invalid configuration: Model is required");
    c.model = "m".to_string();
    assert!(validate_config(&c).is_ok());
}

#[test]
fn error_texts() {
    assert_eq!(LLMError::RequestFailed("x".to_string()).message(), "API request failed: x");
    assert_eq!(LLMError::ParseResponseFailed("y".to_string()).message(), "Failed to parse API response: y");
    assert_eq!(LLMError::RateLimited.message(), "Rate limited: please retry later");
    assert_eq!(LLMError::AuthFailed.message(), "Authentication failed: check API key");
    assert_eq!(LLMError::Timeout("t".to_string()).message(), "Timeout: t");
    assert_eq!(LLMError::InvalidResponse("z".to_string()).message(), "Invalid response format: z");
}

#[test]
fn endpoints() {
    assert_eq!(openai_endpoint(&config_with(None)), "https://api.openai.com/v1/chat/completions");
    assert_eq!(openai_endpoint(&config_with(Some("http://h/v1//"))), "http://h/v1/chat/completions");
    assert_eq!(anthropic_endpoint(&config_with(None)), "https://api.anthropic.com/v1/messages");
    assert_eq!(anthropic_endpoint(&config_with(Some("http://a/"))), "http://a/v1/messages");
}

#[test]
fn request_parts() {
    let mut c = LLMConfig::default();
    assert_eq!(request_max_tokens(&c), 4096);
    c.max_tokens = None;
    assert_eq!(request_max_tokens(&c), 4096);
    c.max_tokens = Some(12);
    assert_eq!(request_max_tokens(&c), 12);
    assert_eq!(bearer_header("abc"), "Bearer abc");
    assert_eq!(anthropic_system(""), None);
    assert_eq!(anthropic_system("sys"), Some("sys".to_string()));
}

#[test]
fn message_roles() {
    let msgs = vec![
        Message { role: MessageRole::Assistant, content: "prev".to_string() },
        Message { role: MessageRole::User, content: "go".to_string() },
        Message { role: MessageRole::System, content: "s".to_string() },
    ];
    let o = openai_messages(&msgs, "SYS");
    assert_eq!(o[0], ("system".to_string(), "SYS".to_string()));
    assert_eq!(o[1], ("assistant".to_string(), "prev".to_string()));
    assert_eq!(o[2], ("user".to_string(), "go".to_string()));
    assert_eq!(o[3], ("system".to_string(), "s".to_string()));
    let a = anthropic_messages(&msgs);
    assert_eq!(a.len(), 3);
    assert_eq!(a[2], ("user".to_string(), "s".to_string()));
}

#[test]
fn status_verdicts() {
    assert!(matches!(openai_status(401, false), StatusVerdict::Fail(LLMError::AuthFailed)));
    assert!(matches!(openai_status(429, false), StatusVerdict::Fail(LLMError::RateLimited)));
    assert!(matches!(openai_status(500, false), StatusVerdict::FailWithBody));
    assert!(matches!(openai_status(200, true), StatusVerdict::Proceed));
    assert!(matches!(anthropic_status(500), StatusVerdict::Proceed));
    assert!(matches!(anthropic_status(401), StatusVerdict::Fail(LLMError::AuthFailed)));
    let e = http_failure("404 Not Found", "nope");
    assert_eq!(e.message(), "API request failed: HTTP 404 Not Found: nope");
}

#[test]
fn reply_results() {
    let r = openai_result(&vec![], 1, 2, "m");
    assert_eq!(r.unwrap_err().message(), "Invalid response format: No choices in response");
    let choices = vec![
        OpenAIChoice { content: None, finish_reason: Some("stop".to_string()) },
        OpenAIChoice { content: Some("other".to_string()), finish_reason: None },
    ];
    let r = openai_result(&choices, 3, 4, "gpt").unwrap();
    assert_eq!(r.translated_text, "");
    assert_eq!(r.finish_reason, Some("stop".to_string()));
    assert_eq!(r.total_tokens(), 7);
    let blocks = vec![
        AnthropicBlock { block_type: "thinking".to_string(), text: None },
        AnthropicBlock { block_type: "text".to_string(), text: Some("hi".to_string()) },
        AnthropicBlock { block_type: "text".to_string(), text: Some("later".to_string()) },
    ];
    let r = anthropic_result(&blocks, 5, 6, "model-a");
    assert_eq!(r.translated_text, "hi");
    assert_eq!(r.model, "model-a");
    assert_eq!(anthropic_result(&vec![], 0, 0, "c").translated_text, "");
}

#[test]
fn factory_kinds() {
    let mut c = LLMConfig::default();
    assert_eq!(LLMProviderFactory::kind_for(&c), ProviderKind::OpenAI);
    c.provider_type = ProviderType::Anthropic;
    assert_eq!(LLMProviderFactory::kind_for(&c), ProviderKind::Anthropic);
    c.provider_type = ProviderType::Sakura;
    assert_eq!(LLMProviderFactory::kind_for(&c), ProviderKind::OpenAI);
}

#[test]
fn retry_policy_doubles_waits_and_stops_on_hard_errors() {
    let mut st = RetryState::new(3, 1000);
    assert!(st.may_attempt());
    assert!(matches!(st.on_failure(LLMError::RateLimited), RetryDecision::Wait(1000)));
    assert!(matches!(st.on_failure(LLMError::Timeout("t".to_string())), RetryDecision::Wait(2000)));
    assert!(matches!(st.on_failure(LLMError::RateLimited), RetryDecision::Next));
    assert!(!st.may_attempt());
    assert!(matches!(st.final_error(), LLMError::RateLimited));
    let mut st = RetryState::new(3, 10);
    assert!(matches!(st.on_failure(LLMError::AuthFailed), RetryDecision::Stop(LLMError::AuthFailed)));
    let st = RetryState::new(0, 10);
    assert!(!st.may_attempt());
    assert_eq!(st.final_error().message(), "API request failed: Max retries exceeded");
}

#[test]
fn registry_add_update_get() {
    let mut configs = default_llm_configs();
    let mut active = 0usize;
    assert_eq!(configs.len(), 1);
    assert_eq!(configs[0].name, "Default");
    let e = add_llm_config(&mut configs, &mut active, "Work".to_string(), "Anthropic", "c".to_string(), "k".to_string(), None, 0, None).unwrap();
    assert_eq!(e.name, "Work");
    assert_eq!(active, 1);
    assert_eq!(get_llm_config(&configs, active).unwrap().provider_type, ProviderType::Anthropic);
    update_llm_config(&mut configs, active, "local", "llama".to_string(), String::new(), Some("http://x".to_string()), 0, None).unwrap();
    let c = get_llm_config(&configs, active).unwrap();
    assert_eq!(c.provider_type, ProviderType::LocalLLM);
    assert_eq!(c.model, "llama");
    assert_eq!(configs[1].name, "Work");
    assert_eq!(update_llm_config(&mut configs, active, "zzz", String::new(), String::new(), None, 0, None), Err("Unknown provider".to_string()));
    assert_eq!(update_llm_config(&mut configs, 9, "local", String::new(), String::new(), None, 0, None), Err("No active LLM configuration found".to_string()));
    assert_eq!(get_llm_config(&configs, 9).unwrap_err(), "No active LLM configuration found");
    assert_eq!(list_llm_configs(&configs).len(), 2);
}

#[test]
fn registry_remove_and_choose() {
    let mut configs = default_llm_configs();
    let mut active = 0usize;
    add_llm_config(&mut configs, &mut active, "B".to_string(), "openai", "m".to_string(), String::new(), None, 0, None).unwrap();
    add_llm_config(&mut configs, &mut active, "C".to_string(), "openai", "m".to_string(), String::new(), None, 0, None).unwrap();
    assert_eq!(active, 2);
    assert_eq!(remove_llm_config(&mut configs, &mut active, 7), Err("Index out of bounds: 7 (max 2)".to_string()));
    remove_llm_config(&mut configs, &mut active, 0).unwrap();
    assert_eq!(active, 1);
    assert_eq!(configs[active].name, "C");
    set_active_llm(&configs, &mut active, 0).unwrap();
    assert_eq!(configs[active].name, "B");
    assert_eq!(set_active_llm(&configs, &mut active, 5), Err("Index out of bounds: 5 (max 1)".to_string()));
    remove_llm_config(&mut configs, &mut active, 0).unwrap();
    assert_eq!(active, 0);
    assert_eq!(configs[active].name, "C");
    assert_eq!(remove_llm_config(&mut configs, &mut active, 0), Err("Cannot remove the last LLM configuration".to_string()));
    let mut empty = Vec::new();
    let mut a = 0usize;
    assert_eq!(remove_llm_config(&mut empty, &mut a, 0), Err("Index out of bounds: 0 (max 0)".to_string()));
}
