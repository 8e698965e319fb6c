use token_optimizer::adapter::{endpoint, stream_format, venice_chat_url, venice_rate_limits_url};
use token_optimizer::credit::CreditTracker;
use token_optimizer::error::ApiError;
use token_optimizer::sse::SseFormat;
use token_optimizer::wire::ProviderType;
use token_optimizer::commands::{has_markdown_elements, parse_command, ContextAction, PromptHandler, SlashCommand};
use token_optimizer::json::parse_json;
use token_optimizer::request::{ApiRequest, ContextItem, ContextType, Message, Role};
use token_optimizer::settings::VeniceModel;
use token_optimizer::usage::TokenUsage;
use token_optimizer::wire::{anthropic_messages, anthropic_system, cli_prompt, openai_messages, parse_claude_response, parse_openai_response, WireContent};

#[test]
fn test_venice_model_ids() {
    assert_eq!(VeniceModel::Llama3_3_70B.model_id(), "llama-3.3-70b");
    assert_eq!(VeniceModel::VeniceSmall.model_id(), "venice-small");
}

#[test]
fn task_only_request_is_single_user_message() {
    let req = ApiRequest::new("hello".to_string());
    let a = anthropic_messages(&req);
    assert_eq!(a.len(), 1);
    assert_eq!(a[0].role, Role::User);
    assert!(matches!(&a[0].content, WireContent::Text(t) if t == "hello"));
    assert!(anthropic_system(&req).is_none());
    let o = openai_messages(&req);
    assert_eq!(o.len(), 1);
    assert!(matches!(&o[0].content, WireContent::Text(t) if t == "hello"));
}

#[test]
fn anthropic_marks_breakpoints_and_flags() {
    let mut req = ApiRequest::new("task".to_string())
        .with_cached_system("sys".to_string())
        .with_context(vec![
            ContextItem::new("a".to_string(), "A".to_string(), ContextType::File),
            ContextItem::new("b".to_string(), "B".to_string(), ContextType::File),
            ContextItem::new("c".to_string(), "C".to_string(), ContextType::File),
        ])
        .with_cache_breakpoints(vec![0]);
    req.mark_context_static(2);
    req.messages.push(Message { role: Role::System, content: "hidden".to_string() });
    req.messages.push(Message { role: Role::Assistant, content: "earlier".to_string() });
    let m = anthropic_messages(&req);
    assert_eq!(m.len(), 3);
    match &m[0].content {
        WireContent::Blocks(bs) => {
            assert_eq!(bs.len(), 3);
            assert_eq!(bs[0].text, "### a\n```\nA\n```");
            assert_eq!(bs.iter().map(|b| b.cached).collect::<Vec<_>>(), vec![true, false, true]);
        }
        _ => panic!("expected blocks"),
    }
    assert_eq!(m[1].role, Role::Assistant);
    assert!(matches!(&m[2].content, WireContent::Text(t) if t == "task"));
    assert!(matches!(anthropic_system(&req), Some(WireContent::Blocks(bs)) if bs.len() == 1 && bs[0].cached && bs[0].text == "sys"));
}

#[test]
fn openai_shape() {
    let mut req = ApiRequest::new("task".to_string()).with_system("sys".to_string()).with_context(vec![
        ContextItem::new("a".to_string(), "A".to_string(), ContextType::File),
        ContextItem::new("b".to_string(), "B".to_string(), ContextType::Snippet),
    ]);
    req.messages.push(Message { role: Role::User, content: "before".to_string() });
    let m = openai_messages(&req);
    assert_eq!(m.len(), 4);
    assert_eq!(m[0].role, Role::System);
    assert!(matches!(&m[1].content, WireContent::Text(t) if t == "Context:\n### a\n```\nA\n```\n\n### b\n```\nB\n```"));
    assert!(matches!(&m[2].content, WireContent::Text(t) if t == "before"));
    assert!(matches!(&m[3].content, WireContent::Text(t) if t == "task"));
}

#[test]
fn cli_prompt_text() {
    let req = ApiRequest::new("go".to_string()).with_context(vec![ContextItem::new("f".to_string(), "x".to_string(), ContextType::File)]);
    assert_eq!(cli_prompt(&req), "Context:\n### f\n```\nx\n```\n\nTask: go");
    assert_eq!(cli_prompt(&ApiRequest::new("go".to_string())), "Task: go");
}

#[test]
fn response_round_trip_is_stable() {
    let body = r#"{"content":[{"text":"hi"}],"model":"model-x","stop_reason":"max_tokens","usage":{"input_tokens":3,"output_tokens":4,"cache_read_input_tokens":2}}"#;
    let a = parse_claude_response(&parse_json(body).unwrap());
    let b = parse_claude_response(&parse_json(body).unwrap());
    assert_eq!(a.content, "hi");
    assert_eq!(a.model, "model-x");
    assert!(a.truncated);
    assert_eq!(a.usage, TokenUsage::with_cache(3, 4, None, Some(2)));
    assert_eq!(a.usage, b.usage);
    assert_eq!(a.content, b.content);
    let body = r#"{"choices":[{"message":{"content":"yo"},"finish_reason":"length"}],"model":"gpt","usage":{"prompt_tokens":1,"completion_tokens":2}}"#;
    let o = parse_openai_response(&parse_json(body).unwrap());
    assert_eq!(o.content, "yo");
    assert!(o.truncated);
    assert_eq!(o.usage.total_tokens, 3);
}

#[test]
fn usage_sum_and_cache_figures() {
    let u = TokenUsage::new(u32::MAX, u32::MAX);
    assert_eq!(u.total_tokens, 2 * u32::MAX as u64);
    let c = TokenUsage::with_cache(1, 2, Some(5), None);
    assert!(c.has_cache_activity());
    assert_eq!(c.cache_savings(), 0);
    assert!(!TokenUsage::default().has_cache_activity());
}

#[test]
fn optimize_for_caching_moves_static_first() {
    let mut req = ApiRequest::new("t".to_string()).with_context(vec![
        ContextItem::new("x".to_string(), "".to_string(), ContextType::File),
        ContextItem::new("y".to_string(), "".to_string(), ContextType::File),
    ]);
    req.mark_context_static(1);
    req.optimize_for_caching();
    assert_eq!(req.context[0].name, "y");
    assert_eq!(req.cache_breakpoints, vec![0]);
}

#[test]
fn slash_commands() {
    assert!(matches!(parse_command("  /HELP "), Some(SlashCommand::Help)));
    assert!(matches!(parse_command("/model gpt-4"), Some(SlashCommand::Model(Some(m))) if m == "gpt-4"));
    assert!(matches!(parse_command("/provider"), Some(SlashCommand::Provider(None))));
    assert!(matches!(parse_command("/ctx add src/main.rs"), Some(SlashCommand::Context(ContextAction::Add(p))) if p == "src/main.rs"));
    assert!(matches!(parse_command("/context rm"), Some(SlashCommand::Context(ContextAction::List))));
    assert!(matches!(parse_command("/context"), Some(SlashCommand::Context(ContextAction::List))));
    assert!(matches!(parse_command("/context notes.md"), Some(SlashCommand::Context(ContextAction::Add(p))) if p == "notes.md"));
    assert!(parse_command("hello").is_none());
    assert!(parse_command("/unknown").is_none());
}

#[test]
fn prompt_history() {
    let mut h = PromptHandler::new();
    assert_eq!(h.record("  hi  "), "hi");
    assert_eq!(h.record("   "), "");
    assert_eq!(h.history_len(), 1);
    assert_eq!(h.history()[0], "hi");
}

#[test]
fn endpoints_per_provider() {
    let e = endpoint(ProviderType::OpenAI, &None, "k").unwrap();
    assert_eq!(e.url, "https://api.openai.com/v1/chat/completions");
    assert_eq!(e.auth, Some(("Authorization".to_string(), "Bearer k".to_string())));
    let e = endpoint(ProviderType::Ollama, &None, "k").unwrap();
    assert_eq!(e.url, "http://localhost:11434/api/chat");
    assert!(e.auth.is_none());
    let e = endpoint(ProviderType::Claude, &Some("http://proxy/messages".to_string()), "k").unwrap();
    assert_eq!(e.url, "http://proxy/messages");
    assert_eq!(e.auth, Some(("x-api-key".to_string(), "k".to_string())));
    assert!(matches!(endpoint(ProviderType::Custom, &None, "k"), Err(ApiError::Provider(m)) if m == "Custom provider requires base_url"));
    assert_eq!(stream_format(ProviderType::Claude), SseFormat::Anthropic);
    assert_eq!(stream_format(ProviderType::Custom), SseFormat::OpenAI);
    assert_eq!(venice_chat_url(&None), "https://api.venice.ai/api/v1/chat/completions");
    assert_eq!(venice_rate_limits_url(&Some("http://x".to_string())), "http://x/api_keys/rate_limits");
}

#[test]
fn header_balances_update_tracker() {
    let mut c = CreditTracker::new(100_000, 100_000);
    c.update_from_headers(Some(500_000), Some(500_000), 6);
    assert!(!c.is_exhausted());
    c.update_from_headers(Some(50_000), None, 7);
    assert!(!c.is_exhausted());
    assert_eq!(c.get_balance().balance_usd, 50_000);
    assert_eq!(c.get_balance().last_updated_ms, Some(7));
    c.update_from_headers(None, Some(90_000), 8);
    assert!(c.is_exhausted());
    assert!(c.get_balance().exhausted);
}

#[test]
fn markdown_detection() {
    assert!(has_markdown_elements("# Title"));
    assert!(has_markdown_elements("a **b**"));
    assert!(!has_markdown_elements("plain text"));
}
