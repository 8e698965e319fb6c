use token_optimizer::credit::CreditTracker;
use token_optimizer::metrics::TokenMetrics;
use token_optimizer::error::{classify_status, ApiError};
use token_optimizer::orchestrator::{
    after_fallback_check, after_primary, handoff_request, handoff_task, reset_state, route,
    ClaudeCodeFallback, NextStep, Orchestrator, OrchestratorConfig, OrchestratorState, PrimaryOutcome, Route,
};
use token_optimizer::request::{ApiRequest, ContextItem, ContextType};
use token_optimizer::session::{truncate, Session, SessionConfig, SessionState};
use token_optimizer::usage::{ApiResponse, TokenUsage};

fn response(content: &str, p: u32, c: u32) -> ApiResponse {
    ApiResponse {
        content: content.to_string(),
        usage: TokenUsage::new(p, c),
        model: "m".to_string(),
        truncated: false,
        stop_reason: None,
    }
}

#[test]
fn test_session_creation() {
    let session = Session::new("test-1".to_string(), SessionConfig::default(), "Venice".to_string(), 0);
    assert_eq!(session.state(), SessionState::Active);
    assert_eq!(session.current_provider(), "Venice");
}

#[test]
fn test_session_handoff() {
    let mut session = Session::new("test-2".to_string(), SessionConfig::default(), "Venice".to_string(), 0);
    session.handoff("Fallback CLI");
    assert_eq!(session.state(), SessionState::HandedOff);
    assert_eq!(session.current_provider(), "Fallback CLI");
}

#[test]
fn history_is_bounded() {
    let cfg = SessionConfig { max_history: 3, ..SessionConfig::default() };
    let mut s = Session::new("s".to_string(), cfg, "Venice".to_string(), 0);
    for i in 0..5u32 {
        let req = ApiRequest::new(format!("task {i}"));
        s.record_turn(&req, &response("ok", i, 1), "Venice", i as u64);
        assert!(s.history().len() <= 3);
    }
    assert_eq!(s.history().len(), 3);
    assert_eq!(s.history()[0].request_summary, "task 2");
    assert_eq!(s.history()[2].request_summary, "task 4");
    assert_eq!(s.stats(0).total_tokens, (0 + 1 + 2 + 3 + 4) + 5);
}

#[test]
fn summaries_are_truncated() {
    let mut s = Session::new("s".to_string(), SessionConfig::default(), "Venice".to_string(), 0);
    let req = ApiRequest::new("t".repeat(250));
    s.record_turn(&req, &response(&"r".repeat(600), 1, 1), "Venice", 0);
    let t = &s.history()[0];
    assert_eq!(t.request_summary, format!("{}...", "t".repeat(200)));
    assert_eq!(t.response_summary, format!("{}...", "r".repeat(500)));
    assert_eq!(truncate("abc", 2), "ab...");
    assert_eq!(truncate("abc", 3), "abc");
}

#[test]
fn handoff_context_text() {
    let cfg = SessionConfig { compress_history: false, ..SessionConfig::default() };
    let mut s = Session::new("s".to_string(), cfg, "Venice".to_string(), 0);
    assert_eq!(s.get_handoff_context(), "");
    s.record_turn(&ApiRequest::new("q1".to_string()), &response("a1", 1, 1), "Venice", 0);
    assert_eq!(
        s.get_handoff_context(),
        "## Previous Conversation Summary\n\n**Turn 1 (Venice):**\n- Request: q1\n- Response: a1\n\n"
    );
}

#[test]
fn compressed_handoff_keeps_key_turns() {
    let mut s = Session::new("s".to_string(), SessionConfig::default(), "Venice".to_string(), 0);
    for i in 0..5 {
        s.record_turn(&ApiRequest::new(format!("q{i}")), &response("a", 1, 1), "P", 0);
    }
    let text = s.get_handoff_context();
    assert!(text.contains("**Turn 1 (P)"));
    assert!(!text.contains("**Turn 2 (P)"));
    assert!(!text.contains("**Turn 3 (P)"));
    assert!(text.contains("**Turn 4 (P)"));
    assert!(text.contains("**Turn 5 (P)"));
}

#[test]
fn context_deduplicated_by_name() {
    let mut s = Session::new("s".to_string(), SessionConfig::default(), "Venice".to_string(), 0);
    s.add_context(ContextItem::new("a".to_string(), "1".to_string(), ContextType::File));
    s.add_context(ContextItem::new("a".to_string(), "2".to_string(), ContextType::File));
    s.add_context(ContextItem::new("b".to_string(), "3".to_string(), ContextType::File));
    assert_eq!(s.stats(0).context_items, 2);
}

#[test]
fn session_expiry() {
    let cfg = SessionConfig { timeout_secs: Some(10), ..SessionConfig::default() };
    let s = Session::new("s".to_string(), cfg, "Venice".to_string(), 1_000);
    assert!(!s.is_expired(11_000));
    assert!(s.is_expired(12_000));
    let st = s.stats(3_500);
    assert_eq!(st.duration_secs, 2);
    assert_eq!(st.id, "s");
    assert_eq!(st.initial_provider, "Venice");
}

#[test]
fn exhaustion_hands_off_to_fallback() {
    let cfg = OrchestratorConfig::default();
    let (state, step) = after_primary(OrchestratorState::UsingVenice, &cfg, 0, PrimaryOutcome::Failed(ApiError::Exhausted));
    assert_eq!(state, OrchestratorState::UsingFallback);
    assert!(matches!(step, NextStep::Fallback { handoff: true }));
    let req = handoff_request(ApiRequest::new("fix it".to_string()), 3, cfg.preserve_context);
    assert_eq!(req.task, "\n\n[Session handoff from Venice.ai - 3 previous responses in context]\nfix it");
    assert_eq!(route(state), Route::Fallback);
}

#[test]
fn handoff_without_history_keeps_task() {
    assert_eq!(handoff_task("t", 0, true), "t");
    assert_eq!(handoff_task("t", 5, false), "t");
}

#[test]
fn rate_limit_retries_then_falls_back() {
    let cfg = OrchestratorConfig::default();
    let rl = || PrimaryOutcome::Failed(ApiError::RateLimited { retry_after_secs: 7 });
    let (_, step) = after_primary(OrchestratorState::UsingVenice, &cfg, 0, rl());
    assert!(matches!(step, NextStep::Retry { after_secs: 7 }));
    let (s, step) = after_primary(OrchestratorState::UsingVenice, &cfg, 2, rl());
    assert_eq!(s, OrchestratorState::UsingVenice);
    assert!(matches!(step, NextStep::Fallback { handoff: false }));
}

#[test]
fn other_errors_retry_then_fail() {
    let cfg = OrchestratorConfig::default();
    let e = || PrimaryOutcome::Failed(ApiError::Http("reset".to_string()));
    assert!(matches!(after_primary(OrchestratorState::VeniceLow, &cfg, 1, e()).1, NextStep::Retry { after_secs: 1 }));
    assert!(matches!(after_primary(OrchestratorState::VeniceLow, &cfg, 2, e()).1, NextStep::Fail(ApiError::Http(_))));
}

#[test]
fn low_balance_marks_state() {
    let cfg = OrchestratorConfig::default();
    let ok = |u, d| PrimaryOutcome::Succeeded { balance_usd: u, balance_diem: d };
    assert_eq!(after_primary(OrchestratorState::UsingVenice, &cfg, 0, ok(50_000, 50_000)).0, OrchestratorState::VeniceLow);
    assert_eq!(after_primary(OrchestratorState::UsingVenice, &cfg, 0, ok(50_000, 500_000)).0, OrchestratorState::UsingVenice);
}

#[test]
fn unavailable_fallback() {
    let (s, r) = after_fallback_check(OrchestratorState::UsingFallback, false, "cli");
    assert_eq!(s, OrchestratorState::Unavailable);
    assert!(matches!(r, Err(ApiError::FallbackUnavailable(n)) if n == "cli"));
    assert_eq!(route(s), Route::Refuse);
    assert_eq!(reset_state(OrchestratorState::UsingFallback, true), OrchestratorState::UsingFallback);
    assert_eq!(reset_state(OrchestratorState::UsingFallback, false), OrchestratorState::UsingVenice);
}

#[test]
fn exhaustion_persists_until_reset() {
    let mut c = CreditTracker::new(100_000, 100_000);
    assert!(c.admit_request().is_ok());
    c.update_balance(10, 10, 1);
    assert!(c.is_exhausted());
    c.update_balance(5_000_000, 5_000_000, 2);
    assert!(c.is_exhausted());
    assert!(matches!(c.admit_request(), Err(ApiError::Exhausted)));
    c.reset();
    assert!(!c.is_exhausted());
    assert!(matches!(c.observe_status(429, "insufficient balance"), Err(ApiError::Exhausted)));
    assert!(c.is_exhausted());
}

#[test]
fn status_classification() {
    assert!(classify_status(200, "").is_ok());
    assert!(matches!(classify_status(401, "no"), Err(ApiError::Auth(m)) if m == "no"));
    assert!(matches!(classify_status(429, "slow down"), Err(ApiError::RateLimited { retry_after_secs: 60 })));
    assert!(matches!(classify_status(429, "quota exceeded"), Err(ApiError::Exhausted)));
    assert!(matches!(classify_status(500, "boom"), Err(ApiError::Provider(m)) if m == "500: boom"));
}

#[test]
fn cli_fallback_builder() {
    let f = ClaudeCodeFallback::new("agent".to_string());
    assert_eq!(f.command(), "agent");
    let f = f.with_command("my-cli".to_string()).with_working_dir("/tmp".to_string());
    assert_eq!(f.command(), "my-cli");
    assert_eq!(f.working_dir().map(|s| s.as_str()), Some("/tmp"));
}

#[test]
fn orchestrator_hands_off_after_exhaustion() {
    let mut o = Orchestrator::new(OrchestratorConfig::default());
    assert_eq!(o.route(), Route::Primary);
    let ok = PrimaryOutcome::Succeeded { balance_usd: 5_000_000, balance_diem: 5_000_000 };
    let r = response("first", 2, 3);
    assert!(matches!(o.after_primary_attempt(0, ok, Some(&r)), NextStep::Deliver));
    assert_eq!(o.metrics().total_input_tokens, 2);
    let step = o.after_primary_attempt(0, PrimaryOutcome::Failed(ApiError::Exhausted), None);
    assert!(matches!(step, NextStep::Fallback { handoff: true }));
    assert_eq!(o.state(), OrchestratorState::UsingFallback);
    let req = o.fallback_request(ApiRequest::new("next".to_string()), true);
    assert_eq!(req.task, "\n\n[Session handoff from Venice.ai - 1 previous responses in context]\nnext");
    assert!(o.fallback_checked(false, "cli").is_err());
    assert_eq!(o.route(), Route::Refuse);
    o.reset_to_venice(false);
    assert_eq!(o.state(), OrchestratorState::UsingVenice);
    o.force_fallback();
    assert_eq!(o.route(), Route::Fallback);
}

#[test]
fn auth_errors_are_not_retried() {
    let cfg = OrchestratorConfig::default();
    let (s, step) = after_primary(OrchestratorState::UsingVenice, &cfg, 0, PrimaryOutcome::Failed(ApiError::Auth("denied".to_string())));
    assert_eq!(s, OrchestratorState::UsingVenice);
    assert!(matches!(step, NextStep::Fail(ApiError::Auth(m)) if m == "denied"));
}

#[test]
fn observe_status_forwards_classification() {
    let mut c = CreditTracker::new(0, 0);
    assert!(matches!(c.observe_status(403, "no key"), Err(ApiError::Auth(m)) if m == "no key"));
    assert!(matches!(c.observe_status(502, "bad gateway"), Err(ApiError::Provider(m)) if m == "502: bad gateway"));
    assert!(!c.is_exhausted());
}

#[test]
fn session_counters_follow_requests() {
    let mut m = TokenMetrics::new();
    m.start_session("s1", 5);
    m.start_session("s2", 6);
    m.record_session_request("s1", 10, 20, 3);
    m.record_session_request("s1", 1, 2, 0);
    m.record_session_request("nobody", 7, 7, 7);
    let s1 = m.session("s1").unwrap();
    assert_eq!((s1.input_tokens, s1.output_tokens, s1.tokens_saved, s1.request_count), (11, 22, 3, 2));
    assert_eq!(s1.start_time_ms, Some(5));
    assert_eq!(m.session("s2").unwrap().request_count, 0);
    assert_eq!(m.total_input_tokens, 18);
    assert_eq!(m.request_count, 3);
    m.start_session("s1", 9);
    assert_eq!(m.session("s1").unwrap().input_tokens, 0);
    let ended = m.end_session("s2").unwrap();
    assert_eq!(ended.session_id, "s2");
    assert!(m.session("s2").is_none());
    assert!(m.end_session("s2").is_none());
}
