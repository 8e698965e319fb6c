use token_optimizer::optimizer::{OptimizationStats, PromptOptimizer, StrategyOutcome};
use token_optimizer::request::{ApiRequest, ContextItem, ContextType};
use token_optimizer::settings::{OptimizationConfig, StrategyType};
use token_optimizer::strategies::{
    collapse_whitespace, extract_function_signatures, remove_code_comments, strip_whitespace_preserve_code,
};

fn item(name: &str, content: &str) -> ContextItem {
    ContextItem::new(name.to_string(), content.to_string(), ContextType::File)
}

fn config(strategies: Vec<StrategyType>, preserve: bool) -> OptimizationConfig {
    OptimizationConfig { target_tokens: None, strategies, use_local_llm: false, preserve_code_blocks: preserve }
}

#[test]
fn collapse_whitespace_exact() {
    assert_eq!(collapse_whitespace("  a \t\n b   c  "), "a b c");
    assert_eq!(collapse_whitespace(""), "");
}

#[test]
fn comments_removed_strings_kept() {
    let code = "let a = 1; // note\nlet s = \"// not a comment\";\n/* block\n */let b = 2;\n# shell\nx";
    assert_eq!(remove_code_comments(code), "let a = 1; \nlet s = \"// not a comment\";\nlet b = 2;\n\nx");
    assert_eq!(remove_code_comments("'a\\'b' /* open"), "'a\\'b' ");
}

#[test]
fn signatures_extracted() {
    let code = "pub fn run(x: u32) -> u32 {\n    x\n}\n  def go(self):\nconst f = () => {\nstruct P { x: u8 }\nlet y = 1;";
    assert_eq!(
        extract_function_signatures(code),
        "pub fn run(x: u32) -> u32 { ... }\ndef go(self):\nconst f = () => {\nstruct P { ... }"
    );
}

#[test]
fn blank_lines_emptied_code_kept() {
    assert_eq!(strip_whitespace_preserve_code("  fn a() {\n   \n    b\r\n}\n"), "  fn a() {\n\n    b\n}");
    assert_eq!(strip_whitespace_preserve_code(""), "");
}

#[test]
fn strip_whitespace_strategy() {
    let opt = PromptOptimizer::new(config(vec![], false));
    let req = ApiRequest::new("  fix   this ".to_string()).with_context(vec![item("a", "  x  \n\n y ")]);
    let r = opt.strip_whitespace(req);
    assert_eq!(r.task, "fix this");
    assert_eq!(r.context[0].content, "x\ny");
    assert_eq!(r.context[0].name, "a");
}

#[test]
fn abbreviate_task_only() {
    let opt = PromptOptimizer::new(config(vec![], true));
    let req = ApiRequest::new("return the string from this function".to_string()).with_context(vec![item("a", "function")]);
    let r = opt.abbreviate(req);
    assert_eq!(r.task, "ret the str from this fn");
    assert_eq!(r.context[0].content, "function");
}

#[test]
fn deduplicate_exact_and_whitespace() {
    let opt = PromptOptimizer::new(config(vec![], true));
    let req = ApiRequest::new("t".to_string()).with_context(vec![
        item("a", "alpha\nbeta"),
        item("b", "alpha\nbeta"),
        item("c", "  alpha \n\n beta"),
        item("d", "gamma"),
    ]);
    let r = opt.deduplicate(req);
    let names: Vec<&str> = r.context.iter().map(|c| c.name.as_str()).collect();
    assert_eq!(names, vec!["a", "d"]);
}

#[test]
fn truncate_context_to_budget() {
    let mut cfg = config(vec![], true);
    cfg.target_tokens = Some(10);
    let opt = PromptOptimizer::new(cfg);
    let long = "word ".repeat(200);
    let req = ApiRequest::new("t".to_string()).with_context(vec![item("a", &long), item("b", "short")]);
    let r = opt.truncate_context(req);
    assert!(r.context[0].content.ends_with("...[truncated]"));
    assert!(r.context[0].content.len() <= 20 + "...[truncated]".len());
    assert_eq!(r.context[1].content, "short");
}

#[test]
fn optimize_pipeline_reports_applied() {
    let opt = PromptOptimizer::new(config(
        vec![StrategyType::StripWhitespace, StrategyType::LlmCompress, StrategyType::RemoveComments],
        false,
    ));
    let req = ApiRequest::new("task".to_string()).with_context(vec![item("a", "x = 1 // c\n\n\n")]);
    let before = opt.estimate_tokens(&req);
    let (r, stats) = opt.optimize(req);
    assert_eq!(r.context[0].content, "x = 1 ");
    assert_eq!(stats.strategies_applied, vec!["strip_whitespace".to_string(), "remove_comments".to_string()]);
    assert_eq!(stats.original_tokens, before);
    assert!(matches!(opt.apply(StrategyType::RelevanceFilter, ApiRequest::new("t".to_string())), StrategyOutcome::Deferred(_)));
}

#[test]
fn stats_ratio() {
    let s = OptimizationStats::new(200, 50);
    assert_eq!(s.tokens_saved, 150);
    assert_eq!(s.compression_ratio_ppm, 250_000);
    assert_eq!(OptimizationStats::new(0, 0).compression_ratio_ppm, 1_000_000);
}
