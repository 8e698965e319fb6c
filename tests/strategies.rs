use token_optimizer::strategies::{
    count_tokens, extract_task_keywords, find_best_boundary, normalize_for_dedup, normalized_hash,
    smart_truncate, strip_whitespace,
};

#[test]
fn count_tokens_nonempty() {
    let n = count_tokens("hello world");
    assert!(n > 0, "expected >0 tokens, got {n}");
}

#[test]
fn count_tokens_empty() {
    assert_eq!(count_tokens(""), 0);
}

#[test]
fn boundary_code_structure() {
    let text = "line one\n\nfn foo() {\n    body\n}\n\nfn bar() {\n    body2\n}";
    let pos = find_best_boundary(text, 40);
    let snippet = &text[..pos];
    assert!(
        snippet.contains("fn foo"),
        "expected code boundary before fn bar, got: {snippet}"
    );
}

#[test]
fn boundary_paragraph() {
    let text = "First paragraph here.\n\nSecond paragraph that is longer and goes on.";
    let pos = find_best_boundary(text, 30);
    assert_eq!(&text[..pos], "First paragraph here.");
}

#[test]
fn boundary_sentence() {
    let text = "This is sentence one. This is sentence two that is really long.";
    let pos = find_best_boundary(text, 30);
    let snippet = &text[..pos];
    assert!(
        snippet.ends_with('.'),
        "expected sentence boundary, got: {snippet}"
    );
}

#[test]
fn boundary_line_break() {
    let text = "aaaa bbbb\ncccc dddd eeee ffff";
    let pos = find_best_boundary(text, 15);
    assert_eq!(&text[..pos], "aaaa bbbb");
}

#[test]
fn boundary_word_break() {
    let text = "abcde fghij";
    let pos = find_best_boundary(text, 8);
    assert_eq!(&text[..pos], "abcde");
}

#[test]
fn boundary_hard_cut() {
    let text = "abcdefghijklmnop";
    let pos = find_best_boundary(text, 10);
    assert_eq!(pos, 10);
}

#[test]
fn boundary_clamped_to_text() {
    assert_eq!(find_best_boundary("abc", 100), 3);
    assert_eq!(find_best_boundary("", 5), 0);
}

#[test]
fn truncate_short_text_passthrough() {
    let text = "short";
    assert_eq!(smart_truncate(text, 100), "short");
}

#[test]
fn truncate_respects_boundary() {
    let text = "First paragraph.\n\nSecond paragraph that is much longer than the budget allows.";
    let result = smart_truncate(text, 30);
    assert!(result.contains("...[truncated]"));
    assert!(result.contains("First paragraph."));
}

#[test]
fn truncate_never_splits_characters() {
    let text = "ééééééééééééééééééé";
    let result = smart_truncate(text, 5);
    assert!(result.ends_with("...[truncated]"));
    assert!(result.len() <= 5 + "...[truncated]".len());
}

#[test]
fn normalize_whitespace_invariance() {
    let a = "  hello world  \n\n  foo bar  ";
    let b = "hello world\nfoo bar";
    assert_eq!(normalize_for_dedup(a), normalize_for_dedup(b));
    assert_eq!(normalized_hash(a), normalized_hash(b));
}

#[test]
fn normalize_different_content() {
    let a = "hello world";
    let b = "goodbye world";
    assert_ne!(normalized_hash(a), normalized_hash(b));
}

#[test]
fn normalize_exact_text() {
    assert_eq!(normalize_for_dedup("  a \r\n\n\t b\n"), "a\nb");
    assert_eq!(normalize_for_dedup(""), "");
    assert_eq!(strip_whitespace(" x \n y"), "x\ny");
}

#[test]
fn keywords_filters_stop_words() {
    let kws = extract_task_keywords("Fix the bug in the authentication module");
    assert!(kws.contains(&"fix".to_string()));
    assert!(kws.contains(&"bug".to_string()));
    assert!(kws.contains(&"authentication".to_string()));
    assert!(kws.contains(&"module".to_string()));
    assert!(!kws.contains(&"the".to_string()));
    assert!(!kws.contains(&"in".to_string()));
}

#[test]
fn keywords_short_words_filtered() {
    let kws = extract_task_keywords("do it on me");
    assert!(kws.is_empty());
}

#[test]
fn keywords_exact_order_and_case() {
    let kws = extract_task_keywords("Parse_JSON, then RETRY the Request!");
    assert_eq!(kws, vec!["parse_json".to_string(), "retry".to_string(), "request".to_string()]);
}
