use token_optimizer::cache::{
    calculate_breakpoints, classify_context, reorder_context, BreakpointPosition, CacheCheckResult,
    CacheConfig, CacheOptimizer, CacheableContent, ContentStability,
};
use token_optimizer::hashing::simple_hash;
use token_optimizer::request::{ApiRequest, ContextItem, ContextType};
use token_optimizer::tracker::{CacheMetrics, CacheStatus, CacheTracker};

fn item(name: &str, content: &str, t: ContextType) -> ContextItem {
    ContextItem::new(name.to_string(), content.to_string(), t)
}

#[test]
fn test_content_stability_priority() {
    assert!(ContentStability::Static.cache_priority() < ContentStability::Dynamic.cache_priority());
    assert!(ContentStability::SemiStatic.cache_priority() < ContentStability::Volatile.cache_priority());
}

#[test]
fn test_cache_analysis_minimum() {
    let config = CacheConfig::default();
    let optimizer = CacheOptimizer::new(config);
    let small = "fn main() {}";
    let analysis = optimizer.analyze(small);
    assert!(!analysis.meets_minimum);
    let large = "x".repeat(5000);
    let analysis = optimizer.analyze(&large);
    assert!(analysis.meets_minimum);
}

#[test]
fn analysis_reports_shortfall() {
    let optimizer = CacheOptimizer::new(CacheConfig::default());
    let a = optimizer.analyze(&"y".repeat(400));
    assert_eq!(a.estimated_tokens, 100);
    assert_eq!(a.potential_savings_percent, 0);
    assert_eq!(
        a.suggestions,
        vec!["Content is ~924 tokens short of minimum cache size (1024). Consider combining with other static content.".to_string()]
    );
    let b = optimizer.analyze(&"y".repeat(4096));
    assert_eq!(b.potential_savings_percent, 90);
    assert!(b.suggestions.is_empty());
}

#[test]
fn test_cache_hit() {
    let mut tracker = CacheTracker::new(100, 0);
    let content = "test content";
    let content_hash = simple_hash(content);
    tracker.cache_content("key1", content_hash, 100, false, 0);
    match tracker.check("key1", content_hash, 5) {
        CacheStatus::Hit { tokens, .. } => assert_eq!(tokens, 100),
        _ => panic!("Expected cache hit"),
    }
}

#[test]
fn test_cache_miss() {
    let mut tracker = CacheTracker::new(100, 0);
    match tracker.check("nonexistent", 12345, 0) {
        CacheStatus::Miss => {}
        _ => panic!("Expected cache miss"),
    }
}

#[test]
fn test_cache_stale() {
    let mut tracker = CacheTracker::new(100, 0);
    tracker.cache_content("key1", 11111, 100, false, 0);
    match tracker.check("key1", 22222, 0) {
        CacheStatus::Stale => {}
        _ => panic!("Expected stale status"),
    }
}

#[test]
fn test_metrics_hit_rate() {
    let mut metrics = CacheMetrics::default();
    metrics.record_hit(100);
    metrics.record_hit(100);
    metrics.record_miss(100);
    let rate = metrics.hit_rate_ppm() as f64 / 1_000_000.0;
    assert!((rate - 0.666).abs() < 0.01);
}

#[test]
fn tracker_hit_rate_scenario() {
    let mut t = CacheTracker::new(10, 0);
    t.cache_content("doc", 42, 100, false, 0);
    assert!(matches!(t.check("doc", 42, 10), CacheStatus::Hit { tokens: 100, age_ms: 10 }));
    assert!(matches!(t.check("doc", 42, 30), CacheStatus::Hit { tokens: 100, age_ms: 30 }));
    assert!(matches!(t.check("doc", 7, 40), CacheStatus::Stale));
    let m = t.get_metrics();
    assert_eq!(m.cache_hits, 2);
    assert_eq!(m.cache_misses, 1);
    assert_eq!(m.cached_tokens, 200);
    assert_eq!(m.estimated_savings, 180);
    assert_eq!(m.hit_rate_ppm(), 666_666);
    let s = t.summary(50);
    assert_eq!(s.entry_count, 1);
    assert_eq!(s.session_tokens, 100);
    assert_eq!(s.session_duration_ms, 50);
}

#[test]
fn tracker_eviction_keeps_permanent() {
    let mut t = CacheTracker::new(4, 0);
    t.cache_content("p", 1, 10, true, 0);
    t.cache_content("a", 2, 10, false, 1);
    t.cache_content("b", 3, 10, false, 2);
    t.cache_content("c", 4, 10, false, 3);
    t.cache_content("d", 5, 10, false, 4);
    assert_eq!(t.entry_count(), 4);
    assert!(matches!(t.check("p", 1, 5), CacheStatus::Hit { .. }));
    assert!(matches!(t.check("a", 2, 5), CacheStatus::Miss));
    assert!(matches!(t.check("d", 5, 5), CacheStatus::Hit { .. }));
    t.invalidate("d");
    assert!(matches!(t.check("d", 5, 6), CacheStatus::Miss));
    t.clear();
    assert_eq!(t.entry_count(), 0);
    assert_eq!(t.total_cached_tokens(), 0);
}

#[test]
fn metrics_merge_is_order_free() {
    let mut a = CacheMetrics::default();
    a.record_hit(10);
    let mut b = CacheMetrics::default();
    b.record_miss(3);
    b.record_write(4);
    let mut x = CacheMetrics::default();
    x.merge(&a);
    x.merge(&b);
    let mut y = CacheMetrics::default();
    y.merge(&b);
    y.merge(&a);
    assert_eq!(x, y);
    assert_eq!(x.uncached_tokens, 7);
    assert_eq!(x.estimated_savings, 9);
}

#[test]
fn classify_and_reorder_scenario() {
    let mut readme = item("README.md", "docs", ContextType::Documentation);
    let main = item("main.rs", "fn main() {}", ContextType::File);
    readme.is_static = true;
    let r = reorder_context(vec![main, readme]);
    assert_eq!(r[0].name, "README.md");
    assert_eq!(r[1].name, "main.rs");
    assert!(r[0].is_static);
}

#[test]
fn classification_by_name() {
    assert_eq!(classify_context(&item("types.rs", "", ContextType::File)), ContentStability::SemiStatic);
    assert_eq!(classify_context(&item("Cargo.toml", "", ContextType::File)), ContentStability::SemiStatic);
    assert_eq!(classify_context(&item("my_interface.go", "", ContextType::File)), ContentStability::SemiStatic);
    assert_eq!(classify_context(&item("lib.rs", "", ContextType::File)), ContentStability::Dynamic);
    assert_eq!(classify_context(&item("x", "", ContextType::Snippet)), ContentStability::Dynamic);
    assert_eq!(classify_context(&item("x", "", ContextType::Error)), ContentStability::Volatile);
    assert_eq!(classify_context(&item("x", "", ContextType::Output)), ContentStability::Volatile);
}

#[test]
fn reorder_keeps_order_within_tiers() {
    let items = vec![
        item("e1", "", ContextType::Error),
        item("d1", "", ContextType::Documentation),
        item("s1", "", ContextType::Snippet),
        item("c.json", "", ContextType::File),
        item("d2", "", ContextType::Documentation),
        item("s2", "", ContextType::Snippet),
    ];
    let r = reorder_context(items);
    let names: Vec<&str> = r.iter().map(|c| c.name.as_str()).collect();
    assert_eq!(names, vec!["d1", "d2", "c.json", "s1", "s2", "e1"]);
}

#[test]
fn breakpoint_threshold_boundary() {
    let cfg = CacheConfig::default();
    let below = vec![item("doc", &"a".repeat(4 * 1023), ContextType::Documentation)];
    assert!(calculate_breakpoints(&None, &below, 1023, &cfg).is_empty());
    let at = vec![item("doc", &"a".repeat(4 * 1024), ContextType::Documentation)];
    assert_eq!(calculate_breakpoints(&None, &at, 1024, &cfg), vec![BreakpointPosition::AfterContext(0)]);
}

#[test]
fn optimize_request_places_breakpoints() {
    let opt = CacheOptimizer::new(CacheConfig::default());
    let req = ApiRequest::new("do it".to_string())
        .with_system("s".repeat(4096))
        .with_context(vec![
            item("main.rs", "fn main() {}", ContextType::File),
            item("guide", &"g".repeat(4096), ContextType::Documentation),
        ]);
    let out = opt.optimize_request(req);
    assert_eq!(out.request.context[0].name, "guide");
    assert_eq!(out.breakpoints, vec![BreakpointPosition::AfterSystem, BreakpointPosition::AfterContext(0)]);
    assert_eq!(out.static_tokens, 2048);
    assert_eq!(out.dynamic_tokens, 3 + 1);
    assert_eq!(out.estimated_cache_savings, 1843);
    assert_eq!(out.request.cache_breakpoints, vec![0]);
    assert!(out.request.system_cache_control.is_some());
    assert_eq!(out.request.task, "do it");
}

#[test]
fn breakpoints_respect_cap() {
    let cfg = CacheConfig { max_breakpoints: 1, ..CacheConfig::default() };
    let sys = Some("s".repeat(4096));
    let ctx = vec![item("guide", &"g".repeat(4096), ContextType::Documentation)];
    assert_eq!(calculate_breakpoints(&sys, &ctx, 2048, &cfg), vec![BreakpointPosition::AfterSystem]);
    let none = CacheConfig { max_breakpoints: 0, ..CacheConfig::default() };
    assert!(calculate_breakpoints(&sys, &ctx, 2048, &none).is_empty());
}

#[test]
fn register_and_check_sent_content() {
    let mut opt = CacheOptimizer::new(CacheConfig::default());
    opt.register_sent("k", "abcdefgh");
    assert_eq!(opt.check_cache("k", "abcdefgh"), CacheCheckResult::Hit { tokens_saved: 2 });
    assert_eq!(opt.check_cache("k", "changed"), CacheCheckResult::Modified);
    assert_eq!(opt.check_cache("other", "abcdefgh"), CacheCheckResult::Miss);
}

#[test]
fn cacheable_content_builders() {
    let mut c = CacheableContent::new("12345678".to_string(), ContentStability::Static)
        .with_cache_key("k".to_string())
        .with_breakpoint();
    assert_eq!(c.cache_key.as_deref(), Some("k"));
    assert!(c.cache_breakpoint);
    assert_eq!(c.estimate_tokens(4), 2);
    c.content.push_str("more text");
    assert_eq!(c.estimate_tokens(4), 2);
}

#[test]
fn eviction_removes_a_quarter() {
    let mut t = CacheTracker::new(8, 0);
    for (i, k) in ["a", "b", "c", "d", "e", "f", "g", "h"].iter().enumerate() {
        t.cache_content(k, i as u64, 1, false, i as u64);
    }
    t.cache_content("z", 99, 1, false, 100);
    assert_eq!(t.entry_count(), 7);
    assert!(matches!(t.check("a", 0, 101), CacheStatus::Miss));
    assert!(matches!(t.check("b", 1, 101), CacheStatus::Miss));
    assert!(matches!(t.check("c", 2, 101), CacheStatus::Hit { .. }));
}
