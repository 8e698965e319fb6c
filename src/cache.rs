//! Cache-aware prompt structuring: stability tiers, reordering for a stable
//! prefix, and placement of cache breakpoints.

use vstd::prelude::*;
use vstd::multiset::Multiset;
use vstd::string::StringSliceAdditionalSpecFns;
use crate::hashing::{fingerprint, simple_hash};
use crate::json::same_text;
use crate::request::{ApiRequest, CacheControl, CacheControlType, ContextItem, ContextType};
use crate::error::{decimal, decimal_text};
use crate::text::{contains, ends_with, has_substring, has_suffix, push_text};

verus! {

/// Fewest tokens a provider will cache as one block.
pub const MIN_CACHE_TOKENS: usize = 1024;

/// How often a piece of prompt is expected to change.
#[derive(Debug, Clone, Copy, PartialEq, Eq, Structural)]
pub enum ContentStability {
    /// Never changes (system prompts, documentation).
    Static,
    /// Changes rarely (type definitions, configuration).
    SemiStatic,
    /// May change between requests (current files, snippets).
    Dynamic,
    /// Always changes (errors, output, the task).
    Volatile,
}

impl ContentStability {
    pub open spec fn priority(self) -> u8 {
        match self {
            ContentStability::Static => 0,
            ContentStability::SemiStatic => 1,
            ContentStability::Dynamic => 2,
            ContentStability::Volatile => 3,
        }
    }

    /// Sort key: lower comes first and is more cacheable.
    pub fn cache_priority(&self) -> (r: u8)
        ensures
            r == self.priority(),
    {
        match self {
            ContentStability::Static => 0,
            ContentStability::SemiStatic => 1,
            ContentStability::Dynamic => 2,
            ContentStability::Volatile => 3,
        }
    }
}

pub open spec fn is_cacheable(t: ContentStability) -> bool {
    t == ContentStability::Static || t == ContentStability::SemiStatic
}

/// File names of type definitions and configuration.
pub open spec fn is_semi_static_name(n: Seq<char>) -> bool {
    ends_with(n, ".d.ts"@) || ends_with(n, "types.rs"@) || ends_with(n, "types.py"@) || ends_with(
        n,
        "schema.prisma"@,
    ) || contains(n, "interface"@) || ends_with(n, ".json"@) || ends_with(n, ".toml"@)
        || ends_with(n, ".yaml"@) || ends_with(n, ".yml"@)
}

/// The stability tier of a context item.
pub open spec fn tier_of(c: ContextItem) -> ContentStability {
    match c.item_type {
        ContextType::Documentation => ContentStability::Static,
        ContextType::File => if is_semi_static_name(c.name@) {
            ContentStability::SemiStatic
        } else {
            ContentStability::Dynamic
        },
        ContextType::Snippet => ContentStability::Dynamic,
        ContextType::Error | ContextType::Output => ContentStability::Volatile,
    }
}

fn is_semi_static_file(name: &String) -> (r: bool)
    ensures
        r == is_semi_static_name(name@),
{
    let n = name.as_str();
    has_suffix(n, ".d.ts") || has_suffix(n, "types.rs") || has_suffix(n, "types.py") || has_suffix(
        n,
        "schema.prisma",
    ) || has_substring(n, "interface") || has_suffix(n, ".json") || has_suffix(n, ".toml")
        || has_suffix(n, ".yaml") || has_suffix(n, ".yml")
}

/// Classifies a context item by its type and name.
pub fn classify_context(item: &ContextItem) -> (r: ContentStability)
    ensures
        r == tier_of(*item),
{
    match item.item_type {
        ContextType::Documentation => ContentStability::Static,
        ContextType::File => if is_semi_static_file(&item.name) {
            ContentStability::SemiStatic
        } else {
            ContentStability::Dynamic
        },
        ContextType::Snippet => ContentStability::Dynamic,
        ContextType::Error | ContextType::Output => ContentStability::Volatile,
    }
}

/// The items of one tier, in their original order.
pub open spec fn tier_items(s: Seq<ContextItem>, t: ContentStability) -> Seq<ContextItem> {
    s.filter(|c: ContextItem| tier_of(c) == t)
}

/// The context reordered tier by tier, each tier in its original order.
pub open spec fn reordered(s: Seq<ContextItem>) -> Seq<ContextItem> {
    tier_items(s, ContentStability::Static) + tier_items(s, ContentStability::SemiStatic)
        + tier_items(s, ContentStability::Dynamic) + tier_items(s, ContentStability::Volatile)
}

/// Stably reorders context items so that Static precede SemiStatic precede
/// Dynamic precede Volatile.
pub fn reorder_context(items: Vec<ContextItem>) -> (r: Vec<ContextItem>)
    ensures
        r@ == reordered(items@),
{
    let ghost orig = items@;
    let mut t0: Vec<ContextItem> = Vec::new();
    let mut t1: Vec<ContextItem> = Vec::new();
    let mut t2: Vec<ContextItem> = Vec::new();
    let mut t3: Vec<ContextItem> = Vec::new();
    for item in iter: items
        invariant
            iter.seq() == orig,
            t0@ == tier_items(orig.subrange(0, iter.index() as int), ContentStability::Static),
            t1@ == tier_items(orig.subrange(0, iter.index() as int), ContentStability::SemiStatic),
            t2@ == tier_items(orig.subrange(0, iter.index() as int), ContentStability::Dynamic),
            t3@ == tier_items(orig.subrange(0, iter.index() as int), ContentStability::Volatile),
    {
        proof {
            assert(orig.subrange(0, iter.index() + 1).drop_last() == orig.subrange(
                0,
                iter.index() as int,
            ));
            reveal(Seq::filter);
        }
        match classify_context(&item) {
            ContentStability::Static => t0.push(item),
            ContentStability::SemiStatic => t1.push(item),
            ContentStability::Dynamic => t2.push(item),
            ContentStability::Volatile => t3.push(item),
        }
    }
    proof {
        assert(orig.subrange(0, orig.len() as int) == orig);
    }
    t0.append(&mut t1);
    t0.append(&mut t2);
    t0.append(&mut t3);
    t0
}

/// Tuning of the optimizer.
#[derive(Debug, Clone, Copy, PartialEq, Eq, Structural)]
pub struct CacheConfig {
    /// Fewest tokens worth a breakpoint.
    pub min_cache_tokens: usize,
    /// The provider's cap on breakpoints.
    pub max_breakpoints: usize,
    /// Whether to reorder context into stability tiers.
    pub auto_reorder: bool,
    pub pad_to_minimum: bool,
    /// Bytes counted as one token when estimating.
    pub bytes_per_token: usize,
}

impl CacheConfig {
    pub open spec fn wf(&self) -> bool {
        self.bytes_per_token > 0
    }
}

impl Default for CacheConfig {
    fn default() -> (r: Self)
        ensures
            r.wf(),
            r.min_cache_tokens == MIN_CACHE_TOKENS,
            r.max_breakpoints == 4,
            r.auto_reorder,
            !r.pad_to_minimum,
            r.bytes_per_token == 4,
    {
        CacheConfig {
            min_cache_tokens: MIN_CACHE_TOKENS,
            max_breakpoints: 4,
            auto_reorder: true,
            pad_to_minimum: false,
            bytes_per_token: 4,
        }
    }
}

/// Length of a text in UTF-8 bytes.
pub open spec fn byte_len(t: Seq<char>) -> nat {
    vstd::utf8::encode_utf8(t).len()
}

/// Estimated tokens of a text.
pub open spec fn estimate(t: Seq<char>, per: usize) -> nat {
    byte_len(t) / (per as nat)
}

pub fn estimate_text(s: &str, per: usize) -> (r: usize)
    requires
        per > 0,
    ensures
        r == estimate(s@, per),
{
    let b = s.as_bytes();
    b.len() / per
}

/// Addition that stops at the largest `usize`.
pub open spec fn sat(a: nat, b: nat) -> nat {
    if a + b > usize::MAX {
        usize::MAX as nat
    } else {
        a + b
    }
}

/// Estimated tokens of the items of a context that satisfy a tier test.
pub open spec fn tier_tokens(s: Seq<ContextItem>, per: usize, cacheable: bool) -> nat
    decreases s.len(),
{
    if s.len() == 0 {
        0
    } else {
        sat(
            tier_tokens(s.drop_last(), per, cacheable),
            if is_cacheable(tier_of(s.last())) == cacheable {
                estimate(s.last().content@, per)
            } else {
                0
            },
        )
    }
}

/// Number of leading items from `i` on that belong to a cacheable tier.
pub open spec fn run_end(s: Seq<ContextItem>, i: int) -> int
    decreases s.len() - i,
{
    if 0 <= i < s.len() && is_cacheable(tier_of(s[i])) {
        run_end(s, i + 1)
    } else {
        i
    }
}

/// Estimated tokens of `s[0..k]`.
pub open spec fn prefix_tokens(s: Seq<ContextItem>, k: int, per: usize) -> nat
    decreases k,
{
    if k <= 0 {
        0
    } else {
        sat(prefix_tokens(s, k - 1, per), estimate(s[k - 1].content@, per))
    }
}

/// Where a cache marker goes.
#[derive(Debug, Clone, Copy, PartialEq, Eq, Structural)]
pub enum BreakpointPosition {
    AfterSystem,
    AfterContext(usize),
    AfterAllContext,
}

/// Whether the system prompt alone earns a breakpoint.
pub open spec fn system_earns(system: Option<String>, cfg: CacheConfig) -> bool {
    system is Some && estimate(system->0@, cfg.bytes_per_token) >= cfg.min_cache_tokens
        && cfg.max_breakpoints > 0
}

/// The breakpoints for a (possibly reordered) request whose cacheable
/// content totals `static_tokens`: one after the system prompt when it alone
/// reaches the threshold, and one after the last item of the leading run of
/// Static/SemiStatic items when that run reaches it, never more than the cap.
pub open spec fn planned_breakpoints(
    system: Option<String>,
    ctx: Seq<ContextItem>,
    static_tokens: nat,
    cfg: CacheConfig,
) -> Seq<BreakpointPosition> {
    let sys: Seq<BreakpointPosition> = if system_earns(system, cfg) {
        seq![BreakpointPosition::AfterSystem]
    } else {
        seq![]
    };
    let run = run_end(ctx, 0);
    if static_tokens < cfg.min_cache_tokens {
        seq![]
    } else if sys.len() < cfg.max_breakpoints && run > 0 && prefix_tokens(ctx, run, cfg.bytes_per_token)
        >= cfg.min_cache_tokens {
        sys.push(BreakpointPosition::AfterContext((run - 1) as usize))
    } else {
        sys
    }
}

/// Places the breakpoints of `planned_breakpoints`.
pub fn calculate_breakpoints(
    system: &Option<String>,
    ctx: &Vec<ContextItem>,
    static_tokens: usize,
    cfg: &CacheConfig,
) -> (r: Vec<BreakpointPosition>)
    requires
        cfg.wf(),
    ensures
        r@ == planned_breakpoints(*system, ctx@, static_tokens as nat, *cfg),
        r@.len() <= cfg.max_breakpoints,
{
    let mut out: Vec<BreakpointPosition> = Vec::new();
    if static_tokens < cfg.min_cache_tokens {
        return out;
    }
    if let Some(s) = system {
        if cfg.max_breakpoints > 0 && estimate_text(s.as_str(), cfg.bytes_per_token)
            >= cfg.min_cache_tokens {
            out.push(BreakpointPosition::AfterSystem);
        }
    }
    let ghost sys = out@;
    if out.len() < cfg.max_breakpoints {
        let mut cum: usize = 0;
        let mut idx: usize = 0;
        while idx < ctx.len() && is_cacheable_tier(classify_context(&ctx[idx]))
            invariant
                idx <= ctx@.len(),
                run_end(ctx@, 0) == run_end(ctx@, idx as int),
                cum == prefix_tokens(ctx@, idx as int, cfg.bytes_per_token),
                cfg.wf(),
            decreases ctx@.len() - idx,
        {
            let t = estimate_text(ctx[idx].content.as_str(), cfg.bytes_per_token);
            cum = cum.saturating_add(t);
            idx = idx + 1;
        }
        if idx > 0 && cum >= cfg.min_cache_tokens {
            out.push(BreakpointPosition::AfterContext(idx - 1));
        }
    }
    out
}

fn is_cacheable_tier(t: ContentStability) -> (r: bool)
    ensures
        r == is_cacheable(t),
{
    t == ContentStability::Static || t == ContentStability::SemiStatic
}

/// Estimated cacheable and other tokens of a context.
pub fn tier_totals(ctx: &Vec<ContextItem>, per: usize) -> (r: (usize, usize))
    requires
        per > 0,
    ensures
        r.0 == tier_tokens(ctx@, per, true),
        r.1 == tier_tokens(ctx@, per, false),
{
    let mut a: usize = 0;
    let mut b: usize = 0;
    let mut i: usize = 0;
    while i < ctx.len()
        invariant
            per > 0,
            i <= ctx@.len(),
            a == tier_tokens(ctx@.subrange(0, i as int), per, true),
            b == tier_tokens(ctx@.subrange(0, i as int), per, false),
        decreases ctx@.len() - i,
    {
        proof {
            assert(ctx@.subrange(0, i + 1).drop_last() == ctx@.subrange(0, i as int));
        }
        let t = estimate_text(ctx[i].content.as_str(), per);
        if is_cacheable_tier(classify_context(&ctx[i])) {
            a = a.saturating_add(t);
            b = b.saturating_add(0);
        } else {
            a = a.saturating_add(0);
            b = b.saturating_add(t);
        }
        i = i + 1;
    }
    proof {
        assert(ctx@.subrange(0, ctx@.len() as int) == ctx@);
    }
    (a, b)
}

/// Nine tenths of a token count, rounded down.
pub fn nine_tenths(n: usize) -> (r: usize)
    ensures
        r == (n as int * 9) / 10,
{
    let q = n / 10;
    let m = n % 10;
    let r = q * 9 + (m * 9) / 10;
    proof {
        assert(n as int == q * 10 + m);
        assert((n as int * 9) / 10 == q * 9 + (m * 9) / 10) by (nonlinear_arith)
            requires
                n as int == q * 10 + m,
                0 <= m < 10,
        ;
    }
    r
}

/// The context indices among breakpoints, in order.
pub open spec fn context_marks(bps: Seq<BreakpointPosition>) -> Seq<usize>
    decreases bps.len(),
{
    if bps.len() == 0 {
        Seq::<usize>::empty()
    } else {
        context_marks(bps.drop_last()) + match bps.last() {
            BreakpointPosition::AfterContext(i) => seq![i],
            _ => Seq::<usize>::empty(),
        }
    }
}

/// The request annotations for breakpoints: the context indices to mark,
/// and whether the system prompt is marked.
fn annotations(bps: &Vec<BreakpointPosition>) -> (r: (Vec<usize>, bool))
    ensures
        r.0@ == context_marks(bps@),
        r.1 == bps@.contains(BreakpointPosition::AfterSystem),
{
    let mut marks: Vec<usize> = Vec::new();
    let mut system = false;
    let mut i: usize = 0;
    while i < bps.len()
        invariant
            i <= bps@.len(),
            marks@ == context_marks(bps@.subrange(0, i as int)),
            system == bps@.subrange(0, i as int).contains(BreakpointPosition::AfterSystem),
        decreases bps@.len() - i,
    {
        let ghost pre = bps@.subrange(0, i as int);
        let ghost post = bps@.subrange(0, i + 1);
        assert(post.drop_last() == pre);
        assert(post.last() == bps@[i as int]);
        let ghost before = marks@;
        match bps[i] {
            BreakpointPosition::AfterContext(k) => {
                marks.push(k);
                assert(marks@ =~= before + seq![k]);
            },
            BreakpointPosition::AfterSystem => {
                system = true;
                assert(marks@ =~= before + Seq::<usize>::empty());
            },
            BreakpointPosition::AfterAllContext => {
                assert(marks@ =~= before + Seq::<usize>::empty());
            },
        }
        assert(post.contains(BreakpointPosition::AfterSystem) == (pre.contains(BreakpointPosition::AfterSystem) || bps@[i as int] == BreakpointPosition::AfterSystem)) by {
            if pre.contains(BreakpointPosition::AfterSystem) {
                let j = choose|j: int| 0 <= j < pre.len() && pre[j] == BreakpointPosition::AfterSystem;
                assert(post[j] == pre[j]);
            }
            if post.contains(BreakpointPosition::AfterSystem) {
                let j = choose|j: int| 0 <= j < post.len() && post[j] == BreakpointPosition::AfterSystem;
                if j < i {
                    assert(pre[j] == post[j]);
                }
            }
        }
        i = i + 1;
    }
    assert(bps@.subrange(0, bps@.len() as int) == bps@);
    (marks, system)
}

/// A request prepared for caching, with its estimates.
#[derive(Debug)]
pub struct CacheOptimizedRequest {
    pub request: ApiRequest,
    pub breakpoints: Vec<BreakpointPosition>,
    /// Estimated tokens of the system prompt and Static/SemiStatic context.
    pub static_tokens: usize,
    /// Estimated tokens of the other context and the task.
    pub dynamic_tokens: usize,
    /// Nine tenths of the static tokens when they reach the threshold.
    pub estimated_cache_savings: usize,
}

/// Whether content matches what was sent before under the same key.
#[derive(Debug, Clone, Copy, PartialEq, Eq, Structural)]
pub enum CacheCheckResult {
    Hit { tokens_saved: usize },
    Modified,
    Miss,
}

/// What was sent under one key.
#[derive(Debug, Clone)]
pub struct ContentFingerprint {
    pub key: String,
    pub hash: u64,
    pub token_count: usize,
}

/// The fingerprint stored under `key` (the latest registration wins).
pub open spec fn sent_under(s: Seq<ContentFingerprint>, key: Seq<char>) -> Option<ContentFingerprint>
    decreases s.len(),
{
    if s.len() == 0 {
        None
    } else if s.last().key@ == key {
        Some(s.last())
    } else {
        sent_under(s.drop_last(), key)
    }
}

/// Structures requests so that stable parts form a cacheable prefix.
pub struct CacheOptimizer {
    config: CacheConfig,
    content_cache: Vec<ContentFingerprint>,
}

impl CacheOptimizer {
    pub closed spec fn config_spec(&self) -> CacheConfig {
        self.config
    }

    pub closed spec fn sent_spec(&self) -> Seq<ContentFingerprint> {
        self.content_cache@
    }

    pub fn new(config: CacheConfig) -> (r: Self)
        requires
            config.wf(),
        ensures
            r.config_spec() == config,
            r.sent_spec().len() == 0,
    {
        CacheOptimizer { config, content_cache: Vec::new() }
    }

    pub fn config(&self) -> (r: CacheConfig)
        ensures
            r == self.config_spec(),
    {
        self.config
    }

    /// Classifies, reorders (when configured) and annotates a request.
    pub fn optimize_request(&self, request: ApiRequest) -> (r: CacheOptimizedRequest)
        requires
            self.config_spec().wf(),
        ensures
            ({
                let cfg = self.config_spec();
                let per = cfg.bytes_per_token;
                let sys_tokens: nat = match request.system {
                    Some(s) => estimate(s@, per),
                    None => 0,
                };
                let ctx = if cfg.auto_reorder {
                    reordered(request.context@)
                } else {
                    request.context@
                };
                let st = sat(sys_tokens, tier_tokens(request.context@, per, true));
                let bps = planned_breakpoints(request.system, ctx, st, cfg);
                &&& r.request.context@ == ctx
                &&& r.request == (ApiRequest {
                    context: r.request.context,
                    cache_breakpoints: r.request.cache_breakpoints,
                    system_cache_control: r.request.system_cache_control,
                    ..request
                })
                &&& r.request.cache_breakpoints@ == context_marks(bps)
                &&& r.request.system_cache_control == if bps.contains(BreakpointPosition::AfterSystem) {
                    Some(CacheControl { control_type: CacheControlType::Ephemeral })
                } else {
                    request.system_cache_control
                }
                &&& r.static_tokens == st
                &&& r.dynamic_tokens == sat(
                    tier_tokens(request.context@, per, false),
                    estimate(request.task@, per),
                )
                &&& r.breakpoints@ == planned_breakpoints(request.system, ctx, st, cfg)
                &&& r.estimated_cache_savings == if st >= cfg.min_cache_tokens {
                    (st * 9) / 10
                } else {
                    0
                }
            }),
    {
        let per = self.config.bytes_per_token;
        let sys_tokens: usize = match &request.system {
            Some(s) => estimate_text(s.as_str(), per),
            None => 0,
        };
        let (cached, other) = tier_totals(&request.context, per);
        let static_tokens = sys_tokens.saturating_add(cached);
        let task_tokens = estimate_text(request.task.as_str(), per);
        let dynamic_tokens = other.saturating_add(task_tokens);
        let mut request = request;
        if self.config.auto_reorder {
            let mut items: Vec<ContextItem> = Vec::new();
            std::mem::swap(&mut items, &mut request.context);
            request.context = reorder_context(items);
        }
        let breakpoints = calculate_breakpoints(
            &request.system,
            &request.context,
            static_tokens,
            &self.config,
        );
        let savings = if static_tokens >= self.config.min_cache_tokens {
            nine_tenths(static_tokens)
        } else {
            0
        };
        let (marks, system_mark) = annotations(&breakpoints);
        request.cache_breakpoints = marks;
        if system_mark {
            request.system_cache_control = Some(CacheControl::default());
        }
        CacheOptimizedRequest {
            request,
            breakpoints,
            static_tokens,
            dynamic_tokens,
            estimated_cache_savings: savings,
        }
    }

    /// Records what was sent under `cache_key`.
    pub fn register_sent(&mut self, cache_key: &str, content: &str)
        requires
            old(self).config_spec().wf(),
        ensures
            final(self).config_spec() == old(self).config_spec(),
            sent_under(final(self).sent_spec(), cache_key@) == Some(
                ContentFingerprint {
                    key: final(self).sent_spec().last().key,
                    hash: fingerprint(content@),
                    token_count: estimate(content@, old(self).config_spec().bytes_per_token) as usize,
                },
            ),
            final(self).sent_spec().last().key@ == cache_key@,
            forall|k: Seq<char>|
                k != cache_key@ ==> sent_under(final(self).sent_spec(), k) == sent_under(
                    old(self).sent_spec(),
                    k,
                ),
    {
        let hash = simple_hash(content);
        let token_count = estimate_text(content, self.config.bytes_per_token);
        let key = String::from_str(cache_key);
        self.content_cache.push(ContentFingerprint { key, hash, token_count });
        proof {
            let s = self.content_cache@;
            assert(s.drop_last() == old(self).content_cache@);
        }
    }

    /// Compares content with what was last sent under `cache_key`.
    pub fn check_cache(&self, cache_key: &str, content: &str) -> (r: CacheCheckResult)
        ensures
            r == match sent_under(self.sent_spec(), cache_key@) {
                None => CacheCheckResult::Miss,
                Some(f) => if f.hash == fingerprint(content@) {
                    CacheCheckResult::Hit { tokens_saved: f.token_count }
                } else {
                    CacheCheckResult::Modified
                },
            },
    {
        let mut i = self.content_cache.len();
        assert(self.content_cache@.subrange(0, i as int) == self.content_cache@);
        while i > 0
            invariant
                i <= self.content_cache@.len(),
                sent_under(self.content_cache@, cache_key@) == sent_under(
                    self.content_cache@.subrange(0, i as int),
                    cache_key@,
                ),
            decreases i,
        {
            let ghost pre = self.content_cache@.subrange(0, i as int);
            assert(pre.drop_last() == self.content_cache@.subrange(0, i - 1));
            assert(pre.last() == self.content_cache@[i - 1]);
            let entry = &self.content_cache[i - 1];
            if same_text(entry.key.as_str(), cache_key) {
                if entry.hash == simple_hash(content) {
                    return CacheCheckResult::Hit { tokens_saved: entry.token_count };
                } else {
                    return CacheCheckResult::Modified;
                }
            }
            i = i - 1;
        }
        CacheCheckResult::Miss
    }
}

proof fn lemma_tier_of_tier(s: Seq<ContextItem>, t: ContentStability, u: ContentStability)
    ensures
        tier_items(tier_items(s, t), u) == if t == u {
            tier_items(s, t)
        } else {
            Seq::<ContextItem>::empty()
        },
    decreases s.len(),
{
    reveal(Seq::filter);
    if s.len() > 0 {
        lemma_tier_of_tier(s.drop_last(), t, u);
        let x = tier_items(s.drop_last(), t);
        if tier_of(s.last()) == t {
            assert(x.push(s.last()).drop_last() == x);
        }
    }
}

/// Reordering keeps the relative order of the items within each tier: the
/// items of a tier appear after reordering exactly as they did before.
pub proof fn lemma_reorder_keeps_tier_order(s: Seq<ContextItem>, t: ContentStability)
    ensures
        tier_items(reordered(s), t) == tier_items(s, t),
{
    let a = tier_items(s, ContentStability::Static);
    let b = tier_items(s, ContentStability::SemiStatic);
    let c = tier_items(s, ContentStability::Dynamic);
    let d = tier_items(s, ContentStability::Volatile);
    let f = |x: ContextItem| tier_of(x) == t;
    Seq::filter_distributes_over_add(a + b + c, d, f);
    Seq::filter_distributes_over_add(a + b, c, f);
    Seq::filter_distributes_over_add(a, b, f);
    lemma_tier_of_tier(s, ContentStability::Static, t);
    lemma_tier_of_tier(s, ContentStability::SemiStatic, t);
    lemma_tier_of_tier(s, ContentStability::Dynamic, t);
    lemma_tier_of_tier(s, ContentStability::Volatile, t);
    assert(tier_items(s, t) + Seq::<ContextItem>::empty() == tier_items(s, t));
    assert(Seq::<ContextItem>::empty() + tier_items(s, t) == tier_items(s, t));
    assert(Seq::<ContextItem>::empty() + Seq::<ContextItem>::empty() == Seq::<ContextItem>::empty());
}

pub open spec fn tiers_multiset(s: Seq<ContextItem>) -> Multiset<ContextItem> {
    tier_items(s, ContentStability::Static).to_multiset().add(
        tier_items(s, ContentStability::SemiStatic).to_multiset(),
    ).add(tier_items(s, ContentStability::Dynamic).to_multiset()).add(
        tier_items(s, ContentStability::Volatile).to_multiset(),
    )
}

proof fn lemma_tiers_multiset(s: Seq<ContextItem>)
    ensures
        tiers_multiset(s) =~= s.to_multiset(),
    decreases s.len(),
{
    broadcast use vstd::multiset::group_multiset_axioms, vstd::seq_lib::to_multiset_build;

    reveal(Seq::filter);
    if s.len() == 0 {
        vstd::seq_lib::to_multiset_len(s);
        assert(s.to_multiset().len() == 0);
        assert(s.to_multiset() =~= Multiset::empty());
        assert(tier_items(s, ContentStability::Static) =~= s);
    } else {
        let d = s.drop_last();
        let x = s.last();
        lemma_tiers_multiset(d);
        assert(s =~= d.push(x));
        assert(s.to_multiset() =~= d.to_multiset().insert(x));
    }
}

/// Reordering only moves items: the result holds exactly the items of the
/// input, each as many times.
pub proof fn lemma_reorder_is_permutation(s: Seq<ContextItem>)
    ensures
        reordered(s).to_multiset() =~= s.to_multiset(),
{
    broadcast use vstd::multiset::group_multiset_axioms;

    let a = tier_items(s, ContentStability::Static);
    let b = tier_items(s, ContentStability::SemiStatic);
    let c = tier_items(s, ContentStability::Dynamic);
    let d = tier_items(s, ContentStability::Volatile);
    vstd::seq_lib::lemma_multiset_commutative(a + b + c, d);
    vstd::seq_lib::lemma_multiset_commutative(a + b, c);
    vstd::seq_lib::lemma_multiset_commutative(a, b);
    lemma_tiers_multiset(s);
}

proof fn lemma_prefix_tokens_same(c1: Seq<ContextItem>, c2: Seq<ContextItem>, k: int, per: usize)
    requires
        0 <= k <= c1.len(),
        k <= c2.len(),
        c1.subrange(0, k) == c2.subrange(0, k),
    ensures
        prefix_tokens(c1, k, per) == prefix_tokens(c2, k, per),
    decreases k,
{
    if k > 0 {
        assert(c1.subrange(0, k - 1) == c1.subrange(0, k).subrange(0, k - 1));
        assert(c2.subrange(0, k - 1) == c2.subrange(0, k).subrange(0, k - 1));
        assert(c1[k - 1] == c1.subrange(0, k)[k - 1]);
        assert(c2[k - 1] == c2.subrange(0, k)[k - 1]);
        lemma_prefix_tokens_same(c1, c2, k - 1, per);
    }
}

/// Two requests with the same system prompt whose contexts begin with the
/// same `k` Static/SemiStatic items, followed in both by a Dynamic/Volatile
/// item or by nothing, get the same breakpoints, provided their cacheable
/// totals fall on the same side of the threshold.
pub proof fn lemma_breakpoints_follow_prefix(
    system: Option<String>,
    c1: Seq<ContextItem>,
    c2: Seq<ContextItem>,
    k: int,
    st1: nat,
    st2: nat,
    cfg: CacheConfig,
)
    requires
        0 <= k <= c1.len(),
        k <= c2.len(),
        c1.subrange(0, k) == c2.subrange(0, k),
        forall|j: int| 0 <= j < k ==> is_cacheable(tier_of(#[trigger] c1[j])),
        k == c1.len() || !is_cacheable(tier_of(c1[k])),
        k == c2.len() || !is_cacheable(tier_of(c2[k])),
        (st1 >= cfg.min_cache_tokens) == (st2 >= cfg.min_cache_tokens),
    ensures
        planned_breakpoints(system, c1, st1, cfg) == planned_breakpoints(system, c2, st2, cfg),
{
    lemma_run_end_from(c1, k, 0);
    assert forall|j: int| 0 <= j < k implies is_cacheable(tier_of(#[trigger] c2[j])) by {
        assert(c1[j] == c1.subrange(0, k)[j]);
        assert(c2[j] == c2.subrange(0, k)[j]);
    }
    lemma_run_end_from(c2, k, 0);
    lemma_prefix_tokens_same(c1, c2, k, cfg.bytes_per_token);
}

/// At the threshold: a single Static/SemiStatic item one token short of
/// `min_cache_tokens` gets no breakpoint, and one that reaches it gets
/// exactly one, after itself (no system prompt, a cap of at least one).
pub proof fn lemma_threshold_boundary(short: ContextItem, full: ContextItem, cfg: CacheConfig)
    requires
        cfg.wf(),
        cfg.min_cache_tokens > 0,
        cfg.max_breakpoints > 0,
        is_cacheable(tier_of(short)),
        is_cacheable(tier_of(full)),
        estimate(short.content@, cfg.bytes_per_token) == cfg.min_cache_tokens - 1,
        estimate(full.content@, cfg.bytes_per_token) == cfg.min_cache_tokens,
    ensures
        planned_breakpoints(None, seq![short], (cfg.min_cache_tokens - 1) as nat, cfg).len() == 0,
        planned_breakpoints(None, seq![full], cfg.min_cache_tokens as nat, cfg) == seq![
            BreakpointPosition::AfterContext(0),
        ],
{
    let c = seq![full];
    assert(c[0] == full);
    assert(prefix_tokens(c, 0, cfg.bytes_per_token) == 0);
    lemma_run_end_from(c, 1, 0);
    assert(prefix_tokens(c, 1, cfg.bytes_per_token) == sat(0, estimate(full.content@, cfg.bytes_per_token)));
    assert(Seq::<BreakpointPosition>::empty().push(BreakpointPosition::AfterContext(0)) =~= seq![
        BreakpointPosition::AfterContext(0),
    ]);
}

proof fn lemma_run_end_from(c: Seq<ContextItem>, k: int, i: int)
    requires
        0 <= i <= k <= c.len(),
        forall|j: int| 0 <= j < k ==> is_cacheable(tier_of(#[trigger] c[j])),
        k == c.len() || !is_cacheable(tier_of(c[k])),
    ensures
        run_end(c, i) == k,
    decreases k - i,
{
    if i < k {
        lemma_run_end_from(c, k, i + 1);
    }
}

/// Content with caching metadata.
#[derive(Debug, Clone)]
pub struct CacheableContent {
    pub content: String,
    pub stability: ContentStability,
    pub cache_key: Option<String>,
    pub cache_breakpoint: bool,
    /// The remembered token estimate, once computed.
    pub estimated_tokens: Option<usize>,
}

impl CacheableContent {
    pub fn new(content: String, stability: ContentStability) -> (r: Self)
        ensures
            r.content == content,
            r.stability == stability,
            r.cache_key is None,
            !r.cache_breakpoint,
            r.estimated_tokens is None,
    {
        CacheableContent { content, stability, cache_key: None, cache_breakpoint: false, estimated_tokens: None }
    }

    pub fn with_cache_key(self, key: String) -> (r: Self)
        ensures
            r.content == self.content,
            r.stability == self.stability,
            r.cache_key == Some(key),
            r.cache_breakpoint == self.cache_breakpoint,
            r.estimated_tokens == self.estimated_tokens,
    {
        CacheableContent { cache_key: Some(key), ..self }
    }

    pub fn with_breakpoint(self) -> (r: Self)
        ensures
            r.content == self.content,
            r.stability == self.stability,
            r.cache_key == self.cache_key,
            r.cache_breakpoint,
            r.estimated_tokens == self.estimated_tokens,
    {
        CacheableContent { cache_breakpoint: true, ..self }
    }

    /// The estimated tokens of the content, computed once and remembered.
    pub fn estimate_tokens(&mut self, bytes_per_token: usize) -> (r: usize)
        requires
            bytes_per_token > 0,
        ensures
            old(self).estimated_tokens is Some ==> r == old(self).estimated_tokens->0,
            old(self).estimated_tokens is None ==> r == estimate(old(self).content@, bytes_per_token),
            final(self).estimated_tokens == Some(r),
            final(self).content == old(self).content,
            final(self).stability == old(self).stability,
    {
        match self.estimated_tokens {
            Some(t) => t,
            None => {
                let t = estimate_text(self.content.as_str(), bytes_per_token);
                self.estimated_tokens = Some(t);
                t
            },
        }
    }
}

/// How cacheable a text is.
#[derive(Debug, Clone)]
pub struct CacheAnalysis {
    pub meets_minimum: bool,
    pub estimated_tokens: usize,
    /// Byte offsets of section markers at least 500 bytes apart.
    pub breakpoint_positions: Vec<usize>,
    /// Share of the cost a cache hit saves, in percent (90 when cacheable).
    pub potential_savings_percent: u8,
    pub suggestions: Vec<String>,
}

/// The advice given when content is `needed` tokens short of `min`.
pub open spec fn shortfall_advice(needed: nat, min: nat) -> Seq<char> {
    "Content is ~"@ + decimal_text(needed) + " tokens short of minimum cache size ("@ + decimal_text(min)
        + "). Consider combining with other static content."@
}

/// Whether `p` occurs in `b` at `i`.
pub open spec fn occurs_at(b: Seq<u8>, p: Seq<u8>, i: int) -> bool {
    0 <= i && i + p.len() <= b.len() && b.subrange(i, i + p.len()) == p
}

pub open spec fn section_markers() -> Seq<Seq<u8>> {
    seq!["\n## ".spec_bytes(), "\n# ".spec_bytes(), "\n---\n".spec_bytes(), "\n\n\n".spec_bytes()]
}

/// The positions found by scanning for marker `m` from byte `i` on (and the
/// later markers after it), each more than 500 bytes past the last kept
/// position `cur`; matches of one marker do not overlap.
pub open spec fn marker_scan(b: Seq<u8>, m: int, i: int, cur: int) -> Seq<usize>
    decreases 4 - m, b.len() - i,
{
    if m < 0 || m >= 4 {
        Seq::<usize>::empty()
    } else if i < 0 || i >= b.len() {
        marker_scan(b, m + 1, 0, cur)
    } else {
        let p = section_markers()[m];
        if occurs_at(b, p, i) {
            let next = if p.len() > 0 { i + p.len() } else { i + 1 };
            if cur <= usize::MAX - 500 && i > cur + 500 {
                seq![i as usize] + marker_scan(b, m, next, i)
            } else {
                marker_scan(b, m, next, cur)
            }
        } else {
            marker_scan(b, m, i + 1, cur)
        }
    }
}

fn occurs_here(b: &[u8], p: &[u8], i: usize) -> (r: bool)
    ensures
        r == occurs_at(b@, p@, i as int),
{
    if p.len() > b.len() || i > b.len() - p.len() {
        return false;
    }
    let mut k: usize = 0;
    while k < p.len() && b[i + k] == p[k]
        invariant
            k <= p@.len(),
            i + p@.len() <= b@.len(),
            b@.len() <= usize::MAX,
            forall|j: int| 0 <= j < k ==> b@[i + j] == p@[j],
        decreases p@.len() - k,
    {
        k = k + 1;
    }
    if k == p.len() {
        assert(b@.subrange(i as int, i + p@.len()) =~= p@);
        true
    } else {
        assert(b@.subrange(i as int, i + p@.len())[k as int] != p@[k as int]);
        false
    }
}

impl CacheOptimizer {
    /// Section markers ("\n## ", "\n# ", "\n---\n", "\n\n\n") found in
    /// order, marker by marker, each kept when more than 500 bytes past the
    /// last kept one.
    pub fn find_breakpoint_positions(&self, content: &str) -> (r: Vec<usize>)
        ensures
            r@ == marker_scan(content.spec_bytes(), 0, 0, 0),
    {
        let b = content.as_bytes();
        let markers: [&str; 4] = ["\n## ", "\n# ", "\n---\n", "\n\n\n"];
        let ghost ms = section_markers();
        let ghost total = marker_scan(b@, 0, 0, 0);
        proof {
            assert forall|j: int| 0 <= j < 4 implies (#[trigger] markers@[j]).spec_bytes() == ms[j] by {}
        }
        let mut out: Vec<usize> = Vec::new();
        let mut current: usize = 0;
        let mut m: usize = 0;
        assert(out@ + marker_scan(b@, 0, 0, 0) == total);
        while m < 4
            invariant
                m <= 4,
                ms == section_markers(),
                b@ == content.spec_bytes(),
                total == marker_scan(b@, 0, 0, 0),
                forall|j: int| 0 <= j < 4 ==> (#[trigger] markers@[j]).spec_bytes() == ms[j],
                out@ + marker_scan(b@, m as int, 0, current as int) == total,
            decreases 4 - m,
        {
            let p = markers[m].as_bytes();
            let mut i: usize = 0;
            while i < b.len()
                invariant
                    m < 4,
                    p@ == ms[m as int],
                    ms == section_markers(),
                    b@ == content.spec_bytes(),
                    i <= b@.len(),
                    out@ + marker_scan(b@, m as int, i as int, current as int) == total,
                decreases b@.len() - i,
            {
                let ghost before = out@;
                if occurs_here(b, p, i) {
                    let next = if p.len() > 0 { i + p.len() } else { i + 1 };
                    if current <= usize::MAX - 500 && i > current + 500 {
                        out.push(i);
                        proof {
                            assert(out@ =~= before + seq![i]);
                            assert(seq![i] + marker_scan(b@, m as int, next as int, i as int) == marker_scan(b@, m as int, i as int, current as int));
                            assert(out@ + marker_scan(b@, m as int, next as int, i as int) =~= before + (seq![i] + marker_scan(b@, m as int, next as int, i as int)));
                        }
                        current = i;
                    }
                    i = next;
                } else {
                    i = i + 1;
                }
            }
            m = m + 1;
        }
        proof {
            assert(marker_scan(b@, 4, 0, current as int) == Seq::<usize>::empty());
            assert(out@ + Seq::<usize>::empty() == out@);
        }
        out
    }

    /// Analyses a text for cacheability.
    pub fn analyze(&self, content: &str) -> (r: CacheAnalysis)
        requires
            self.config_spec().wf(),
        ensures
            r.estimated_tokens == estimate(content@, self.config_spec().bytes_per_token),
            r.meets_minimum == (r.estimated_tokens >= self.config_spec().min_cache_tokens),
            r.potential_savings_percent == if r.meets_minimum { 90u8 } else { 0u8 },
            r.meets_minimum ==> r.suggestions@.len() == 0,
            !r.meets_minimum ==> r.suggestions@.len() == 1 && r.suggestions@[0]@ == shortfall_advice(
                (self.config_spec().min_cache_tokens - r.estimated_tokens) as nat,
                self.config_spec().min_cache_tokens as nat,
            ),
    {
        let estimated = estimate_text(content, self.config.bytes_per_token);
        let meets = estimated >= self.config.min_cache_tokens;
        let mut suggestions: Vec<String> = Vec::new();
        if !meets {
            let needed = self.config.min_cache_tokens - estimated;
            let mut s = String::new();
            push_text(&mut s, "Content is ~");
            let a = decimal(needed as u64);
            push_text(&mut s, a.as_str());
            push_text(&mut s, " tokens short of minimum cache size (");
            let b = decimal(self.config.min_cache_tokens as u64);
            push_text(&mut s, b.as_str());
            push_text(&mut s, "). Consider combining with other static content.");
            proof {
                assert(Seq::<char>::empty() + "Content is ~"@ == "Content is ~"@);
            }
            suggestions.push(s);
        }
        let positions = self.find_breakpoint_positions(content);
        CacheAnalysis {
            meets_minimum: meets,
            estimated_tokens: estimated,
            breakpoint_positions: positions,
            potential_savings_percent: if meets { 90 } else { 0 },
            suggestions,
        }
    }
}

} // verus!
