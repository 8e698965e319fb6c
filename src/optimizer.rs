//! Applying the text strategies to a whole request.

use vstd::prelude::*;
use crate::hashing::{fingerprint, simple_hash};
use crate::request::{ApiRequest, ContextItem};
use crate::settings::{OptimizationConfig, StrategyType};
use crate::strategies::{
    collapse_runs, collapse_whitespace, count_tokens, extract_function_signatures, join_lines,
    kept_or_blank, lines_of, normalized, normalized_hash, remove_code_comments,
    signatures_of, smart_truncate, truncation_of, strip_whitespace, strip_whitespace_preserve_code, token_estimate,
    uncommented, ScanMode,
};
use crate::text::trimmed;
use crate::tracker::sat_usize;

verus! {

/// Sizes before and after optimisation.
#[derive(Debug, Clone)]
pub struct OptimizationStats {
    pub original_tokens: usize,
    pub optimized_tokens: usize,
    pub tokens_saved: usize,
    /// Optimised size over original size, in millionths (a million when
    /// nothing was there to shrink).
    pub compression_ratio_ppm: u128,
    pub strategies_applied: Vec<String>,
}

impl OptimizationStats {
    pub fn new(original: usize, optimized: usize) -> (r: Self)
        ensures
            r.original_tokens == original,
            r.optimized_tokens == optimized,
            r.tokens_saved == if original >= optimized { original - optimized } else { 0 },
            r.compression_ratio_ppm == if original > 0 {
                (optimized as nat * 1_000_000) / (original as nat)
            } else {
                1_000_000
            },
            r.strategies_applied@.len() == 0,
    {
        let ratio: u128 = if original > 0 {
            proof {
                let (o, p) = (optimized as int, original as int);
                assert(o * 1_000_000 <= 0xffff_ffff_ffff_ffff * 1_000_000) by (nonlinear_arith)
                    requires
                        0 <= o <= 0xffff_ffff_ffff_ffff,
                ;
            }
            (optimized as u128 * 1_000_000) / original as u128
        } else {
            1_000_000
        };
        OptimizationStats {
            original_tokens: original,
            optimized_tokens: optimized,
            tokens_saved: original.saturating_sub(optimized),
            compression_ratio_ppm: ratio,
            strategies_applied: Vec::new(),
        }
    }
}

/// Whether an item is the other's copy with only its content replaced.
pub open spec fn same_but_content(a: ContextItem, b: ContextItem) -> bool {
    a.name == b.name && a.item_type == b.item_type && a.relevance == b.relevance && a.cache_control
        == b.cache_control && a.is_static == b.is_static
}

/// Whether `r` is `q` with every context item's content rewritten by `f` and
/// everything else kept.
pub open spec fn contents_mapped(q: ApiRequest, r: ApiRequest, f: spec_fn(Seq<char>) -> Seq<char>) -> bool {
    &&& r.context@.len() == q.context@.len()
    &&& forall|i: int|
        0 <= i < q.context@.len() ==> same_but_content(#[trigger] r.context@[i], q.context@[i])
            && r.context@[i].content@ == f(q.context@[i].content@)
    &&& r.system == q.system
    &&& r.messages == q.messages
    &&& r.constraints == q.constraints
    &&& r.cache_breakpoints == q.cache_breakpoints
}

/// The text rewrites a request's context can go through.
#[derive(Debug, Clone, Copy, PartialEq, Eq, Structural)]
pub enum ContentRewrite {
    /// Trim lines and drop empty ones.
    StripLines,
    /// Blank whitespace-only lines, keep the rest.
    BlankLines,
    RemoveComments,
    ExtractSignatures,
}

pub open spec fn rewrite_spec(w: ContentRewrite, t: Seq<char>) -> Seq<char> {
    match w {
        ContentRewrite::StripLines => normalized(t),
        ContentRewrite::BlankLines => join_lines(lines_of(t).map_values(|l: Seq<char>| kept_or_blank(l))),
        ContentRewrite::RemoveComments => uncommented(t, 0, ScanMode::Code),
        ContentRewrite::ExtractSignatures => signatures_of(t),
    }
}

fn rewrite(w: ContentRewrite, t: &str) -> (r: String)
    ensures
        r@ == rewrite_spec(w, t@),
{
    match w {
        ContentRewrite::StripLines => strip_whitespace(t),
        ContentRewrite::BlankLines => strip_whitespace_preserve_code(t),
        ContentRewrite::RemoveComments => remove_code_comments(t),
        ContentRewrite::ExtractSignatures => extract_function_signatures(t),
    }
}

/// Rewrites the content of every context item.
pub fn rewrite_contents(request: ApiRequest, w: ContentRewrite) -> (r: ApiRequest)
    ensures
        contents_mapped(request, r, |t: Seq<char>| rewrite_spec(w, t)),
        r.task == request.task,
{
    let mut request = request;
    let mut items: Vec<ContextItem> = Vec::new();
    std::mem::swap(&mut items, &mut request.context);
    let ghost orig = items@;
    let mut out: Vec<ContextItem> = Vec::new();
    for item in iter: items
        invariant
            iter.seq() == orig,
            out@.len() == iter.index(),
            forall|i: int|
                0 <= i < out@.len() ==> same_but_content(#[trigger] out@[i], orig[i])
                    && out@[i].content@ == rewrite_spec(w, orig[i].content@),
    {
        let content = rewrite(w, item.content.as_str());
        out.push(ContextItem { content, ..item });
    }
    request.context = out;
    request
}

/// `s` with every occurrence of `from` replaced by `to`, scanning left to
/// right without overlaps; an empty `from` matches before every character
/// and at the end.
pub open spec fn replaced(s: Seq<char>, from: Seq<char>, to: Seq<char>) -> Seq<char>
    decreases s.len(),
{
    if from.len() == 0 {
        if s.len() == 0 {
            to
        } else {
            to + seq![s[0]] + replaced(s.drop_first(), from, to)
        }
    } else if s.len() < from.len() {
        s
    } else if s.subrange(0, from.len() as int) == from {
        to + replaced(s.subrange(from.len() as int, s.len() as int), from, to)
    } else {
        seq![s[0]] + replaced(s.drop_first(), from, to)
    }
}

/// Relies on `str::replace`: non-overlapping matches of `from`, found left
/// to right, each become `to`.
#[verifier::external_body]
fn replace_all(s: &str, from: &str, to: &str) -> (r: String)
    ensures
        r@ == replaced(s@, from@, to@),
{
    s.replace(from, to)
}

/// Estimated tokens of the context items `s`: each name and content.
pub open spec fn context_tokens(s: Seq<ContextItem>) -> nat
    decreases s.len(),
{
    if s.len() == 0 {
        0
    } else {
        sat_usize(
            sat_usize(context_tokens(s.drop_last()), token_estimate(s.last().name@)),
            token_estimate(s.last().content@),
        )
    }
}

/// Estimated tokens of a request: system prompt, context, task.
pub open spec fn request_tokens(q: ApiRequest) -> nat {
    let sys: nat = match q.system {
        Some(s) => token_estimate(s@),
        None => 0,
    };
    sat_usize(sat_usize(sys, context_tokens(q.context@)), token_estimate(q.task@))
}

/// The items whose `key` has not been seen earlier, in order.
pub open spec fn first_by(s: Seq<ContextItem>, key: spec_fn(ContextItem) -> u64) -> Seq<ContextItem>
    decreases s.len(),
{
    if s.len() == 0 {
        s
    } else {
        let rest = first_by(s.drop_last(), key);
        if exists|j: int| 0 <= j < s.len() - 1 && key(#[trigger] s[j]) == key(s.last()) {
            rest
        } else {
            rest.push(s.last())
        }
    }
}

pub open spec fn exact_key(c: ContextItem) -> u64 {
    fingerprint(c.content@)
}

pub open spec fn normal_key(c: ContextItem) -> u64 {
    fingerprint(normalized(c.content@))
}

fn keep_first(items: Vec<ContextItem>, normal: bool) -> (r: Vec<ContextItem>)
    ensures
        r@ == first_by(items@, if normal { |c: ContextItem| normal_key(c) } else { |c: ContextItem| exact_key(c) }),
{
    let ghost key = if normal { |c: ContextItem| normal_key(c) } else { |c: ContextItem| exact_key(c) };
    let ghost orig = items@;
    let mut seen: Vec<u64> = Vec::new();
    let mut out: Vec<ContextItem> = Vec::new();
    for item in iter: items
        invariant
            iter.seq() == orig,
            key == (if normal { |c: ContextItem| normal_key(c) } else { |c: ContextItem| exact_key(c) }),
            seen@.len() == iter.index(),
            forall|j: int| 0 <= j < iter.index() ==> seen@[j] == key(#[trigger] orig[j]),
            out@ == first_by(orig.subrange(0, iter.index() as int), key),
    {
        let ghost i = iter.index() as int;
        let h = if normal { normalized_hash(item.content.as_str()) } else { simple_hash(item.content.as_str()) };
        let mut k: usize = 0;
        let mut dup = false;
        while k < seen.len()
            invariant
                k <= seen@.len(),
                dup ==> exists|j: int| 0 <= j < seen@.len() && seen@[j] == h,
                !dup ==> forall|j: int| 0 <= j < k ==> seen@[j] != h,
            decreases seen@.len() - k,
        {
            if seen[k] == h {
                dup = true;
            }
            k = k + 1;
        }
        proof {
            let pre = orig.subrange(0, i + 1);
            assert(pre.drop_last() == orig.subrange(0, i));
            assert(pre.last() == orig[i]);
            assert(h == key(orig[i]));
            if dup {
                let j = choose|j: int| 0 <= j < seen@.len() && seen@[j] == h;
                assert(pre[j] == orig[j]);
                assert(key(pre[j]) == key(pre.last()));
            } else {
                assert forall|j: int| 0 <= j < pre.len() - 1 implies key(#[trigger] pre[j]) != key(pre.last()) by {
                    assert(pre[j] == orig[j]);
                    assert(seen@[j] != h);
                }
            }
        }
        seen.push(h);
        if !dup {
            out.push(item);
        }
    }
    proof {
        assert(orig.subrange(0, orig.len() as int) == orig);
    }
    out
}

/// The task's abbreviations, in the order they are applied.
pub open spec fn abbreviations() -> Seq<(Seq<char>, Seq<char>)> {
    seq![
        ("function"@, "fn"@),
        ("return"@, "ret"@),
        ("string"@, "str"@),
        ("number"@, "num"@),
        ("boolean"@, "bool"@),
        ("undefined"@, "undef"@),
        ("parameter"@, "param"@),
        ("argument"@, "arg"@),
        ("configuration"@, "config"@),
        ("implementation"@, "impl"@),
        ("documentation"@, "docs"@),
    ]
}

/// `t` after the first `k` abbreviations.
pub open spec fn abbreviated(t: Seq<char>, k: int) -> Seq<char>
    decreases k,
{
    if k <= 0 {
        t
    } else {
        let p = abbreviations()[k - 1];
        replaced(abbreviated(t, k - 1), p.0, p.1)
    }
}

/// What applying one strategy did.
#[derive(Debug, Clone)]
pub enum StrategyOutcome {
    /// The strategy ran; here is the request after it.
    Applied(ApiRequest),
    /// The strategy needs the local model or relevance scoring, which the
    /// caller performs; the request is unchanged.
    Deferred(ApiRequest),
}

/// Applies text strategies to requests.
pub struct PromptOptimizer {
    config: OptimizationConfig,
}

impl PromptOptimizer {
    pub closed spec fn config_spec(&self) -> OptimizationConfig {
        self.config
    }

    pub fn new(config: OptimizationConfig) -> (r: Self)
        ensures
            r.config_spec() == config,
    {
        PromptOptimizer { config }
    }

    /// Estimated tokens of a request.
    pub fn estimate_tokens(&self, request: &ApiRequest) -> (r: usize)
        ensures
            r == request_tokens(*request),
    {
        let sys: usize = match &request.system {
            Some(s) => count_tokens(s.as_str()),
            None => 0,
        };
        let mut total: usize = 0;
        let mut i: usize = 0;
        while i < request.context.len()
            invariant
                i <= request.context@.len(),
                total == context_tokens(request.context@.subrange(0, i as int)),
            decreases request.context@.len() - i,
        {
            proof {
                assert(request.context@.subrange(0, i + 1).drop_last() == request.context@.subrange(0, i as int));
            }
            total = total.saturating_add(count_tokens(request.context[i].name.as_str()));
            total = total.saturating_add(count_tokens(request.context[i].content.as_str()));
            i = i + 1;
        }
        proof {
            assert(request.context@.subrange(0, request.context@.len() as int) == request.context@);
        }
        sys.saturating_add(total).saturating_add(count_tokens(request.task.as_str()))
    }

    /// Strips whitespace from the context (keeping code lines intact when
    /// code blocks are preserved) and collapses it in the task.
    pub fn strip_whitespace(&self, request: ApiRequest) -> (r: ApiRequest)
        ensures
            contents_mapped(request, r, |t: Seq<char>| rewrite_spec(
                if self.config_spec().preserve_code_blocks { ContentRewrite::BlankLines } else { ContentRewrite::StripLines },
                t,
            )),
            r.task@ == trimmed(collapse_runs(request.task@).0),
    {
        let w = if self.config.preserve_code_blocks { ContentRewrite::BlankLines } else { ContentRewrite::StripLines };
        let mut r = rewrite_contents(request, w);
        r.task = collapse_whitespace(r.task.as_str());
        r
    }

    /// Removes code comments from every context item.
    pub fn remove_comments(&self, request: ApiRequest) -> (r: ApiRequest)
        ensures
            contents_mapped(request, r, |t: Seq<char>| rewrite_spec(ContentRewrite::RemoveComments, t)),
            r.task == request.task,
    {
        rewrite_contents(request, ContentRewrite::RemoveComments)
    }

    /// Reduces every context item to its signatures.
    pub fn extract_signatures(&self, request: ApiRequest) -> (r: ApiRequest)
        ensures
            contents_mapped(request, r, |t: Seq<char>| rewrite_spec(ContentRewrite::ExtractSignatures, t)),
            r.task == request.task,
    {
        rewrite_contents(request, ContentRewrite::ExtractSignatures)
    }

    /// Shortens the task's common long words (function, return, string, ...);
    /// code in the context is left alone.
    pub fn abbreviate(&self, request: ApiRequest) -> (r: ApiRequest)
        ensures
            r.task@ == abbreviated(request.task@, 11),
            r.context == request.context,
            r.system == request.system,
            r.messages == request.messages,
            r.cache_breakpoints == request.cache_breakpoints,
    {
        let pairs: [(&str, &str); 11] = [
            ("function", "fn"),
            ("return", "ret"),
            ("string", "str"),
            ("number", "num"),
            ("boolean", "bool"),
            ("undefined", "undef"),
            ("parameter", "param"),
            ("argument", "arg"),
            ("configuration", "config"),
            ("implementation", "impl"),
            ("documentation", "docs"),
        ];
        let ghost ab = abbreviations();
        proof {
            assert forall|j: int| 0 <= j < 11 implies (#[trigger] pairs@[j]).0@ == ab[j].0 && pairs@[j].1@ == ab[j].1 by {}
        }
        let ghost t0 = request.task@;
        let ghost q0 = request;
        let mut request = request;
        let mut i: usize = 0;
        while i < 11
            invariant
                i <= 11,
                ab == abbreviations(),
                forall|j: int| 0 <= j < 11 ==> (#[trigger] pairs@[j]).0@ == ab[j].0 && pairs@[j].1@ == ab[j].1,
                request.task@ == abbreviated(t0, i as int),
                request.context == q0.context,
                request.system == q0.system,
                request.messages == q0.messages,
                request.cache_breakpoints == q0.cache_breakpoints,
            decreases 11 - i,
        {
            let (long, short) = pairs[i];
            request.task = replace_all(request.task.as_str(), long, short);
            i = i + 1;
        }
        request
    }

    /// Drops context items whose content repeats an earlier item's exactly,
    /// then those equal to an earlier one up to whitespace.
    pub fn deduplicate(&self, request: ApiRequest) -> (r: ApiRequest)
        ensures
            r.context@ == first_by(
                first_by(request.context@, |c: ContextItem| exact_key(c)),
                |c: ContextItem| normal_key(c),
            ),
            r.task == request.task,
            r.system == request.system,
    {
        let mut request = request;
        let mut items: Vec<ContextItem> = Vec::new();
        std::mem::swap(&mut items, &mut request.context);
        let once = keep_first(items, false);
        request.context = keep_first(once, true);
        request
    }

    /// The per-item token budget: the target (4000 when unset) shared
    /// equally among the items.
    pub open spec fn item_budget(&self, n: nat) -> nat {
        let target: nat = match self.config_spec().target_tokens {
            Some(t) => t as nat,
            None => 4000,
        };
        target / (if n > 0 { n } else { 1 })
    }

    /// Truncates every context item whose tokens exceed its share of the
    /// budget, to four bytes per budgeted token.
    pub fn truncate_context(&self, request: ApiRequest) -> (r: ApiRequest)
        ensures
            r.context@.len() == request.context@.len(),
            r.task == request.task,
            r.system == request.system,
            r.messages == request.messages,
            forall|i: int|
                0 <= i < r.context@.len() ==> same_but_content(#[trigger] r.context@[i], request.context@[i])
                    && ({
                    let per = self.item_budget(request.context@.len());
                    let c = request.context@[i].content@;
                    if token_estimate(c) > per {
                        truncation_of(c, if per * 4 > usize::MAX { usize::MAX as int } else { (per * 4) as int }, r.context@[i].content@)
                    } else {
                        r.context@[i].content@ == c
                    }
                }),
    {
        let target: usize = match self.config.target_tokens {
            Some(t) => t,
            None => 4000,
        };
        let n = if request.context.len() > 0 { request.context.len() } else { 1 };
        let per = target / n;
        let budget: usize = if per > usize::MAX / 4 { usize::MAX } else { per * 4 };
        let mut request = request;
        let mut items: Vec<ContextItem> = Vec::new();
        std::mem::swap(&mut items, &mut request.context);
        let ghost orig = items@;
        let mut out: Vec<ContextItem> = Vec::new();
        for item in iter: items
            invariant
                iter.seq() == orig,
                out@.len() == iter.index(),
                per == self.item_budget(orig.len()),
                budget == (if per * 4 > usize::MAX { usize::MAX as int } else { (per * 4) as int }),
                forall|i: int|
                    0 <= i < out@.len() ==> same_but_content(#[trigger] out@[i], orig[i]) && ({
                        let c = orig[i].content@;
                        if token_estimate(c) > per {
                            truncation_of(c, budget as int, out@[i].content@)
                        } else {
                            out@[i].content@ == c
                        }
                    }),
        {
            if count_tokens(item.content.as_str()) > per {
                let content = smart_truncate(item.content.as_str(), budget);
                out.push(ContextItem { content, ..item });
            } else {
                out.push(item);
            }
        }
        request.context = out;
        request
    }

    /// Runs one strategy. Compression by the local model and relevance
    /// filtering are left to the caller.
    pub fn apply(&self, strategy: StrategyType, request: ApiRequest) -> (r: StrategyOutcome)
        ensures
            (strategy == StrategyType::LlmCompress || strategy == StrategyType::RelevanceFilter)
                <==> r is Deferred,
            r matches StrategyOutcome::Deferred(q) ==> q == request,
    {
        match strategy {
            StrategyType::StripWhitespace => StrategyOutcome::Applied(self.strip_whitespace(request)),
            StrategyType::RemoveComments => StrategyOutcome::Applied(self.remove_comments(request)),
            StrategyType::TruncateContext => StrategyOutcome::Applied(self.truncate_context(request)),
            StrategyType::Abbreviate => StrategyOutcome::Applied(self.abbreviate(request)),
            StrategyType::ExtractSignatures => StrategyOutcome::Applied(self.extract_signatures(request)),
            StrategyType::Deduplicate => StrategyOutcome::Applied(self.deduplicate(request)),
            StrategyType::LlmCompress | StrategyType::RelevanceFilter => StrategyOutcome::Deferred(request),
        }
    }

    /// Runs the configured strategies in order, stopping once the estimate
    /// is within the target; deferred strategies are skipped and not listed.
    pub fn optimize(&self, request: ApiRequest) -> (r: (ApiRequest, OptimizationStats))
        ensures
            r.1.original_tokens == request_tokens(request),
            r.1.optimized_tokens == request_tokens(r.0),
            r.1.strategies_applied@.len() <= self.config_spec().strategies@.len(),
    {
        let original = self.estimate_tokens(&request);
        let mut current = request;
        let mut names: Vec<String> = Vec::new();
        let mut i: usize = 0;
        while i < self.config.strategies.len()
            invariant
                i <= self.config.strategies@.len(),
                names@.len() <= i,
            decreases self.config.strategies@.len() - i,
        {
            let strategy = self.config.strategies[i];
            match self.apply(strategy, current) {
                StrategyOutcome::Applied(next) => {
                    names.push(strategy_name(strategy));
                    current = next;
                },
                StrategyOutcome::Deferred(same) => {
                    current = same;
                },
            }
            i = i + 1;
            if let Some(target) = self.config.target_tokens {
                if self.estimate_tokens(&current) <= target {
                    break;
                }
            }
        }
        let optimized = self.estimate_tokens(&current);
        let mut stats = OptimizationStats::new(original, optimized);
        stats.strategies_applied = names;
        (current, stats)
    }
}

/// The name under which a strategy is reported.
pub fn strategy_name(s: StrategyType) -> (r: String)
    ensures
        r@ == match s {
            StrategyType::StripWhitespace => "strip_whitespace"@,
            StrategyType::RemoveComments => "remove_comments"@,
            StrategyType::TruncateContext => "truncate_context"@,
            StrategyType::Abbreviate => "abbreviate"@,
            StrategyType::LlmCompress => "llm_compress"@,
            StrategyType::RelevanceFilter => "relevance_filter"@,
            StrategyType::ExtractSignatures => "extract_signatures"@,
            StrategyType::Deduplicate => "deduplicate"@,
        },
{
    String::from_str(match s {
        StrategyType::StripWhitespace => "strip_whitespace",
        StrategyType::RemoveComments => "remove_comments",
        StrategyType::TruncateContext => "truncate_context",
        StrategyType::Abbreviate => "abbreviate",
        StrategyType::LlmCompress => "llm_compress",
        StrategyType::RelevanceFilter => "relevance_filter",
        StrategyType::ExtractSignatures => "extract_signatures",
        StrategyType::Deduplicate => "deduplicate",
    })
}

} // verus!
