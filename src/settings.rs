//! Tunables supplied by the configuration layer, and small vocabularies.

use vstd::prelude::*;

verus! {

/// Settings of the orchestrator.
#[derive(Debug, Clone)]
pub struct OrchestratorSettings {
    pub primary_provider: String,
    pub fallback_provider: String,
    pub max_retries: u32,
    pub preserve_context: bool,
    pub allow_primary_after_fallback: bool,
    pub session_timeout_secs: u64,
    pub max_history: usize,
}

impl OrchestratorSettings {
    /// Settings for the named providers, with the usual tunables: two
    /// retries, context preserved, no return to the primary after a
    /// fallback, an hour's session timeout and twenty turns of history.
    pub fn new(primary_provider: String, fallback_provider: String) -> (r: Self)
        ensures
            r.primary_provider == primary_provider,
            r.fallback_provider == fallback_provider,
            r.max_retries == 2,
            r.preserve_context,
            !r.allow_primary_after_fallback,
            r.session_timeout_secs == 3600,
            r.max_history == 20,
    {
        OrchestratorSettings {
            primary_provider,
            fallback_provider,
            max_retries: 2,
            preserve_context: true,
            allow_primary_after_fallback: false,
            session_timeout_secs: 3600,
            max_history: 20,
        }
    }
}

/// Settings of the prompt optimizer.
#[derive(Debug, Clone)]
pub struct OptimizationSettings {
    pub target_tokens: usize,
    pub strategies: Vec<String>,
    pub preserve_code_blocks: bool,
    pub use_local_llm: bool,
}

impl Default for OptimizationSettings {
    fn default() -> (r: Self)
        ensures
            r.target_tokens == 4000,
            r.strategies@.len() == 3,
            r.strategies@[0]@ == "strip_whitespace"@,
            r.strategies@[1]@ == "remove_comments"@,
            r.strategies@[2]@ == "relevance_filter"@,
            r.preserve_code_blocks,
            r.use_local_llm,
    {
        let mut strategies: Vec<String> = Vec::new();
        strategies.push(String::from_str("strip_whitespace"));
        strategies.push(String::from_str("remove_comments"));
        strategies.push(String::from_str("relevance_filter"));
        OptimizationSettings { target_tokens: 4000, strategies, preserve_code_blocks: true, use_local_llm: true }
    }
}

/// Settings of the cache optimizer and tracker.
#[derive(Debug, Clone, Copy, PartialEq, Eq, Structural)]
pub struct CacheSettings {
    pub min_cache_tokens: usize,
    pub max_breakpoints: usize,
    pub auto_reorder: bool,
    pub track_cache: bool,
}

impl Default for CacheSettings {
    fn default() -> (r: Self)
        ensures
            r.min_cache_tokens == 1024,
            r.max_breakpoints == 4,
            r.auto_reorder,
            r.track_cache,
    {
        CacheSettings { min_cache_tokens: 1024, max_breakpoints: 4, auto_reorder: true, track_cache: true }
    }
}

/// A text-shrinking strategy.
#[derive(Debug, Clone, Copy, PartialEq, Eq, Structural)]
pub enum StrategyType {
    StripWhitespace,
    RemoveComments,
    TruncateContext,
    Abbreviate,
    LlmCompress,
    RelevanceFilter,
    ExtractSignatures,
    Deduplicate,
}

/// Which strategies to apply, in order, and towards what budget.
#[derive(Debug, Clone)]
pub struct OptimizationConfig {
    pub target_tokens: Option<usize>,
    pub strategies: Vec<StrategyType>,
    pub use_local_llm: bool,
    pub preserve_code_blocks: bool,
}

impl Default for OptimizationConfig {
    fn default() -> (r: Self)
        ensures
            r.target_tokens == Some(4000usize),
            r.strategies@ == seq![
                StrategyType::StripWhitespace,
                StrategyType::RemoveComments,
                StrategyType::RelevanceFilter,
            ],
            r.use_local_llm,
            r.preserve_code_blocks,
    {
        let mut strategies: Vec<StrategyType> = Vec::new();
        strategies.push(StrategyType::StripWhitespace);
        strategies.push(StrategyType::RemoveComments);
        strategies.push(StrategyType::RelevanceFilter);
        OptimizationConfig { target_tokens: Some(4000), strategies, use_local_llm: true, preserve_code_blocks: true }
    }
}

/// Failures of the local preprocessing model.
#[derive(Debug, Clone)]
pub enum LocalAgentError {
    Connection(String),
    Inference(String),
    Config(String),
}

/// Models the metered primary offers for code.
#[derive(Debug, Clone, Copy, PartialEq, Eq, Structural)]
pub enum VeniceModel {
    Llama3_3_70B,
    DeepSeekCoderV2,
    Qwen25Coder32B,
    VeniceSmall,
    GrokCodeFast,
}

impl VeniceModel {
    pub open spec fn id_spec(self) -> Seq<char> {
        match self {
            VeniceModel::Llama3_3_70B => "llama-3.3-70b"@,
            VeniceModel::DeepSeekCoderV2 => "deepseek-coder-v2"@,
            VeniceModel::Qwen25Coder32B => "qwen-2.5-coder-32b"@,
            VeniceModel::VeniceSmall => "venice-small"@,
            VeniceModel::GrokCodeFast => "grok-code-fast-1"@,
        }
    }

    /// The provider's identifier of the model.
    pub fn model_id(&self) -> (r: &'static str)
        ensures
            r@ == self.id_spec(),
    {
        match self {
            VeniceModel::Llama3_3_70B => "llama-3.3-70b",
            VeniceModel::DeepSeekCoderV2 => "deepseek-coder-v2",
            VeniceModel::Qwen25Coder32B => "qwen-2.5-coder-32b",
            VeniceModel::VeniceSmall => "venice-small",
            VeniceModel::GrokCodeFast => "grok-code-fast-1",
        }
    }
}

} // verus!
