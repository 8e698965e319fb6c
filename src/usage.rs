//! Responses and their token accounting.

use vstd::prelude::*;

verus! {

/// Token counts reported for one response. `total_tokens` is always the sum
/// of the prompt and completion counts; it is 64 bits wide so that the sum
/// of two 32-bit counts always fits.
#[derive(Debug, Clone, PartialEq, Eq, Structural)]
pub struct TokenUsage {
    pub prompt_tokens: u32,
    pub completion_tokens: u32,
    pub total_tokens: u64,
    /// Tokens written to the provider's prompt cache.
    pub cache_creation_tokens: Option<u32>,
    /// Tokens served from the provider's prompt cache.
    pub cache_read_tokens: Option<u32>,
}

impl TokenUsage {
    /// The total is the sum of its parts.
    pub open spec fn wf(&self) -> bool {
        self.total_tokens == self.prompt_tokens + self.completion_tokens
    }

    /// A usage record with the given counts and no cache figures.
    pub open spec fn is_plain(&self, prompt: u32, completion: u32) -> bool {
        &&& self.prompt_tokens == prompt
        &&& self.completion_tokens == completion
        &&& self.total_tokens == prompt + completion
        &&& self.cache_creation_tokens is None
        &&& self.cache_read_tokens is None
    }

    pub fn new(prompt_tokens: u32, completion_tokens: u32) -> (r: Self)
        ensures
            r.wf(),
            r.is_plain(prompt_tokens, completion_tokens),
    {
        TokenUsage {
            prompt_tokens,
            completion_tokens,
            total_tokens: prompt_tokens as u64 + completion_tokens as u64,
            cache_creation_tokens: None,
            cache_read_tokens: None,
        }
    }

    /// A usage record carrying the provider's cache figures.
    pub fn with_cache(
        prompt_tokens: u32,
        completion_tokens: u32,
        cache_creation: Option<u32>,
        cache_read: Option<u32>,
    ) -> (r: Self)
        ensures
            r.wf(),
            r.prompt_tokens == prompt_tokens,
            r.completion_tokens == completion_tokens,
            r.cache_creation_tokens == cache_creation,
            r.cache_read_tokens == cache_read,
    {
        TokenUsage {
            prompt_tokens,
            completion_tokens,
            total_tokens: prompt_tokens as u64 + completion_tokens as u64,
            cache_creation_tokens: cache_creation,
            cache_read_tokens: cache_read,
        }
    }

    /// Tokens that were served from the cache.
    pub fn cache_savings(&self) -> (r: u32)
        ensures
            r == match self.cache_read_tokens {
                Some(t) => t,
                None => 0,
            },
    {
        match self.cache_read_tokens {
            Some(t) => t,
            None => 0,
        }
    }

    /// Whether the provider reported any cache activity.
    pub fn has_cache_activity(&self) -> (r: bool)
        ensures
            r == (self.cache_creation_tokens is Some || self.cache_read_tokens is Some),
    {
        self.cache_creation_tokens.is_some() || self.cache_read_tokens.is_some()
    }
}

impl Default for TokenUsage {
    fn default() -> (r: Self)
        ensures
            r.is_plain(0, 0),
    {
        TokenUsage::new(0, 0)
    }
}

/// Why the provider stopped generating.
#[derive(Debug, Clone, Copy, PartialEq, Eq, Structural)]
pub enum StopReason {
    EndTurn,
    MaxTokens,
    StopSequence,
    ToolUse,
}

/// One response of a provider.
#[derive(Debug, Clone)]
pub struct ApiResponse {
    pub content: String,
    pub usage: TokenUsage,
    /// The model identifier echoed by the provider.
    pub model: String,
    /// True exactly when the provider hit the output limit.
    pub truncated: bool,
    pub stop_reason: Option<StopReason>,
}

/// A count read from a response, clamped to 32 bits.
pub open spec fn clamp_count(n: u64) -> u32 {
    if n > u32::MAX as u64 {
        u32::MAX
    } else {
        n as u32
    }
}

pub fn clamp_to_u32(n: u64) -> (r: u32)
    ensures
        r == clamp_count(n),
{
    if n > u32::MAX as u64 {
        u32::MAX
    } else {
        n as u32
    }
}

} // verus!
