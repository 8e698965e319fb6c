//! Where a provider is reached and how it authenticates, and which stream
//! dialect it speaks. The transport performs the requests.

use vstd::prelude::*;
use crate::error::ApiError;
use crate::sse::SseFormat;
use crate::text::concat;
use crate::wire::ProviderType;

verus! {

/// The URL a request goes to and the authentication header it carries.
#[derive(Debug, Clone)]
pub struct Endpoint {
    pub url: String,
    /// Header name and value, absent for providers without authentication.
    pub auth: Option<(String, String)>,
}

/// The URL used when none is configured.
pub open spec fn default_url(p: ProviderType) -> Option<Seq<char>> {
    match p {
        ProviderType::Claude => Some("https://api.anthropic.com/v1/messages"@),
        ProviderType::OpenAI => Some("https://api.openai.com/v1/chat/completions"@),
        ProviderType::Ollama => Some("http://localhost:11434/api/chat"@),
        ProviderType::Custom => None,
    }
}

pub open spec fn auth_of(p: ProviderType, key: Seq<char>, r: Option<(String, String)>) -> bool {
    match p {
        ProviderType::Claude => r matches Some(h) && h.0@ == "x-api-key"@ && h.1@ == key,
        ProviderType::Ollama => r is None,
        _ => r matches Some(h) && h.0@ == "Authorization"@ && h.1@ == "Bearer "@ + key,
    }
}

/// The endpoint of a provider: the configured base URL or the provider's
/// default, and its authentication. A custom provider without a base URL is
/// an error.
pub fn endpoint(provider: ProviderType, base_url: &Option<String>, api_key: &str) -> (r: Result<Endpoint, ApiError>)
    ensures
        provider == ProviderType::Custom && base_url is None <==> r is Err,
        r matches Err(ApiError::Provider(m)) ==> m@ == "Custom provider requires base_url"@,
        r is Err ==> (r matches Err(ApiError::Provider(_))),
        r matches Ok(e) ==> (match base_url {
            Some(b) => e.url@ == b@,
            None => Some(e.url@) == default_url(provider),
        }) && auth_of(provider, api_key@, e.auth),
{
    let url = match base_url {
        Some(b) => b.clone(),
        None => match provider {
            ProviderType::Claude => String::from_str("https://api.anthropic.com/v1/messages"),
            ProviderType::OpenAI => String::from_str("https://api.openai.com/v1/chat/completions"),
            ProviderType::Ollama => String::from_str("http://localhost:11434/api/chat"),
            ProviderType::Custom => {
                return Err(ApiError::Provider(String::from_str("Custom provider requires base_url")));
            },
        },
    };
    let auth = match provider {
        ProviderType::Claude => Some((String::from_str("x-api-key"), String::from_str(api_key))),
        ProviderType::Ollama => None,
        _ => Some((String::from_str("Authorization"), concat("Bearer ", api_key))),
    };
    Ok(Endpoint { url, auth })
}

/// The stream dialect of a provider kind.
pub fn stream_format(provider: ProviderType) -> (r: SseFormat)
    ensures
        r == match provider {
            ProviderType::Claude => SseFormat::Anthropic,
            ProviderType::Ollama => SseFormat::Ollama,
            _ => SseFormat::OpenAI,
        },
{
    match provider {
        ProviderType::Claude => SseFormat::Anthropic,
        ProviderType::Ollama => SseFormat::Ollama,
        _ => SseFormat::OpenAI,
    }
}

/// The metered primary's API root when none is configured.
pub open spec fn venice_root(base_url: Option<String>) -> Seq<char> {
    match base_url {
        Some(b) => b@,
        None => "https://api.venice.ai/api/v1"@,
    }
}

/// The primary's chat endpoint.
pub fn venice_chat_url(base_url: &Option<String>) -> (r: String)
    ensures
        r@ == venice_root(*base_url) + "/chat/completions"@,
{
    match base_url {
        Some(b) => concat(b.as_str(), "/chat/completions"),
        None => concat("https://api.venice.ai/api/v1", "/chat/completions"),
    }
}

/// The primary's balance probe endpoint.
pub fn venice_rate_limits_url(base_url: &Option<String>) -> (r: String)
    ensures
        r@ == venice_root(*base_url) + "/api_keys/rate_limits"@,
{
    match base_url {
        Some(b) => concat(b.as_str(), "/api_keys/rate_limits"),
        None => concat("https://api.venice.ai/api/v1", "/api_keys/rate_limits"),
    }
}

} // verus!
