//! Failures of a provider call.

use vstd::prelude::*;
use crate::text::{concat, contains, has_substring};

verus! {

#[derive(Debug, Clone)]
pub enum ApiError {
    /// The connection failed (network, reset, DNS).
    Http(String),
    /// 401/403: the credentials were refused.
    Auth(String),
    /// 429 without an exhaustion marker.
    RateLimited { retry_after_secs: u64 },
    /// Any other failure status, or a malformed response.
    Provider(String),
    /// A body that could not be encoded or decoded.
    Serialization(String),
    /// The metered primary has run out of credit.
    Exhausted,
    /// The fallback reported itself unavailable.
    FallbackUnavailable(String),
}

/// Seconds to wait on a rate limit when the provider names none.
pub const DEFAULT_RETRY_AFTER_SECS: u64 = 60;

/// Whether a 429 body says that credit ran out.
pub open spec fn names_exhaustion(body: Seq<char>) -> bool {
    contains(body, "insufficient"@) || contains(body, "quota"@) || contains(body, "balance"@)
}

/// The character of a decimal digit.
pub open spec fn digit_of(d: nat) -> char {
    if d == 0 { '0' } else if d == 1 { '1' } else if d == 2 { '2' } else if d == 3 { '3' }
    else if d == 4 { '4' } else if d == 5 { '5' } else if d == 6 { '6' } else if d == 7 { '7' }
    else if d == 8 { '8' } else { '9' }
}

fn digit_char(d: u64) -> (c: char)
    requires
        d < 10,
    ensures
        c == digit_of(d as nat),
{
    if d == 0 { '0' } else if d == 1 { '1' } else if d == 2 { '2' } else if d == 3 { '3' }
    else if d == 4 { '4' } else if d == 5 { '5' } else if d == 6 { '6' } else if d == 7 { '7' }
    else if d == 8 { '8' } else { '9' }
}

/// The decimal digits of `n`.
pub open spec fn decimal_text(n: nat) -> Seq<char>
    decreases n,
{
    if n < 10 {
        seq![digit_of(n)]
    } else {
        decimal_text(n / 10).push(digit_of(n % 10))
    }
}

/// The decimal digits of `n`, without sign or padding.
pub fn decimal(n: u64) -> (r: String)
    ensures
        r@ == decimal_text(n as nat),
{
    // Digits are produced least significant first, then emitted in order.
    let mut digits: Vec<char> = Vec::new();
    let mut m = n;
    let ghost mut rest: Seq<char> = Seq::empty();
    loop
        invariant_except_break
            decimal_text(n as nat) == decimal_text(m as nat) + rest,
        invariant
            digits@ == rest.reverse(),
        ensures
            decimal_text(n as nat) == rest,
            digits@ == rest.reverse(),
        decreases m,
    {
        let c = digit_char(m % 10);
        digits.push(c);
        if m < 10 {
            proof {
                assert(decimal_text(m as nat) == seq![c]);
                assert(digits@ =~= (seq![c] + rest).reverse());
                rest = seq![c] + rest;
            }
            assert(decimal_text(n as nat) == rest);
            break;
        }
        proof {
            assert(decimal_text(m as nat) == decimal_text((m / 10) as nat).push(c));
            assert(decimal_text((m / 10) as nat).push(c) + rest =~= decimal_text((m / 10) as nat) + (seq![c] + rest));
            assert(digits@ =~= (seq![c] + rest).reverse());
            rest = seq![c] + rest;
        }
        m = m / 10;
    }
    let mut out = String::new();
    let mut i = digits.len();
    while i > 0
        invariant
            i <= digits@.len(),
            digits@ == rest.reverse(),
            out@ =~= rest.subrange(0, (digits@.len() - i) as int),
        decreases i,
    {
        i = i - 1;
        crate::text::push_char(&mut out, digits[i]);
        assert(rest[(digits@.len() - i - 1) as int] == digits@[i as int]);
    }
    assert(rest.subrange(0, rest.len() as int) == rest);
    out
}

/// Maps an HTTP status and body to the outcome of a call: success for 2xx,
/// `Auth` for 401/403, `Exhausted` for a 429 whose body names exhaustion,
/// `RateLimited` (60 s) for another 429, and `Provider` otherwise.
pub fn classify_status(status: u16, body: &str) -> (r: Result<(), ApiError>)
    ensures
        200 <= status < 300 <==> r is Ok,
        (status == 401 || status == 403) ==> (r matches Err(ApiError::Auth(m)) && m@ == body@),
        status == 429 && names_exhaustion(body@) ==> r matches Err(ApiError::Exhausted),
        status == 429 && !names_exhaustion(body@) ==> (r matches Err(ApiError::RateLimited { retry_after_secs }) && retry_after_secs == DEFAULT_RETRY_AFTER_SECS),
        !(200 <= status < 300) && status != 401 && status != 403 && status != 429 ==> (r matches Err(ApiError::Provider(m)) && m@ == decimal_text(status as nat) + ": "@ + body@),
{
    if 200 <= status && status < 300 {
        Ok(())
    } else if status == 401 || status == 403 {
        Err(ApiError::Auth(String::from_str(body)))
    } else if status == 429 {
        if has_substring(body, "insufficient") || has_substring(body, "quota") || has_substring(body, "balance") {
            Err(ApiError::Exhausted)
        } else {
            Err(ApiError::RateLimited { retry_after_secs: DEFAULT_RETRY_AFTER_SECS })
        }
    } else {
        let code = decimal(status as u64);
        let head = concat(code.as_str(), ": ");
        Err(ApiError::Provider(concat(head.as_str(), body)))
    }
}

} // verus!
