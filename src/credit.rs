//! Balance tracking for the metered primary provider. Balances are held in
//! millionths of a unit (micro-USD, micro-Diem); times in milliseconds.

use vstd::prelude::*;
use crate::error::{classify_status, decimal_text, names_exhaustion, ApiError, DEFAULT_RETRY_AFTER_SECS};

verus! {

/// A snapshot of the primary's balances.
#[derive(Debug, Clone, Copy, PartialEq, Eq, Structural)]
pub struct VeniceBalance {
    pub balance_usd: i64,
    pub balance_diem: i64,
    pub exhausted: bool,
    pub last_updated_ms: Option<u64>,
}

/// Whether both balances are under their minima.
pub open spec fn both_below(usd: i64, diem: i64, min_usd: i64, min_diem: i64) -> bool {
    usd < min_usd && diem < min_diem
}

/// Tracks the primary's credit. Once exhausted it stays exhausted until an
/// explicit `reset`.
pub struct CreditTracker {
    balance: VeniceBalance,
    exhausted: bool,
    min_usd: i64,
    min_diem: i64,
}

impl CreditTracker {
    pub closed spec fn exhausted_spec(&self) -> bool {
        self.exhausted
    }

    pub closed spec fn balance_spec(&self) -> VeniceBalance {
        self.balance
    }

    pub closed spec fn min_usd_spec(&self) -> i64 {
        self.min_usd
    }

    pub closed spec fn min_diem_spec(&self) -> i64 {
        self.min_diem
    }

    pub fn new(min_usd: i64, min_diem: i64) -> (r: Self)
        ensures
            !r.exhausted_spec(),
            r.min_usd_spec() == min_usd,
            r.min_diem_spec() == min_diem,
            r.balance_spec() == (VeniceBalance {
                balance_usd: 0,
                balance_diem: 0,
                exhausted: false,
                last_updated_ms: None,
            }),
    {
        CreditTracker {
            balance: VeniceBalance { balance_usd: 0, balance_diem: 0, exhausted: false, last_updated_ms: None },
            exhausted: false,
            min_usd,
            min_diem,
        }
    }

    pub fn is_exhausted(&self) -> (r: bool)
        ensures
            r == self.exhausted_spec(),
    {
        self.exhausted
    }

    pub fn get_balance(&self) -> (r: VeniceBalance)
        ensures
            r == self.balance_spec(),
    {
        self.balance
    }

    /// Records balances read from response headers or the probe endpoint;
    /// both under their minima marks the tracker exhausted.
    pub fn update_balance(&mut self, usd: i64, diem: i64, now_ms: u64)
        ensures
            final(self).exhausted_spec() == (old(self).exhausted_spec() || both_below(
                usd,
                diem,
                old(self).min_usd_spec(),
                old(self).min_diem_spec(),
            )),
            final(self).balance_spec() == (VeniceBalance {
                balance_usd: usd,
                balance_diem: diem,
                exhausted: both_below(usd, diem, old(self).min_usd_spec(), old(self).min_diem_spec()),
                last_updated_ms: Some(now_ms),
            }),
            final(self).min_usd_spec() == old(self).min_usd_spec(),
            final(self).min_diem_spec() == old(self).min_diem_spec(),
    {
        let low = usd < self.min_usd && diem < self.min_diem;
        self.balance = VeniceBalance { balance_usd: usd, balance_diem: diem, exhausted: low, last_updated_ms: Some(now_ms) };
        if low {
            self.exhausted = true;
        }
    }

    /// Records the balances found in a response's headers; an absent header
    /// keeps the previous figure. Both under their minima marks the tracker
    /// exhausted.
    pub fn update_from_headers(&mut self, usd: Option<i64>, diem: Option<i64>, now_ms: u64)
        ensures
            ({
                let u = match usd { Some(v) => v, None => old(self).balance_spec().balance_usd };
                let d = match diem { Some(v) => v, None => old(self).balance_spec().balance_diem };
                let low = both_below(u, d, old(self).min_usd_spec(), old(self).min_diem_spec());
                &&& final(self).balance_spec().balance_usd == u
                &&& final(self).balance_spec().balance_diem == d
                &&& final(self).balance_spec().last_updated_ms == Some(now_ms)
                &&& final(self).balance_spec().exhausted == (old(self).balance_spec().exhausted || low)
                &&& final(self).exhausted_spec() == (old(self).exhausted_spec() || low)
            }),
            final(self).min_usd_spec() == old(self).min_usd_spec(),
            final(self).min_diem_spec() == old(self).min_diem_spec(),
    {
        if let Some(v) = usd {
            self.balance.balance_usd = v;
        }
        if let Some(v) = diem {
            self.balance.balance_diem = v;
        }
        self.balance.last_updated_ms = Some(now_ms);
        if self.balance.balance_usd < self.min_usd && self.balance.balance_diem < self.min_diem {
            self.balance.exhausted = true;
            self.exhausted = true;
        }
    }

    /// Checked before every call: an exhausted tracker fails it with
    /// `Exhausted`, so that no request is sent.
    pub fn admit_request(&self) -> (r: Result<(), ApiError>)
        ensures
            self.exhausted_spec() <==> (r matches Err(ApiError::Exhausted)),
            !self.exhausted_spec() <==> r is Ok,
    {
        if self.exhausted {
            Err(ApiError::Exhausted)
        } else {
            Ok(())
        }
    }

    /// Classifies a response status; a 429 naming exhaustion marks the
    /// tracker exhausted.
    pub fn observe_status(&mut self, status: u16, body: &str) -> (r: Result<(), ApiError>)
        ensures
            final(self).exhausted_spec() == (old(self).exhausted_spec() || (status == 429
                && names_exhaustion(body@))),
            final(self).balance_spec() == old(self).balance_spec(),
            final(self).min_usd_spec() == old(self).min_usd_spec(),
            final(self).min_diem_spec() == old(self).min_diem_spec(),
            200 <= status < 300 <==> r is Ok,
            status == 429 && names_exhaustion(body@) ==> (r matches Err(ApiError::Exhausted)),
            status == 429 && !names_exhaustion(body@) ==> (r matches Err(
                ApiError::RateLimited { retry_after_secs },
            ) && retry_after_secs == DEFAULT_RETRY_AFTER_SECS),
            (status == 401 || status == 403) ==> (r matches Err(ApiError::Auth(m)) && m@ == body@),
            !(200 <= status < 300) && status != 401 && status != 403 && status != 429 ==> (r matches Err(
                ApiError::Provider(m),
            ) && m@ == decimal_text(status as nat) + ": "@ + body@),
    {
        let r = classify_status(status, body);
        if let Err(ApiError::Exhausted) = &r {
            self.exhausted = true;
        }
        r
    }

    /// Clears the exhausted flag.
    pub fn reset(&mut self)
        ensures
            !final(self).exhausted_spec(),
            final(self).balance_spec() == old(self).balance_spec(),
            final(self).min_usd_spec() == old(self).min_usd_spec(),
            final(self).min_diem_spec() == old(self).min_diem_spec(),
    {
        self.exhausted = false;
    }
}

} // verus!
