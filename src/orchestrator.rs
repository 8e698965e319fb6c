//! The fallback policy: which provider a turn goes to, and what happens after
//! each attempt. The caller performs the calls and sleeps; these functions
//! decide.

use vstd::prelude::*;
use crate::error::{decimal, decimal_text, ApiError};
use crate::metrics::TokenMetrics;
use crate::request::ApiRequest;
use crate::tracker::sat64;
use crate::usage::ApiResponse;
use crate::text::push_text;

verus! {

#[derive(Debug, Clone, Copy, PartialEq, Eq, Structural)]
pub enum OrchestratorState {
    /// Using the metered primary.
    UsingVenice,
    /// The primary's balance is low; it is still used.
    VeniceLow,
    /// Requests go to the fallback.
    UsingFallback,
    /// Neither provider can serve.
    Unavailable,
}

/// Tuning of the policy; balances in millionths of a unit.
#[derive(Debug, Clone, Copy, PartialEq, Eq, Structural)]
pub struct OrchestratorConfig {
    pub venice_min_balance: i64,
    pub allow_venice_after_fallback: bool,
    pub max_retries: u32,
    pub preserve_context: bool,
}

impl Default for OrchestratorConfig {
    fn default() -> (r: Self)
        ensures
            r.venice_min_balance == 100_000,
            !r.allow_venice_after_fallback,
            r.max_retries == 2,
            r.preserve_context,
    {
        OrchestratorConfig {
            venice_min_balance: 100_000,
            allow_venice_after_fallback: false,
            max_retries: 2,
            preserve_context: true,
        }
    }
}

/// Where a turn goes first.
#[derive(Debug, Clone, Copy, PartialEq, Eq, Structural)]
pub enum Route {
    Primary,
    Fallback,
    Refuse,
}

pub open spec fn route_of(state: OrchestratorState) -> Route {
    match state {
        OrchestratorState::UsingVenice | OrchestratorState::VeniceLow => Route::Primary,
        OrchestratorState::UsingFallback => Route::Fallback,
        OrchestratorState::Unavailable => Route::Refuse,
    }
}

pub fn route(state: OrchestratorState) -> (r: Route)
    ensures
        r == route_of(state),
{
    match state {
        OrchestratorState::UsingVenice | OrchestratorState::VeniceLow => Route::Primary,
        OrchestratorState::UsingFallback => Route::Fallback,
        OrchestratorState::Unavailable => Route::Refuse,
    }
}

/// What the caller does next after an attempt on the primary.
#[derive(Debug, Clone)]
pub enum NextStep {
    /// Hand the response to the caller.
    Deliver,
    /// Sleep this many seconds, then try the primary again.
    Retry { after_secs: u64 },
    /// Send the request to the fallback, with the handoff note when `handoff`.
    Fallback { handoff: bool },
    /// Give the error to the caller.
    Fail(ApiError),
}

/// The outcome of one attempt on the primary: success with the balances read
/// after it, or the error.
#[derive(Debug, Clone)]
pub enum PrimaryOutcome {
    Succeeded { balance_usd: i64, balance_diem: i64 },
    Failed(ApiError),
}

/// The state and step after attempt number `retries` (0 for the first) on
/// the primary.
pub open spec fn after_primary_spec(
    state: OrchestratorState,
    cfg: OrchestratorConfig,
    retries: u32,
    outcome: PrimaryOutcome,
    next: OrchestratorState,
    step: NextStep,
) -> bool {
    match outcome {
        PrimaryOutcome::Succeeded { balance_usd, balance_diem } => {
            &&& step is Deliver
            &&& next == if balance_usd < cfg.venice_min_balance && balance_diem < cfg.venice_min_balance {
                OrchestratorState::VeniceLow
            } else {
                state
            }
        },
        PrimaryOutcome::Failed(ApiError::Exhausted) => {
            &&& next == OrchestratorState::UsingFallback
            &&& step == NextStep::Fallback { handoff: true }
        },
        PrimaryOutcome::Failed(ApiError::RateLimited { retry_after_secs }) => {
            &&& next == state
            &&& if retries < cfg.max_retries {
                step == NextStep::Retry { after_secs: retry_after_secs }
            } else {
                step == NextStep::Fallback { handoff: false }
            }
        },
        PrimaryOutcome::Failed(ApiError::Auth(m)) => {
            &&& next == state
            &&& step matches NextStep::Fail(x) && x == ApiError::Auth(m)
        },
        PrimaryOutcome::Failed(e) => {
            &&& next == state
            &&& if retries < cfg.max_retries {
                step == NextStep::Retry { after_secs: 1 }
            } else {
                step matches NextStep::Fail(x) && x == e
            }
        },
    }
}

/// Decides what follows an attempt on the primary: success delivers (and
/// marks the balance low when both balances are under the minimum);
/// exhaustion switches to the fallback with a handoff; a rate limit retries
/// after the given delay while retries remain, then falls back without
/// handoff; refused credentials (`Auth`) fail at once, without a retry;
/// any other error (a transport failure, or a provider or decoding error,
/// which may be a transient 5xx) retries after a second while retries
/// remain, then fails.
pub fn after_primary(
    state: OrchestratorState,
    cfg: &OrchestratorConfig,
    retries: u32,
    outcome: PrimaryOutcome,
) -> (r: (OrchestratorState, NextStep))
    ensures
        after_primary_spec(state, *cfg, retries, outcome, r.0, r.1),
{
    match outcome {
        PrimaryOutcome::Succeeded { balance_usd, balance_diem } => {
            let next = if balance_usd < cfg.venice_min_balance && balance_diem < cfg.venice_min_balance {
                OrchestratorState::VeniceLow
            } else {
                state
            };
            (next, NextStep::Deliver)
        },
        PrimaryOutcome::Failed(ApiError::Exhausted) => {
            (OrchestratorState::UsingFallback, NextStep::Fallback { handoff: true })
        },
        PrimaryOutcome::Failed(ApiError::RateLimited { retry_after_secs }) => {
            if retries < cfg.max_retries {
                (state, NextStep::Retry { after_secs: retry_after_secs })
            } else {
                (state, NextStep::Fallback { handoff: false })
            }
        },
        PrimaryOutcome::Failed(ApiError::Auth(m)) => (state, NextStep::Fail(ApiError::Auth(m))),
        PrimaryOutcome::Failed(e) => {
            if retries < cfg.max_retries {
                (state, NextStep::Retry { after_secs: 1 })
            } else {
                (state, NextStep::Fail(e))
            }
        },
    }
}

/// The state after the fallback reports whether it is available: an
/// unavailable fallback makes the orchestrator unavailable.
pub fn after_fallback_check(state: OrchestratorState, available: bool, name: &str) -> (r: (
    OrchestratorState,
    Result<(), ApiError>,
))
    ensures
        available ==> r.0 == state && r.1 is Ok,
        !available ==> r.0 == OrchestratorState::Unavailable && (r.1 matches Err(
            ApiError::FallbackUnavailable(n),
        ) && n@ == name@),
{
    if available {
        (state, Ok(()))
    } else {
        (OrchestratorState::Unavailable, Err(ApiError::FallbackUnavailable(String::from_str(name))))
    }
}

/// The note put before the task when a session moves to the fallback.
pub open spec fn handoff_note(prior: nat) -> Seq<char> {
    "\n\n[Session handoff from Venice.ai - "@ + decimal_text(prior) + " previous responses in context]\n"@
}

/// The task sent to the fallback after a handoff: prefixed with a note
/// counting the carried-over responses when context is preserved and there
/// is any.
pub fn handoff_task(task: &str, prior_responses: u64, preserve_context: bool) -> (r: String)
    ensures
        preserve_context && prior_responses > 0 ==> r@ == handoff_note(prior_responses as nat) + task@,
        !(preserve_context && prior_responses > 0) ==> r@ == task@,
{
    if preserve_context && prior_responses > 0 {
        let mut out = String::new();
        push_text(&mut out, "\n\n[Session handoff from Venice.ai - ");
        let n = decimal(prior_responses);
        push_text(&mut out, n.as_str());
        push_text(&mut out, " previous responses in context]\n");
        push_text(&mut out, task);
        proof {
            assert(Seq::<char>::empty() + "\n\n[Session handoff from Venice.ai - "@ == "\n\n[Session handoff from Venice.ai - "@);
        }
        out
    } else {
        String::from_str(task)
    }
}

/// The request sent to the fallback after a handoff.
pub fn handoff_request(request: ApiRequest, prior_responses: u64, preserve_context: bool) -> (r: ApiRequest)
    ensures
        preserve_context && prior_responses > 0 ==> r.task@ == handoff_note(prior_responses as nat)
            + request.task@,
        !(preserve_context && prior_responses > 0) ==> r.task@ == request.task@,
        r == (ApiRequest { task: r.task, ..request }),
{
    let task = handoff_task(request.task.as_str(), prior_responses, preserve_context);
    ApiRequest { task, ..request }
}

/// Whether `reset_to_venice` may return to the primary.
pub fn reset_state(state: OrchestratorState, primary_exhausted: bool) -> (r: OrchestratorState)
    ensures
        r == if primary_exhausted {
            state
        } else {
            OrchestratorState::UsingVenice
        },
{
    if primary_exhausted {
        state
    } else {
        OrchestratorState::UsingVenice
    }
}

/// The fallback that runs a command-line agent.
#[derive(Debug, Clone)]
pub struct ClaudeCodeFallback {
    command: String,
    working_dir: Option<String>,
}

impl ClaudeCodeFallback {
    pub closed spec fn command_spec(&self) -> Seq<char> {
        self.command@
    }

    pub closed spec fn working_dir_spec(&self) -> Option<Seq<char>> {
        match self.working_dir {
            Some(d) => Some(d@),
            None => None,
        }
    }

    /// A fallback that runs `command` in the current directory.
    pub fn new(command: String) -> (r: Self)
        ensures
            r.command_spec() == command@,
            r.working_dir_spec() is None,
    {
        ClaudeCodeFallback { command, working_dir: None }
    }

    pub fn with_command(self, command: String) -> (r: Self)
        ensures
            r.command_spec() == command@,
            r.working_dir_spec() == self.working_dir_spec(),
    {
        ClaudeCodeFallback { command, ..self }
    }

    pub fn with_working_dir(self, dir: String) -> (r: Self)
        ensures
            r.command_spec() == self.command_spec(),
            r.working_dir_spec() == Some(dir@),
    {
        ClaudeCodeFallback { working_dir: Some(dir), ..self }
    }

    pub fn command(&self) -> (r: &str)
        ensures
            r@ == self.command_spec(),
    {
        self.command.as_str()
    }

    pub fn working_dir(&self) -> (r: Option<&String>)
        ensures
            match r {
                Some(d) => self.working_dir_spec() == Some(d@),
                None => self.working_dir_spec() is None,
            },
    {
        match &self.working_dir {
            Some(d) => Some(d),
            None => None,
        }
    }
}

/// The orchestrator's state between turns: where requests go, how many
/// primary responses a handoff would carry over, and the token totals.
pub struct Orchestrator {
    config: OrchestratorConfig,
    state: OrchestratorState,
    prior_responses: u64,
    metrics: TokenMetrics,
}

impl Orchestrator {
    pub closed spec fn state_spec(&self) -> OrchestratorState {
        self.state
    }

    pub closed spec fn config_spec(&self) -> OrchestratorConfig {
        self.config
    }

    pub closed spec fn prior_spec(&self) -> u64 {
        self.prior_responses
    }

    pub closed spec fn metrics_spec(&self) -> TokenMetrics {
        self.metrics
    }

    pub fn new(config: OrchestratorConfig) -> (r: Self)
        ensures
            r.state_spec() == OrchestratorState::UsingVenice,
            r.config_spec() == config,
            r.prior_spec() == 0,
            r.metrics_spec().total_input_tokens == 0,
            r.metrics_spec().total_output_tokens == 0,
            r.metrics_spec().request_count == 0,
    {
        Orchestrator { config, state: OrchestratorState::UsingVenice, prior_responses: 0, metrics: TokenMetrics::new() }
    }

    pub fn state(&self) -> (r: OrchestratorState)
        ensures
            r == self.state_spec(),
    {
        self.state
    }

    /// Where the next turn goes.
    pub fn route(&self) -> (r: Route)
        ensures
            r == route_of(self.state_spec()),
    {
        route(self.state)
    }

    /// Takes the outcome of attempt `retries` on the primary and says what
    /// to do next; a delivered response is counted for a later handoff (when
    /// context is preserved) and in the token totals.
    pub fn after_primary_attempt(&mut self, retries: u32, outcome: PrimaryOutcome, response: Option<&ApiResponse>) -> (r: NextStep)
        ensures
            after_primary_spec(old(self).state_spec(), old(self).config_spec(), retries, outcome, final(self).state_spec(), r),
            final(self).config_spec() == old(self).config_spec(),
            final(self).prior_spec() == if r is Deliver && response is Some && old(self).config_spec().preserve_context {
                sat64(old(self).prior_spec() as nat, 1)
            } else {
                old(self).prior_spec()
            },
            ({
                let (m0, m1) = (old(self).metrics_spec(), final(self).metrics_spec());
                if r is Deliver && response is Some {
                    let u = response->0.usage;
                    &&& m1.total_input_tokens == sat64(m0.total_input_tokens as nat, u.prompt_tokens as nat)
                    &&& m1.total_output_tokens == sat64(m0.total_output_tokens as nat, u.completion_tokens as nat)
                    &&& m1.tokens_saved == m0.tokens_saved
                    &&& m1.request_count == sat64(m0.request_count as nat, 1)
                } else {
                    m1 == m0
                }
            }),
    {
        let (next, step) = after_primary(self.state, &self.config, retries, outcome);
        self.state = next;
        if let NextStep::Deliver = step {
            if let Some(resp) = response {
                self.metrics.record_request(resp.usage.prompt_tokens, resp.usage.completion_tokens, 0);
                if self.config.preserve_context {
                    self.prior_responses = self.prior_responses.saturating_add(1);
                }
            }
        }
        step
    }

    /// The request to give the fallback: with the handoff note when the
    /// switch came from exhaustion.
    pub fn fallback_request(&self, request: ApiRequest, handoff: bool) -> (r: ApiRequest)
        ensures
            handoff && self.config_spec().preserve_context && self.prior_spec() > 0 ==> r.task@
                == handoff_note(self.prior_spec() as nat) + request.task@,
            !(handoff && self.config_spec().preserve_context && self.prior_spec() > 0) ==> r.task@
                == request.task@,
            r == (ApiRequest { task: r.task, ..request }),
    {
        if handoff {
            handoff_request(request, self.prior_responses, self.config.preserve_context)
        } else {
            request
        }
    }

    /// Records whether the fallback is available; an unavailable one makes
    /// the orchestrator unavailable.
    pub fn fallback_checked(&mut self, available: bool, name: &str) -> (r: Result<(), ApiError>)
        ensures
            available ==> final(self).state_spec() == old(self).state_spec() && r is Ok,
            !available ==> final(self).state_spec() == OrchestratorState::Unavailable && r is Err,
            final(self).prior_spec() == old(self).prior_spec(),
            final(self).config_spec() == old(self).config_spec(),
    {
        let (next, r) = after_fallback_check(self.state, available, name);
        self.state = next;
        r
    }

    /// Sends every later request to the fallback.
    pub fn force_fallback(&mut self)
        ensures
            final(self).state_spec() == OrchestratorState::UsingFallback,
            final(self).prior_spec() == old(self).prior_spec(),
            final(self).config_spec() == old(self).config_spec(),
    {
        self.state = OrchestratorState::UsingFallback;
    }

    /// Returns to the primary unless its credit is exhausted.
    pub fn reset_to_venice(&mut self, primary_exhausted: bool)
        ensures
            final(self).state_spec() == if primary_exhausted { old(self).state_spec() } else { OrchestratorState::UsingVenice },
            final(self).prior_spec() == old(self).prior_spec(),
            final(self).config_spec() == old(self).config_spec(),
    {
        self.state = reset_state(self.state, primary_exhausted);
    }

    /// Token totals of the delivered responses.
    pub fn metrics(&self) -> (r: &TokenMetrics)
        ensures
            *r == self.metrics_spec(),
    {
        &self.metrics
    }
}

} // verus!
