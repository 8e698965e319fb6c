//! A conversation across provider transitions: bounded turn history,
//! deduplicated context and the handoff summary.

use vstd::prelude::*;
use crate::error::{decimal, decimal_text};
use crate::json::same_text;
use crate::request::{ApiRequest, ContextItem};
use crate::text::{chars_of, push_text, string_of};
use crate::usage::ApiResponse;

verus! {

#[derive(Debug, Clone, Copy, PartialEq, Eq, Structural)]
pub struct SessionConfig {
    /// Most turns kept in the history.
    pub max_history: usize,
    pub include_history_in_handoff: bool,
    /// Summarise only key turns in the handoff.
    pub compress_history: bool,
    pub timeout_secs: Option<u64>,
}

impl Default for SessionConfig {
    fn default() -> (r: Self)
        ensures
            r.max_history == 20,
            r.include_history_in_handoff,
            r.compress_history,
            r.timeout_secs == Some(3600u64),
    {
        SessionConfig {
            max_history: 20,
            include_history_in_handoff: true,
            compress_history: true,
            timeout_secs: Some(3600),
        }
    }
}

#[derive(Debug, Clone, Copy, PartialEq, Eq, Structural)]
pub enum SessionState {
    Active,
    HandedOff,
    Completed,
    Expired,
}

/// One recorded exchange.
#[derive(Debug, Clone)]
pub struct Turn {
    pub request_summary: String,
    pub response_summary: String,
    pub provider: String,
    pub tokens_used: u64,
    pub timestamp_ms: Option<u64>,
}

/// `s` cut to `n` characters with "..." appended when it is longer.
pub open spec fn shortened(s: Seq<char>, n: nat) -> Seq<char> {
    if s.len() > n {
        s.subrange(0, n as int) + "..."@
    } else {
        s
    }
}

/// Cuts `s` to `max_len` characters, marking the cut with "...".
pub fn truncate(s: &str, max_len: usize) -> (r: String)
    ensures
        r@ == shortened(s@, max_len as nat),
{
    let cs = chars_of(s);
    if cs.len() > max_len {
        let mut out = string_of(&cs, 0, max_len);
        push_text(&mut out, "...");
        out
    } else {
        String::from_str(s)
    }
}

/// The last `n` elements of `s` (all of it when shorter).
pub open spec fn last_n<T>(s: Seq<T>, n: nat) -> Seq<T> {
    if s.len() > n {
        s.subrange(s.len() - n, s.len() as int)
    } else {
        s
    }
}

/// Statistics of a session.
#[derive(Debug, Clone)]
pub struct SessionStats {
    pub id: String,
    pub state: SessionState,
    pub turns: usize,
    pub total_tokens: u64,
    pub duration_secs: u64,
    pub initial_provider: String,
    pub current_provider: String,
    pub context_items: usize,
}

/// A coding session; times are milliseconds on the caller's clock.
#[derive(Debug)]
pub struct Session {
    id: String,
    config: SessionConfig,
    state: SessionState,
    history: Vec<Turn>,
    context: Vec<ContextItem>,
    initial_provider: String,
    current_provider: String,
    started_at_ms: u64,
    total_tokens: u64,
}

/// One block of the handoff summary for turn `i` of `n`.
pub open spec fn turn_block(i: int, n: int, t: Turn, compress: bool) -> Seq<char> {
    let head = "**Turn "@ + decimal_text((i + 1) as nat) + " ("@ + t.provider@ + "):**\n- Request: "@;
    if compress {
        if i == 0 || i == n - 1 || i % 3 == 0 {
            head + shortened(t.request_summary@, 100) + "\n- Response: "@ + shortened(
                t.response_summary@,
                200,
            ) + "\n\n"@
        } else {
            Seq::<char>::empty()
        }
    } else {
        head + t.request_summary@ + "\n- Response: "@ + t.response_summary@ + "\n\n"@
    }
}

/// The blocks of turns `0..k` of `h`.
pub open spec fn turn_blocks(h: Seq<Turn>, k: int, compress: bool) -> Seq<char>
    decreases k,
{
    if k <= 0 {
        Seq::<char>::empty()
    } else {
        turn_blocks(h, k - 1, compress) + turn_block(k - 1, h.len() as int, h[k - 1], compress)
    }
}

/// The handoff summary of a history.
pub open spec fn handoff_text(h: Seq<Turn>, cfg: SessionConfig) -> Seq<char> {
    if cfg.include_history_in_handoff && h.len() > 0 {
        "## Previous Conversation Summary\n\n"@ + turn_blocks(h, h.len() as int, cfg.compress_history)
    } else {
        Seq::<char>::empty()
    }
}

/// Whether an item with this name is present.
pub open spec fn has_name(s: Seq<ContextItem>, name: Seq<char>) -> bool {
    exists|i: int| 0 <= i < s.len() && (#[trigger] s[i]).name@ == name
}

impl Session {
    pub closed spec fn id_spec(&self) -> Seq<char> {
        self.id@
    }

    pub fn id(&self) -> (r: &str)
        ensures
            r@ == self.id_spec(),
    {
        self.id.as_str()
    }

    pub closed spec fn started_at_spec(&self) -> u64 {
        self.started_at_ms
    }

    pub closed spec fn config_spec(&self) -> SessionConfig {
        self.config
    }

    pub closed spec fn state_spec(&self) -> SessionState {
        self.state
    }

    pub closed spec fn history_spec(&self) -> Seq<Turn> {
        self.history@
    }

    pub closed spec fn context_spec(&self) -> Seq<ContextItem> {
        self.context@
    }

    pub closed spec fn initial_provider_spec(&self) -> Seq<char> {
        self.initial_provider@
    }

    pub closed spec fn current_provider_spec(&self) -> Seq<char> {
        self.current_provider@
    }

    pub closed spec fn total_tokens_spec(&self) -> u64 {
        self.total_tokens
    }

    pub fn new(id: String, config: SessionConfig, initial_provider: String, now_ms: u64) -> (r: Self)
        ensures
            r.id_spec() == id@,
            r.config_spec() == config,
            r.state_spec() == SessionState::Active,
            r.history_spec().len() == 0,
            r.context_spec().len() == 0,
            r.current_provider_spec() == initial_provider@,
            r.initial_provider_spec() == initial_provider@,
            r.started_at_spec() == now_ms,
            r.total_tokens_spec() == 0,
    {
        let current = initial_provider.clone();
        Session {
            id,
            config,
            state: SessionState::Active,
            history: Vec::new(),
            context: Vec::new(),
            initial_provider,
            current_provider: current,
            started_at_ms: now_ms,
            total_tokens: 0,
        }
    }

    /// Records a turn with summaries of the task (200 characters) and the
    /// response (500 characters), then drops the oldest turns beyond
    /// `max_history`.
    pub fn record_turn(&mut self, request: &ApiRequest, response: &ApiResponse, provider: &str, now_ms: u64)
        ensures
            final(self).history_spec().len() <= final(self).config_spec().max_history,
            final(self).config_spec() == old(self).config_spec(),
            final(self).state_spec() == old(self).state_spec(),
            final(self).context_spec() == old(self).context_spec(),
            final(self).current_provider_spec() == old(self).current_provider_spec(),
            ({
                let n = old(self).config_spec().max_history as nat;
                let h = final(self).history_spec();
                let all = old(self).history_spec();
                &&& n > 0 ==> h.len() >= 1 && h.subrange(0, h.len() - 1) == last_n(all, (n - 1) as nat)
                &&& n > 0 ==> h.last().request_summary@ == shortened(request.task@, 200)
                &&& n > 0 ==> h.last().response_summary@ == shortened(response.content@, 500)
                &&& n > 0 ==> h.last().provider@ == provider@
                &&& n > 0 ==> h.last().tokens_used == response.usage.total_tokens
                &&& n == 0 ==> h.len() == 0
            }),
            final(self).total_tokens_spec() == if old(self).total_tokens_spec() as nat + response.usage.total_tokens as nat > u64::MAX {
                u64::MAX
            } else {
                (old(self).total_tokens_spec() + response.usage.total_tokens) as u64
            },
    {
        let turn = Turn {
            request_summary: truncate(request.task.as_str(), 200),
            response_summary: truncate(response.content.as_str(), 500),
            provider: String::from_str(provider),
            tokens_used: response.usage.total_tokens,
            timestamp_ms: Some(now_ms),
        };
        let ghost all = self.history@;
        self.history.push(turn);
        self.total_tokens = self.total_tokens.saturating_add(response.usage.total_tokens);
        let ghost pushed = self.history@;
        assert(pushed == all.push(pushed.last()));
        while self.history.len() > self.config.max_history
            invariant
                self.config == old(self).config,
                self.state == old(self).state,
                self.context == old(self).context,
                self.current_provider == old(self).current_provider,
                self.total_tokens == old(self).total_tokens.saturating_add(
                    request_tokens(response),
                ),
                pushed == all.push(pushed.last()),
                self.history@.len() <= pushed.len(),
                self.history@.len() >= self.config.max_history || self.history@.len() == pushed.len(),
                self.history@ == pushed.subrange(pushed.len() - self.history@.len(), pushed.len() as int),
            decreases self.history@.len(),
        {
            let ghost before = self.history@;
            self.history.remove(0);
            assert(self.history@ =~= pushed.subrange(pushed.len() - self.history@.len(), pushed.len() as int));
        }
        proof {
            let n = self.config.max_history as nat;
            let h = self.history@;
            if n > 0 {
                assert(h.len() >= 1);
                assert(h.last() == pushed.last());
                assert(h.subrange(0, h.len() - 1) =~= last_n(all, (n - 1) as nat));
            } else {
                assert(h.len() == 0);
            }
        }
    }

    /// Adds a context item unless one with the same name is present.
    pub fn add_context(&mut self, item: ContextItem)
        ensures
            has_name(old(self).context_spec(), item.name@) ==> final(self).context_spec() == old(
                self,
            ).context_spec(),
            !has_name(old(self).context_spec(), item.name@) ==> final(self).context_spec() == old(
                self,
            ).context_spec().push(item),
            final(self).history_spec() == old(self).history_spec(),
            final(self).config_spec() == old(self).config_spec(),
            final(self).state_spec() == old(self).state_spec(),
            final(self).current_provider_spec() == old(self).current_provider_spec(),
            final(self).total_tokens_spec() == old(self).total_tokens_spec(),
    {
        let mut i: usize = 0;
        while i < self.context.len()
            invariant
                i <= self.context@.len(),
                forall|j: int| 0 <= j < i ==> (#[trigger] self.context@[j]).name@ != item.name@,
            decreases self.context@.len() - i,
        {
            if same_text(self.context[i].name.as_str(), item.name.as_str()) {
                return;
            }
            i = i + 1;
        }
        self.context.push(item);
    }

    /// The textual summary of the history handed to the next provider: every
    /// turn verbatim, or with `compress_history` only the first, the last and
    /// every third turn, shortened.
    pub fn get_handoff_context(&self) -> (r: String)
        ensures
            r@ == handoff_text(self.history_spec(), self.config_spec()),
    {
        let mut out = String::new();
        if self.config.include_history_in_handoff && self.history.len() > 0 {
            push_text(&mut out, "## Previous Conversation Summary\n\n");
            let n = self.history.len();
            let compress = self.config.compress_history;
            let mut i: usize = 0;
            proof {
                assert(Seq::<char>::empty() + "## Previous Conversation Summary\n\n"@ == "## Previous Conversation Summary\n\n"@ + turn_blocks(self.history@, 0, compress));
            }
            while i < n
                invariant
                    n == self.history@.len(),
                    compress == self.config.compress_history,
                    i <= n,
                    out@ == "## Previous Conversation Summary\n\n"@ + turn_blocks(self.history@, i as int, compress),
                decreases n - i,
            {
                let ghost before = out@;
                push_turn_block(&mut out, i, n, &self.history[i], compress);
                proof {
                    assert(turn_blocks(self.history@, i + 1, compress) == turn_blocks(self.history@, i as int, compress) + turn_block(i as int, n as int, self.history@[i as int], compress));
                }
                i = i + 1;
            }
        }
        out
    }

    /// Marks the session handed off to `new_provider`.
    pub fn handoff(&mut self, new_provider: &str)
        ensures
            final(self).state_spec() == SessionState::HandedOff,
            final(self).current_provider_spec() == new_provider@,
            final(self).history_spec() == old(self).history_spec(),
            final(self).context_spec() == old(self).context_spec(),
            final(self).config_spec() == old(self).config_spec(),
            final(self).total_tokens_spec() == old(self).total_tokens_spec(),
    {
        self.state = SessionState::HandedOff;
        self.current_provider = String::from_str(new_provider);
    }

    pub fn complete(&mut self)
        ensures
            final(self).state_spec() == SessionState::Completed,
            final(self).current_provider_spec() == old(self).current_provider_spec(),
            final(self).history_spec() == old(self).history_spec(),
            final(self).context_spec() == old(self).context_spec(),
            final(self).config_spec() == old(self).config_spec(),
            final(self).total_tokens_spec() == old(self).total_tokens_spec(),
    {
        self.state = SessionState::Completed;
    }

    /// Whether more than `timeout_secs` have passed since the start.
    pub fn is_expired(&self, now_ms: u64) -> (r: bool)
        ensures
            r == match self.config_spec().timeout_secs {
                Some(t) => (if now_ms >= self.started_at_spec() {
                    (now_ms - self.started_at_spec()) / 1000
                } else {
                    0
                }) > t,
                None => false,
            },
    {
        match self.config.timeout_secs {
            Some(t) => now_ms.saturating_sub(self.started_at_ms) / 1000 > t,
            None => false,
        }
    }

    pub fn state(&self) -> (r: SessionState)
        ensures
            r == self.state_spec(),
    {
        self.state
    }

    pub fn history(&self) -> (r: &Vec<Turn>)
        ensures
            r@ == self.history_spec(),
    {
        &self.history
    }

    pub fn current_provider(&self) -> (r: &str)
        ensures
            r@ == self.current_provider_spec(),
    {
        self.current_provider.as_str()
    }

    pub fn stats(&self, now_ms: u64) -> (r: SessionStats)
        ensures
            r.state == self.state_spec(),
            r.turns == self.history_spec().len(),
            r.total_tokens == self.total_tokens_spec(),
            r.current_provider@ == self.current_provider_spec(),
            r.context_items == self.context_spec().len(),
            r.id@ == self.id_spec(),
            r.initial_provider@ == self.initial_provider_spec(),
            r.duration_secs == (if now_ms >= self.started_at_spec() {
                (now_ms - self.started_at_spec()) as int
            } else {
                0int
            }) / 1000,
    {
        SessionStats {
            id: self.id.clone(),
            state: self.state,
            turns: self.history.len(),
            total_tokens: self.total_tokens,
            duration_secs: now_ms.saturating_sub(self.started_at_ms) / 1000,
            initial_provider: self.initial_provider.clone(),
            current_provider: self.current_provider.clone(),
            context_items: self.context.len(),
        }
    }
}

/// Appends the handoff block of turn `i` of `n`.
fn push_turn_block(out: &mut String, i: usize, n: usize, t: &Turn, compress: bool)
    requires
        i < n,
    ensures
        final(out)@ == old(out)@ + turn_block(i as int, n as int, *t, compress),
{
    if !compress || i == 0 || i == n - 1 || i % 3 == 0 {
        let ghost start = out@;
        push_text(out, "**Turn ");
        let num = decimal((i + 1) as u64);
        push_text(out, num.as_str());
        push_text(out, " (");
        push_text(out, t.provider.as_str());
        push_text(out, "):**\n- Request: ");
        let ghost head = out@;
        if compress {
            let a = truncate(t.request_summary.as_str(), 100);
            push_text(out, a.as_str());
        } else {
            push_text(out, t.request_summary.as_str());
        }
        push_text(out, "\n- Response: ");
        if compress {
            let b = truncate(t.response_summary.as_str(), 200);
            push_text(out, b.as_str());
        } else {
            push_text(out, t.response_summary.as_str());
        }
        push_text(out, "\n\n");
        proof {
            let h = "**Turn "@ + decimal_text((i + 1) as nat) + " ("@ + t.provider@ + "):**\n- Request: "@;
            assert(head == start + h);
        }
    } else {
        assert(old(out)@ + Seq::<char>::empty() == old(out)@);
    }
}

pub open spec fn request_tokens(response: &ApiResponse) -> u64 {
    response.usage.total_tokens
}

} // verus!
