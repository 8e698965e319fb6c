//! Token accounting across requests and sessions. Counters saturate at the
//! largest `u64`; costs are kept outside the library.

use vstd::prelude::*;
use crate::json::same_text;
use crate::tracker::sat64;

verus! {

/// Counters of one session.
#[derive(Debug, Clone)]
pub struct SessionMetrics {
    pub session_id: String,
    pub start_time_ms: Option<u64>,
    pub input_tokens: u64,
    pub output_tokens: u64,
    pub tokens_saved: u64,
    pub request_count: u64,
    pub optimizations_applied: Vec<String>,
}

/// Totals over all requests, with per-session counters.
#[derive(Debug)]
pub struct TokenMetrics {
    pub total_input_tokens: u64,
    pub total_output_tokens: u64,
    pub tokens_saved: u64,
    pub request_count: u64,
    pub sessions: Vec<SessionMetrics>,
}

/// Whether a session with this id is tracked.
pub open spec fn tracks(s: Seq<SessionMetrics>, id: Seq<char>) -> bool {
    exists|i: int| 0 <= i < s.len() && (#[trigger] s[i]).session_id@ == id
}

/// `i` is the first position of a session with this id.
pub open spec fn first_with(s: Seq<SessionMetrics>, id: Seq<char>, i: int) -> bool {
    &&& 0 <= i < s.len()
    &&& s[i].session_id@ == id
    &&& forall|j: int| 0 <= j < i ==> (#[trigger] s[j]).session_id@ != id
}

/// A session's counters after one more request.
pub open spec fn bumped(m: SessionMetrics, input: u32, output: u32, saved: u32) -> SessionMetrics {
    SessionMetrics {
        input_tokens: sat64(m.input_tokens as nat, input as nat),
        output_tokens: sat64(m.output_tokens as nat, output as nat),
        tokens_saved: sat64(m.tokens_saved as nat, saved as nat),
        request_count: sat64(m.request_count as nat, 1),
        ..m
    }
}

/// The sessions without the first one with this id.
pub open spec fn without_first(s: Seq<SessionMetrics>, id: Seq<char>) -> Seq<SessionMetrics> {
    if tracks(s, id) {
        s.remove(choose|i: int| first_with(s, id, i))
    } else {
        s
    }
}

proof fn lemma_first_unique(s: Seq<SessionMetrics>, id: Seq<char>, i: int)
    requires
        first_with(s, id, i),
    ensures
        tracks(s, id),
        (choose|k: int| first_with(s, id, k)) == i,
{
    assert(s[i].session_id@ == id);
    let k = choose|k: int| first_with(s, id, k);
    assert(first_with(s, id, k));
    if k < i {
        assert(s[k].session_id@ != id);
    } else if k > i {
        assert(s[i].session_id@ != id);
    }
}

impl TokenMetrics {
    pub open spec fn sessions_spec(&self) -> Seq<SessionMetrics> {
        self.sessions@
    }

    pub fn new() -> (r: Self)
        ensures
            r.total_input_tokens == 0,
            r.total_output_tokens == 0,
            r.tokens_saved == 0,
            r.request_count == 0,
            r.sessions_spec().len() == 0,
    {
        TokenMetrics {
            total_input_tokens: 0,
            total_output_tokens: 0,
            tokens_saved: 0,
            request_count: 0,
            sessions: Vec::new(),
        }
    }

    /// Adds one request's counts to the totals.
    pub fn record_request(&mut self, input_tokens: u32, output_tokens: u32, tokens_saved: u32)
        ensures
            final(self).total_input_tokens == sat64(old(self).total_input_tokens as nat, input_tokens as nat),
            final(self).total_output_tokens == sat64(old(self).total_output_tokens as nat, output_tokens as nat),
            final(self).tokens_saved == sat64(old(self).tokens_saved as nat, tokens_saved as nat),
            final(self).request_count == sat64(old(self).request_count as nat, 1),
            final(self).sessions_spec() == old(self).sessions_spec(),
    {
        self.total_input_tokens = self.total_input_tokens.saturating_add(input_tokens as u64);
        self.total_output_tokens = self.total_output_tokens.saturating_add(output_tokens as u64);
        self.tokens_saved = self.tokens_saved.saturating_add(tokens_saved as u64);
        self.request_count = self.request_count.saturating_add(1);
    }

    /// Input and output tokens together.
    pub fn total_tokens(&self) -> (r: u64)
        ensures
            r == sat64(self.total_input_tokens as nat, self.total_output_tokens as nat),
    {
        self.total_input_tokens.saturating_add(self.total_output_tokens)
    }

    fn find_session(&self, id: &str) -> (r: Option<usize>)
        ensures
            match r {
                Some(i) => first_with(self.sessions@, id@, i as int),
                None => !tracks(self.sessions@, id@),
            },
    {
        let mut i: usize = 0;
        while i < self.sessions.len()
            invariant
                i <= self.sessions@.len(),
                forall|j: int| 0 <= j < i ==> (#[trigger] self.sessions@[j]).session_id@ != id@,
            decreases self.sessions@.len() - i,
        {
            if same_text(self.sessions[i].session_id.as_str(), id) {
                return Some(i);
            }
            i = i + 1;
        }
        None
    }

    /// Starts (or restarts) the counters of a session: an earlier entry with
    /// this id is dropped and a fresh one, with zero counters and the given
    /// start time, is added at the end.
    pub fn start_session(&mut self, session_id: &str, now_ms: u64)
        ensures
            ({
                let s = final(self).sessions_spec();
                &&& s.len() > 0
                &&& s.drop_last() == without_first(old(self).sessions_spec(), session_id@)
                &&& s.last().session_id@ == session_id@
                &&& s.last().start_time_ms == Some(now_ms)
                &&& s.last().input_tokens == 0
                &&& s.last().output_tokens == 0
                &&& s.last().tokens_saved == 0
                &&& s.last().request_count == 0
                &&& s.last().optimizations_applied@.len() == 0
            }),
            tracks(final(self).sessions_spec(), session_id@),
            final(self).total_input_tokens == old(self).total_input_tokens,
            final(self).total_output_tokens == old(self).total_output_tokens,
            final(self).tokens_saved == old(self).tokens_saved,
            final(self).request_count == old(self).request_count,
    {
        if let Some(i) = self.find_session(session_id) {
            proof {
                lemma_first_unique(self.sessions@, session_id@, i as int);
            }
            self.sessions.remove(i);
        }
        let ghost base = self.sessions@;
        let fresh = SessionMetrics {
            session_id: String::from_str(session_id),
            start_time_ms: Some(now_ms),
            input_tokens: 0,
            output_tokens: 0,
            tokens_saved: 0,
            request_count: 0,
            optimizations_applied: Vec::new(),
        };
        self.sessions.push(fresh);
        proof {
            let n = self.sessions@.len() - 1;
            assert(self.sessions@[n].session_id@ == session_id@);
            assert(self.sessions@.drop_last() == base);
        }
    }

    /// Stops tracking a session and hands back its counters.
    pub fn end_session(&mut self, session_id: &str) -> (r: Option<SessionMetrics>)
        ensures
            tracks(old(self).sessions_spec(), session_id@) <==> r is Some,
            forall|i: int|
                first_with(old(self).sessions_spec(), session_id@, i) ==> r == Some(
                    old(self).sessions_spec()[i],
                ),
            final(self).sessions_spec() == without_first(old(self).sessions_spec(), session_id@),
            final(self).total_input_tokens == old(self).total_input_tokens,
            final(self).total_output_tokens == old(self).total_output_tokens,
            final(self).tokens_saved == old(self).tokens_saved,
            final(self).request_count == old(self).request_count,
    {
        match self.find_session(session_id) {
            Some(i) => {
                proof {
                    lemma_first_unique(self.sessions@, session_id@, i as int);
                    assert forall|k: int| first_with(old(self).sessions@, session_id@, k) implies k == i by {
                        lemma_first_unique(old(self).sessions@, session_id@, k);
                    }
                }
                Some(self.sessions.remove(i))
            },
            None => None,
        }
    }

    /// Adds a request to a session's counters (when the session is tracked)
    /// and to the totals.
    pub fn record_session_request(&mut self, session_id: &str, input_tokens: u32, output_tokens: u32, tokens_saved: u32)
        ensures
            final(self).total_input_tokens == sat64(old(self).total_input_tokens as nat, input_tokens as nat),
            final(self).total_output_tokens == sat64(old(self).total_output_tokens as nat, output_tokens as nat),
            final(self).tokens_saved == sat64(old(self).tokens_saved as nat, tokens_saved as nat),
            final(self).request_count == sat64(old(self).request_count as nat, 1),
            forall|i: int|
                first_with(old(self).sessions_spec(), session_id@, i) ==> final(self).sessions_spec()
                    == old(self).sessions_spec().update(
                    i,
                    bumped(old(self).sessions_spec()[i], input_tokens, output_tokens, tokens_saved),
                ),
            !tracks(old(self).sessions_spec(), session_id@) ==> final(self).sessions_spec() == old(
                self,
            ).sessions_spec(),
    {
        if let Some(i) = self.find_session(session_id) {
            let ghost pre = self.sessions@;
            proof {
                assert forall|k: int| first_with(pre, session_id@, k) implies k == i by {
                    lemma_first_unique(pre, session_id@, k);
                    lemma_first_unique(pre, session_id@, i as int);
                }
            }
            let mut s = self.sessions.remove(i);
            s.input_tokens = s.input_tokens.saturating_add(input_tokens as u64);
            s.output_tokens = s.output_tokens.saturating_add(output_tokens as u64);
            s.tokens_saved = s.tokens_saved.saturating_add(tokens_saved as u64);
            s.request_count = s.request_count.saturating_add(1);
            self.sessions.insert(i, s);
            assert(self.sessions@ =~= pre.update(
                i as int,
                bumped(pre[i as int], input_tokens, output_tokens, tokens_saved),
            ));
        }
        self.record_request(input_tokens, output_tokens, tokens_saved);
    }

    /// The counters of a session, if tracked.
    pub fn session(&self, session_id: &str) -> (r: Option<&SessionMetrics>)
        ensures
            r is Some <==> tracks(self.sessions_spec(), session_id@),
            forall|i: int|
                first_with(self.sessions_spec(), session_id@, i) ==> (r matches Some(m) && *m
                    == self.sessions_spec()[i]),
    {
        match self.find_session(session_id) {
            Some(i) => {
                proof {
                    assert forall|k: int| first_with(self.sessions@, session_id@, k) implies k == i by {
                        lemma_first_unique(self.sessions@, session_id@, k);
                        lemma_first_unique(self.sessions@, session_id@, i as int);
                    }
                }
                Some(&self.sessions[i])
            },
            None => None,
        }
    }
}

} // verus!
