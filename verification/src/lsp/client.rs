//! Failure accounting of a language-server client.
//!
//! Every request first asks [`RequestAccounting::begin`] whether the server
//! is still usable and which timeout applies, then reports the transport's
//! outcome to [`RequestAccounting::finish`], which decides what the caller
//! sees and whether the server process must be killed. Timeouts, broken
//! pipes and write failures count against the server; a JSON-RPC error is a
//! response, so it does not.

use vstd::prelude::*;

use crate::lsp::transport::TransportError;
use crate::text::{nat_text, push_chars, push_str, u64_text};

verus! {

/// Consecutive timeouts after which a server is declared unusable.
pub const MAX_CONSECUTIVE_TIMEOUTS: u32 = 3;

/// Request timeout when none is configured, in milliseconds.
pub const DEFAULT_REQUEST_TIMEOUT_MS: u64 = 10000;

/// Minimum timeout of the first request (servers index on startup), in
/// milliseconds; it applies unless a timeout was configured explicitly.
pub const WARMUP_TIMEOUT_MS: u64 = 60000;

/// The accounting state of one client.
#[derive(Debug)]
pub struct RequestAccounting {
    /// Why the server was declared unusable, if it was.
    pub failed: Option<String>,
    /// Timeouts since the last answer.
    pub consecutive_timeouts: u32,
    /// No request has been answered or timed out yet.
    pub warmup_pending: bool,
    /// The timeout was configured explicitly.
    pub explicit_timeout: bool,
    /// The configured (or default) request timeout, in milliseconds.
    pub request_timeout_ms: u64,
}

/// The abstract value of a [`RequestAccounting`].
pub struct AccountingView {
    pub failed: Option<Seq<char>>,
    pub consecutive_timeouts: nat,
    pub warmup_pending: bool,
    pub explicit_timeout: bool,
    pub request_timeout_ms: u64,
}

impl View for RequestAccounting {
    type V = AccountingView;

    open spec fn view(&self) -> AccountingView {
        AccountingView {
            failed: crate::json::opt_view(self.failed),
            consecutive_timeouts: self.consecutive_timeouts as nat,
            warmup_pending: self.warmup_pending,
            explicit_timeout: self.explicit_timeout,
            request_timeout_ms: self.request_timeout_ms,
        }
    }
}

/// What the transport did with one request.
pub enum OutcomeView {
    Answered,
    TimedOut,
    Closed,
    Rpc(Seq<char>),
    Io(Seq<char>),
}

/// The abstract value of a transport outcome.
pub open spec fn outcome_view(o: Result<(), TransportError>) -> OutcomeView {
    match o {
        Ok(()) => OutcomeView::Answered,
        Err(TransportError::Timeout) => OutcomeView::TimedOut,
        Err(TransportError::Closed) => OutcomeView::Closed,
        Err(TransportError::Rpc(m)) => OutcomeView::Rpc(m@),
        Err(TransportError::Io(m)) => OutcomeView::Io(m@),
    }
}

/// The state invariant: the timeout count stays within the limit, and a
/// server that reached it has failed.
pub open spec fn accounting_wf(s: AccountingView) -> bool {
    &&& s.consecutive_timeouts <= MAX_CONSECUTIVE_TIMEOUTS
    &&& s.consecutive_timeouts == MAX_CONSECUTIVE_TIMEOUTS ==> s.failed is Some
}

/// The state after declaring the server unusable: the first reason stays.
pub open spec fn failed_with(s: AccountingView, reason: Seq<char>) -> AccountingView {
    AccountingView {
        failed: match s.failed {
            Some(r) => Some(r),
            None => Some(reason),
        },
        ..s
    }
}

/// The timeout of the next request.
pub open spec fn timeout_of(s: AccountingView) -> u64 {
    if s.warmup_pending && !s.explicit_timeout && s.request_timeout_ms < WARMUP_TIMEOUT_MS {
        WARMUP_TIMEOUT_MS
    } else {
        s.request_timeout_ms
    }
}

/// The reason given when the limit of consecutive timeouts is reached.
pub open spec fn timeouts_reason(method: Seq<char>) -> Seq<char> {
    nat_text(MAX_CONSECUTIVE_TIMEOUTS as nat) + " consecutive request timeouts (last: "@ + method
        + ")"@
}

/// One step of the accounting: the state after a request to `method` ended
/// with `o`, what the caller sees, and whether the process must be killed.
pub open spec fn finish_step(s: AccountingView, method: Seq<char>, o: OutcomeView) -> (
    AccountingView,
    Result<(), Seq<char>>,
    bool,
) {
    match o {
        OutcomeView::Answered => (
            AccountingView { warmup_pending: false, consecutive_timeouts: 0, ..s },
            Ok(()),
            false,
        ),
        OutcomeView::TimedOut => {
            let n = s.consecutive_timeouts + 1;
            let t = AccountingView { warmup_pending: false, consecutive_timeouts: n, ..s };
            if n >= MAX_CONSECUTIVE_TIMEOUTS {
                (failed_with(t, timeouts_reason(method)), Err(method + " timed out"@), true)
            } else {
                (t, Err(method + " timed out"@), false)
            }
        },
        OutcomeView::Closed => {
            let reason = "connection lost during "@ + method + " (server exited?)"@;
            (failed_with(s, reason), Err(reason), true)
        },
        OutcomeView::Io(e) => {
            let reason = "write failed during "@ + method + ": "@ + e;
            (failed_with(s, reason), Err(reason), true)
        },
        OutcomeView::Rpc(e) => (
            AccountingView { warmup_pending: false, consecutive_timeouts: 0, ..s },
            Err(method + ": "@ + e),
            false,
        ),
    }
}

impl RequestAccounting {
    /// The state of a freshly started client, with the configured timeout
    /// (if any).
    pub fn new(timeout_ms: Option<u64>) -> (r: RequestAccounting)
        ensures
            r@ == (AccountingView {
                failed: None,
                consecutive_timeouts: 0,
                warmup_pending: true,
                explicit_timeout: timeout_ms is Some,
                request_timeout_ms: match timeout_ms {
                    Some(t) => t,
                    None => DEFAULT_REQUEST_TIMEOUT_MS,
                },
            }),
            accounting_wf(r@),
    {
        RequestAccounting {
            failed: None,
            consecutive_timeouts: 0,
            warmup_pending: true,
            explicit_timeout: timeout_ms.is_some(),
            request_timeout_ms: match timeout_ms {
                Some(t) => t,
                None => DEFAULT_REQUEST_TIMEOUT_MS,
            },
        }
    }

    /// Before a request: the failure reason when the server is unusable,
    /// else the timeout to wait for the answer.
    pub fn begin(&self) -> (r: Result<u64, String>)
        ensures
            match r {
                Ok(t) => self@.failed is None && t == timeout_of(self@),
                Err(reason) => self@.failed == Some(reason@),
            },
    {
        match &self.failed {
            Some(reason) => Err(reason.clone()),
            None => {
                if self.warmup_pending && !self.explicit_timeout && self.request_timeout_ms
                    < WARMUP_TIMEOUT_MS {
                    Ok(WARMUP_TIMEOUT_MS)
                } else {
                    Ok(self.request_timeout_ms)
                }
            },
        }
    }

    /// Declare the server unusable; the first reason is kept.
    pub fn fail(&mut self, reason: String)
        ensures
            final(self)@ == failed_with(old(self)@, reason@),
    {
        if self.failed.is_none() {
            self.failed = Some(reason);
        }
    }

    /// After a request to `method` that `begin` let through, record the
    /// transport's outcome. Returns what the caller sees, and whether the
    /// server process must now be killed.
    pub fn finish(&mut self, method: &str, outcome: &Result<(), TransportError>) -> (r: (
        Result<(), String>,
        bool,
    ))
        requires
            old(self)@.failed is None,
            accounting_wf(old(self)@),
        ensures
            finish_step(old(self)@, method@, outcome_view(*outcome)) == (final(self)@, match r.0 {
                Ok(()) => Ok::<(), Seq<char>>(()),
                Err(m) => Err::<(), Seq<char>>(m@),
            }, r.1),
            accounting_wf(final(self)@),
    {
        match outcome {
            Ok(()) => {
                self.warmup_pending = false;
                self.consecutive_timeouts = 0;
                (Ok(()), false)
            },
            Err(TransportError::Timeout) => {
                self.warmup_pending = false;
                self.consecutive_timeouts = self.consecutive_timeouts + 1;
                let mut message = String::new();
                push_str(&mut message, method);
                push_str(&mut message, " timed out");
                if self.consecutive_timeouts >= MAX_CONSECUTIVE_TIMEOUTS {
                    let digits = u64_text(MAX_CONSECUTIVE_TIMEOUTS as u64);
                    let mut reason = String::new();
                    push_chars(&mut reason, digits.as_slice());
                    push_str(&mut reason, " consecutive request timeouts (last: ");
                    push_str(&mut reason, method);
                    push_str(&mut reason, ")");
                    self.fail(reason);
                    (Err(message), true)
                } else {
                    (Err(message), false)
                }
            },
            Err(TransportError::Closed) => {
                let mut reason = String::new();
                push_str(&mut reason, "connection lost during ");
                push_str(&mut reason, method);
                push_str(&mut reason, " (server exited?)");
                let shown = reason.clone();
                self.fail(reason);
                (Err(shown), true)
            },
            Err(TransportError::Io(e)) => {
                let mut reason = String::new();
                push_str(&mut reason, "write failed during ");
                push_str(&mut reason, method);
                push_str(&mut reason, ": ");
                push_str(&mut reason, e.as_str());
                let shown = reason.clone();
                self.fail(reason);
                (Err(shown), true)
            },
            Err(TransportError::Rpc(e)) => {
                self.warmup_pending = false;
                self.consecutive_timeouts = 0;
                let mut message = String::new();
                push_str(&mut message, method);
                push_str(&mut message, ": ");
                push_str(&mut message, e.as_str());
                (Err(message), false)
            },
        }
    }
}


/// A failed server stays failed, with its first reason: a later failure
/// does not replace the reason.
pub proof fn law_failure_is_sticky(s: AccountingView, reason: Seq<char>)
    requires
        s.failed is Some,
    ensures
        failed_with(s, reason).failed == s.failed,
{
}

/// Every step keeps the state invariant, and a step that fails the server
/// also asks for the process to be killed.
pub proof fn law_steps_keep_the_invariant(s: AccountingView, method: Seq<char>, o: OutcomeView)
    requires
        accounting_wf(s),
        s.failed is None,
    ensures
        accounting_wf(finish_step(s, method, o).0),
        finish_step(s, method, o).0.failed is Some ==> finish_step(s, method, o).2,
{
}

/// An answer or a JSON-RPC error resets the timeout count and never fails
/// the server.
pub proof fn law_responses_reset_timeouts(s: AccountingView, method: Seq<char>, o: OutcomeView)
    requires
        o is Answered || o is Rpc,
    ensures
        finish_step(s, method, o).0.consecutive_timeouts == 0,
        finish_step(s, method, o).0.failed == s.failed,
        !finish_step(s, method, o).2,
        !finish_step(s, method, o).0.warmup_pending,
{
}

/// From a state with no pending timeouts, the third consecutive timeout
/// (and not an earlier one) declares the server unusable, naming the last
/// method.
pub proof fn law_third_consecutive_timeout_fails(
    s: AccountingView,
    m1: Seq<char>,
    m2: Seq<char>,
    m3: Seq<char>,
)
    requires
        s.failed is None,
        s.consecutive_timeouts == 0,
    ensures
        ({
            let s1 = finish_step(s, m1, OutcomeView::TimedOut);
            let s2 = finish_step(s1.0, m2, OutcomeView::TimedOut);
            let s3 = finish_step(s2.0, m3, OutcomeView::TimedOut);
            &&& s1.0.failed is None && !s1.2
            &&& s2.0.failed is None && !s2.2
            &&& s3.0.failed == Some(timeouts_reason(m3)) && s3.2
            &&& s3.1 == Err::<(), Seq<char>>(m3 + " timed out"@)
        }),
{
}

} // verus!
