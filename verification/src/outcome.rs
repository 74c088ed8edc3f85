//! What came of a request, and what that does to the key it was sent with.

use vstd::prelude::*;

use crate::clock::{Duration, Instant};
use crate::key::{self, KeyState, KeyView, StatsView};
use crate::ratelimit::RateLimitInfo;
use crate::text;

verus! {

/// What a request should do after the pool has digested an upstream outcome.
#[derive(Debug, Clone, Copy, PartialEq, Eq, Structural)]
pub enum Verdict {
    /// Success: hand the response to the client.
    Success,
    /// The key (or upstream) failed in a way another key might not: try again with a different
    /// key.
    RetryOtherKey,
    /// The request itself was rejected (400/404/422 ...): hand the response to the client as-is.
    ReturnToClient,
}

/// What came of a request.
pub enum Outcome<'a> {
    Response { status: u16, rl: Option<RateLimitInfo>, body_snippet: Option<&'a str> },
    Transport(String),
}

/// The model of `Outcome`.
pub enum OutcomeView {
    Response { status: u16, rl: Option<RateLimitInfo>, body_snippet: Option<Seq<char>> },
    Transport(Seq<char>),
}

impl<'a> View for Outcome<'a> {
    type V = OutcomeView;

    open spec fn view(&self) -> OutcomeView {
        match self {
            Outcome::Response { status, rl, body_snippet } => OutcomeView::Response {
                status: *status,
                rl: *rl,
                body_snippet: match body_snippet {
                    Some(s) => Some(s@),
                    None => None,
                },
            },
            Outcome::Transport(e) => OutcomeView::Transport(e@),
        }
    }
}

/// What an error says besides its status: the beginning of the body, if there is one.
pub open spec fn detail_text(snippet: Option<Seq<char>>) -> Seq<char> {
    match snippet {
        Some(s) if s.len() > 0 => ": "@ + s,
        _ => Seq::empty(),
    }
}

/// The text of an error response.
pub open spec fn status_text(status: u16, snippet: Option<Seq<char>>) -> Seq<char> {
    "HTTP "@ + text::dec(status as nat) + detail_text(snippet)
}

/// What the caller should do after an outcome.
pub open spec fn verdict_of(o: OutcomeView) -> Verdict {
    match o {
        OutcomeView::Transport(_) => Verdict::RetryOtherKey,
        OutcomeView::Response { status, .. } => if 200 <= status <= 299 {
            Verdict::Success
        } else if status == 429 || status == 401 || status == 403 || 500 <= status <= 599 {
            Verdict::RetryOtherKey
        } else {
            Verdict::ReturnToClient
        },
    }
}

/// True if the counters that an outcome moves have not reached their end.
pub open spec fn countable(k: KeyView, o: OutcomeView) -> bool {
    match o {
        OutcomeView::Transport(_) => k.stats.transport_errors < u64::MAX,
        OutcomeView::Response { status, .. } => {
            &&& 200 <= status <= 299 ==> k.stats.ok < u64::MAX
            &&& status == 429 ==> k.stats.upstream_429 < u64::MAX && k.consecutive_429 < u32::MAX
            &&& 400 <= status <= 499 && status != 429 ==> k.stats.client_4xx < u64::MAX
            &&& 500 <= status <= 599 ==> k.stats.server_5xx < u64::MAX
        },
    }
}

/// A key after a success.
pub open spec fn after_success(k: KeyView, now: Instant, rl: Option<RateLimitInfo>) -> KeyView {
    let counted = KeyView {
        stats: StatsView { ok: (k.stats.ok + 1) as u64, last_error: None, ..k.stats },
        last_ok: Some(now),
        consecutive_failures: 0,
        consecutive_429: 0,
        disable_strikes: 0,
        disabled_since: if k.disable_strikes > 0 {
            None
        } else {
            k.disabled_since
        },
        cycle_ok: (k.cycle_ok + 1) as u64,
        ..k
    };
    let reset = match rl {
        Some(r) => r.resets_in(),
        None => None,
    };
    if rl matches Some(r) && k.month_spent(r) {
        counted.parked(now, reset)
    } else if counted.cap_used_up() {
        counted.parked(
            now,
            match reset {
                Some(d) => Some(d),
                None => Some(Duration::of_secs(key::OVERRIDE_CAP_FALLBACK as nat)),
            },
        )
    } else {
        counted
    }
}

/// A key after a 429. One too many of them disables the key if it carries no rate limits.
pub open spec fn after_429(
    k: KeyView,
    now: Instant,
    rl: Option<RateLimitInfo>,
    snippet: Option<Seq<char>>,
) -> KeyView {
    let strikes = (k.consecutive_429 + 1) as u32;
    let counted = KeyView {
        stats: StatsView {
            upstream_429: (k.stats.upstream_429 + 1) as u64,
            last_error: Some("HTTP 429"@ + detail_text(snippet)),
            ..k.stats
        },
        consecutive_failures: 0,
        consecutive_429: strikes,
        ..k
    };
    match rl {
        Some(r) => if k.month_spent(r) {
            counted.parked(now, r.resets_in())
        } else {
            KeyView {
                hold_until: Some(now.after(Duration::of_secs(r.wait_secs()))),
                ..counted
            }
        },
        None => {
            let held = KeyView {
                hold_until: Some(
                    now.after(Duration::of_secs(key::UNEXPLAINED_429_HOLD as nat)),
                ),
                ..counted
            };
            if strikes >= key::UNEXPLAINED_429_THRESHOLD {
                held.disabled(
                    now,
                    key::UNEXPLAINED_429_BACKOFF as nat,
                    key::UNEXPLAINED_429_BACKOFF as nat,
                    text::dec(strikes as nat) + " consecutive 429s without rate-limit headers"@
                        + detail_text(snippet),
                )
            } else {
                held
            }
        },
    }
}

/// A key after a rejected request, whether or not the key is to blame.
pub open spec fn after_4xx(k: KeyView, status: u16, snippet: Option<Seq<char>>) -> KeyView {
    KeyView {
        stats: StatsView {
            client_4xx: (k.stats.client_4xx + 1) as u64,
            last_error: Some(status_text(status, snippet)),
            ..k.stats
        },
        consecutive_failures: 0,
        ..k
    }
}

/// A key after a server error.
pub open spec fn after_5xx(
    k: KeyView,
    now: Instant,
    status: u16,
    snippet: Option<Seq<char>>,
) -> KeyView {
    KeyView {
        stats: StatsView {
            server_5xx: (k.stats.server_5xx + 1) as u64,
            last_error: Some(status_text(status, snippet)),
            ..k.stats
        },
        ..k
    }.failed(now, status_text(status, snippet))
}

/// A key after an outcome. If it was being probed, the probe is over.
pub open spec fn digested(k: KeyView, now: Instant, o: OutcomeView) -> KeyView {
    weighed(KeyView { probing: false, ..k }, now, o)
}

/// A key after what an outcome says about it.
pub open spec fn weighed(k: KeyView, now: Instant, o: OutcomeView) -> KeyView {
    match o {
        OutcomeView::Transport(e) => KeyView {
            stats: StatsView {
                transport_errors: (k.stats.transport_errors + 1) as u64,
                last_status: None,
                last_error: Some(e),
                ..k.stats
            },
            ..k
        }.failed(now, "transport error: "@ + e),
        OutcomeView::Response { status, rl, body_snippet } => {
            let noted = KeyView {
                stats: StatsView { last_status: Some(status), ..k.stats },
                ..k
            };
            let learned = match rl {
                Some(r) => noted.learned(now, r),
                None => noted,
            };
            if 200 <= status <= 299 {
                after_success(learned, now, rl)
            } else if status == 429 {
                after_429(learned, now, rl, body_snippet)
            } else if status == 401 || status == 403 {
                after_4xx(learned, status, body_snippet).disabled(
                    now,
                    key::AUTH_BACKOFF_BASE as nat,
                    key::AUTH_BACKOFF_MAX as nat,
                    status_text(status, body_snippet),
                )
            } else if 400 <= status <= 499 {
                after_4xx(learned, status, body_snippet)
            } else if 500 <= status <= 599 {
                after_5xx(learned, now, status, body_snippet)
            } else {
                KeyView { consecutive_failures: 0, ..learned }
            }
        },
    }
}

fn detail_of(snippet: &Option<&str>) -> (r: String)
    ensures
        r@ == detail_text(
            match snippet {
                Some(s) => Some(s@),
                None => None,
            },
        ),
{
    let mut out = String::new();
    if let Some(s) = snippet {
        if !s.is_empty() {
            out.append(": ");
            out.append(s);
            assert(out@ =~= ": "@ + s@);
        }
    }
    out
}

fn status_error(status: u16, detail: &String) -> (r: String)
    ensures
        r@ == "HTTP "@ + text::dec(status as nat) + detail@,
{
    let mut out = String::new();
    out.append("HTTP ");
    out.append(text::decimal(status as u128).as_str());
    out.append(detail.as_str());
    assert(out@ =~= "HTTP "@ + text::dec(status as nat) + detail@);
    out
}

impl KeyState {
    /// Digests the result of a request sent with this key and decides what the caller should do.
    pub fn digest(&mut self, now: Instant, outcome: Outcome<'_>) -> (r: Verdict)
        requires
            now.in_range(),
            old(self).wf(),
            countable(old(self)@, outcome@),
        ensures
            final(self).wf(),
            final(self)@ == digested(old(self)@, now, outcome@),
            r == verdict_of(outcome@),
    {
        self.probing = false;
        match outcome {
            Outcome::Transport(err) => {
                self.stats.transport_errors = self.stats.transport_errors + 1;
                self.stats.last_status = None;
                let mut what = String::new();
                what.append("transport error: ");
                what.append(err.as_str());
                assert(what@ =~= "transport error: "@ + err@);
                self.stats.last_error = Some(err);
                self.fail(now, what.as_str());
                Verdict::RetryOtherKey
            },
            Outcome::Response { status, rl, body_snippet } => {
                self.stats.last_status = Some(status);
                if let Some(r) = &rl {
                    self.learn_limits(now, r);
                }
                let detail = detail_of(&body_snippet);
                if 200 <= status && status <= 299 {
                    self.succeed(now, rl);
                    Verdict::Success
                } else if status == 429 {
                    self.hit_limit(now, rl, &detail, &body_snippet);
                    Verdict::RetryOtherKey
                } else if status == 401 || status == 403 {
                    self.stats.client_4xx = self.stats.client_4xx + 1;
                    let reason = status_error(status, &detail);
                    self.stats.last_error = Some(reason.clone());
                    self.disable(now, key::AUTH_BACKOFF_BASE, key::AUTH_BACKOFF_MAX, reason);
                    Verdict::RetryOtherKey
                } else if 400 <= status && status <= 499 {
                    self.consecutive_failures = 0;
                    self.stats.client_4xx = self.stats.client_4xx + 1;
                    self.stats.last_error = Some(status_error(status, &detail));
                    Verdict::ReturnToClient
                } else if 500 <= status && status <= 599 {
                    self.stats.server_5xx = self.stats.server_5xx + 1;
                    let what = status_error(status, &detail);
                    self.stats.last_error = Some(what.clone());
                    self.fail(now, what.as_str());
                    Verdict::RetryOtherKey
                } else {
                    self.consecutive_failures = 0;
                    Verdict::ReturnToClient
                }
            },
        }
    }

    /// True if a response with these rate limits, already learned, says that the month is used
    /// up.
    pub fn says_month_spent(&self, rl: &RateLimitInfo) -> (r: bool)
        ensures
            r == self@.month_spent(*rl),
    {
        rl.month_exhausted() && match self.month_limit {
            Some(l) => l != 0,
            None => true,
        }
    }

    fn succeed(&mut self, now: Instant, rl: Option<RateLimitInfo>)
        requires
            now.in_range(),
            old(self).wf(),
            old(self)@.stats.ok < u64::MAX,
            !old(self)@.probing,
        ensures
            final(self).wf(),
            final(self)@ == after_success(old(self)@, now, rl),
    {
        self.stats.ok = self.stats.ok + 1;
        self.cycle_ok = self.cycle_ok + 1;
        self.last_ok = Some(now);
        self.consecutive_failures = 0;
        self.consecutive_429 = 0;
        self.stats.last_error = None;
        if self.disable_strikes > 0 {
            self.disable_strikes = 0;
            self.disabled_since = None;
        }
        let reset = match &rl {
            Some(r) => r.month_reset(),
            None => None,
        };
        let exhausted = match &rl {
            Some(r) => self.says_month_spent(r),
            None => false,
        };
        // Proactive: the last allowed request of the month tells us so.
        if exhausted {
            self.exhaust(now, reset);
        } else if self.override_cap_exhausted() {
            let reset_in = match reset {
                Some(d) => d,
                None => Duration::from_secs(key::OVERRIDE_CAP_FALLBACK),
            };
            self.exhaust(now, Some(reset_in));
        }
    }

    fn hit_limit(
        &mut self,
        now: Instant,
        rl: Option<RateLimitInfo>,
        detail: &String,
        snippet: &Option<&str>,
    )
        requires
            now.in_range(),
            old(self).wf(),
            old(self)@.stats.upstream_429 < u64::MAX,
            old(self)@.consecutive_429 < u32::MAX,
            detail@ == detail_text(
                match snippet {
                    Some(s) => Some(s@),
                    None => None,
                },
            ),
        ensures
            final(self).wf(),
            final(self)@ == after_429(
                old(self)@,
                now,
                rl,
                match snippet {
                    Some(s) => Some(s@),
                    None => None,
                },
            ),
    {
        self.stats.upstream_429 = self.stats.upstream_429 + 1;
        self.consecutive_429 = self.consecutive_429 + 1;
        self.consecutive_failures = 0;
        let mut error = String::new();
        error.append("HTTP 429");
        error.append(detail.as_str());
        assert(error@ =~= "HTTP 429"@ + detail@);
        self.stats.last_error = Some(error);
        match rl {
            Some(r) => {
                if self.says_month_spent(&r) {
                    self.exhaust(now, r.month_reset());
                } else {
                    let wait = r.second_wait();
                    self.hold_until = Some(now.plus(wait));
                }
            },
            None => {
                self.hold_until = Some(
                    now.plus(Duration::from_secs(key::UNEXPLAINED_429_HOLD)),
                );
                if self.consecutive_429 >= key::UNEXPLAINED_429_THRESHOLD {
                    let mut reason = text::decimal(self.consecutive_429 as u128);
                    reason.append(" consecutive 429s without rate-limit headers");
                    reason.append(detail.as_str());
                    self.disable(
                        now,
                        key::UNEXPLAINED_429_BACKOFF,
                        key::UNEXPLAINED_429_BACKOFF,
                        reason,
                    );
                }
            },
        }
    }
}

} // verus!
