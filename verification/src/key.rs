//! One key: its rate-limit bookkeeping and its health.
//!
//! Every key keeps a local model of Brave's two limit windows:
//!
//! * **per-second sliding window** - the timestamps of our own sends, so that the plan's
//!   requests/second (learned from `X-RateLimit-Limit`, default 1) are never exceeded within one
//!   second plus a small jitter margin;
//! * **monthly quota** - remaining count and reset time are cached from the response headers, so
//!   a key whose quota hits zero is parked until Brave says it resets.
//!
//! Keys that misbehave are disabled with an exponential backoff and probed again afterwards.

use std::collections::VecDeque;

use vstd::prelude::*;

use crate::clock::{Duration, Instant};
use crate::ratelimit::RateLimitInfo;
use crate::text;

verus! {

/// Failures in a row after which a key is disabled.
pub const FAIL_THRESHOLD: u32 = 3;

/// First backoff after repeated failures, in seconds.
pub const FAIL_BACKOFF_BASE: u64 = 30;

/// Longest backoff after repeated failures, in seconds.
pub const FAIL_BACKOFF_MAX: u64 = 600;

/// First backoff after a rejected key, in seconds.
pub const AUTH_BACKOFF_BASE: u64 = 300;

/// Longest backoff after a rejected key, in seconds.
pub const AUTH_BACKOFF_MAX: u64 = 3600;

/// 429s since the last success at which one without rate-limit headers disables a key.
pub const UNEXPLAINED_429_THRESHOLD: u32 = 5;

/// Backoff after too many 429s without rate-limit headers, in seconds.
pub const UNEXPLAINED_429_BACKOFF: u64 = 300;

/// Hold after a 429 without rate-limit headers, in seconds: two burst windows.
pub const UNEXPLAINED_429_HOLD: u64 = 2;

/// Park time if Brave says the month is exhausted but not when it resets, in seconds.
pub const EXHAUSTED_FALLBACK: u64 = 21_600;

/// Park time when a self-imposed monthly cap is hit and Brave's own response gave no reset time
/// to go by, in seconds.
pub const OVERRIDE_CAP_FALLBACK: u64 = 2_592_000;

/// The highest requests/second that is believed.
pub const MAX_LEARNED_RPS: u64 = 1000;

/// The longest sliding window that a key is asked about.
pub const WINDOW_MAX: u128 = 0x20_0000_0000_0000_0000_0000_0000;

#[derive(Debug, Clone, PartialEq, Eq)]
pub enum Health {
    Healthy,
    /// Skipped until `until`, then probed with one live request.
    Disabled { until: Instant, reason: String },
    /// Monthly quota used up; skipped until Brave's reported reset time.
    Exhausted { until: Instant },
}

/// The model of `Health`.
pub enum HealthView {
    Healthy,
    Disabled { until: Instant, reason: Seq<char> },
    Exhausted { until: Instant },
}

impl View for Health {
    type V = HealthView;

    open spec fn view(&self) -> HealthView {
        match self {
            Health::Healthy => HealthView::Healthy,
            Health::Disabled { until, reason } => HealthView::Disabled {
                until: *until,
                reason: reason@,
            },
            Health::Exhausted { until } => HealthView::Exhausted { until: *until },
        }
    }
}

#[derive(Debug)]
pub struct Stats {
    pub requests: u64,
    pub ok: u64,
    pub upstream_429: u64,
    pub client_4xx: u64,
    pub server_5xx: u64,
    pub transport_errors: u64,
    pub last_status: Option<u16>,
    pub last_error: Option<String>,
}

/// The model of `Stats`.
#[verifier::ext_equal]
pub struct StatsView {
    pub requests: u64,
    pub ok: u64,
    pub upstream_429: u64,
    pub client_4xx: u64,
    pub server_5xx: u64,
    pub transport_errors: u64,
    pub last_status: Option<u16>,
    pub last_error: Option<Seq<char>>,
}

/// The text in an optional string.
pub open spec fn opt_text(s: Option<String>) -> Option<Seq<char>> {
    match s {
        Some(s) => Some(s@),
        None => None,
    }
}

impl View for Stats {
    type V = StatsView;

    open spec fn view(&self) -> StatsView {
        StatsView {
            requests: self.requests,
            ok: self.ok,
            upstream_429: self.upstream_429,
            client_4xx: self.client_4xx,
            server_5xx: self.server_5xx,
            transport_errors: self.transport_errors,
            last_status: self.last_status,
            last_error: opt_text(self.last_error),
        }
    }
}

impl StatsView {
    /// Statistics of a key that was never used.
    pub open spec fn zero() -> StatsView {
        StatsView {
            requests: 0,
            ok: 0,
            upstream_429: 0,
            client_4xx: 0,
            server_5xx: 0,
            transport_errors: 0,
            last_status: None,
            last_error: None,
        }
    }
}

impl Default for Stats {
    fn default() -> (r: Self)
        ensures
            r@ == StatsView::zero(),
    {
        Stats {
            requests: 0,
            ok: 0,
            upstream_429: 0,
            client_4xx: 0,
            server_5xx: 0,
            transport_errors: 0,
            last_status: None,
            last_error: None,
        }
    }
}

impl Clone for Stats {
    fn clone(&self) -> (r: Self)
        ensures
            r == *self,
    {
        Stats {
            requests: self.requests,
            ok: self.ok,
            upstream_429: self.upstream_429,
            client_4xx: self.client_4xx,
            server_5xx: self.server_5xx,
            transport_errors: self.transport_errors,
            last_status: self.last_status,
            last_error: match &self.last_error {
                Some(e) => Some(e.clone()),
                None => None,
            },
        }
    }
}

#[derive(Debug)]
pub struct KeyState {
    pub token: String,
    pub label: String,
    pub health: Health,
    /// Requests/second this key may burst (from X-RateLimit-Limit, default from config).
    pub sec_limit: u32,
    pub limits_learned: bool,
    pub month_limit: Option<u64>,
    pub month_remaining: Option<u64>,
    pub month_reset_at: Option<Instant>,
    /// Short hold requested by upstream (per-second 429).
    pub hold_until: Option<Instant>,
    /// Timestamps of our sends inside the current sliding window.
    pub sends: VecDeque<Instant>,
    pub last_used: Option<Instant>,
    pub last_ok: Option<Instant>,
    /// Server and transport errors in a row.
    pub consecutive_failures: u32,
    /// 429s since the last success, or since the key was last disabled.
    pub consecutive_429: u32,
    /// Times this key was disabled without a success in between (backoff exponent).
    pub disable_strikes: u32,
    pub disabled_since: Option<Instant>,
    /// Whether a request is out that probes the key after it was disabled.
    pub probing: bool,
    pub stats: Stats,
    /// Successes in this cycle. A cycle lasts until the key has been parked for a spent month and
    /// is released.
    pub cycle_ok: u64,
    /// Self-imposed monthly cap, if set for this key. Enforced in addition to (the stricter of)
    /// whatever Brave itself reports.
    pub monthly_cap_override: Option<u64>,
}

/// The model of `KeyState`.
#[verifier::ext_equal]
pub struct KeyView {
    pub token: Seq<char>,
    pub label: Seq<char>,
    pub health: HealthView,
    pub sec_limit: u32,
    pub limits_learned: bool,
    pub month_limit: Option<u64>,
    pub month_remaining: Option<u64>,
    pub month_reset_at: Option<Instant>,
    pub hold_until: Option<Instant>,
    pub sends: Seq<Instant>,
    pub last_used: Option<Instant>,
    pub last_ok: Option<Instant>,
    pub consecutive_failures: u32,
    pub consecutive_429: u32,
    pub disable_strikes: u32,
    pub disabled_since: Option<Instant>,
    pub probing: bool,
    pub stats: StatsView,
    pub cycle_ok: u64,
    pub monthly_cap_override: Option<u64>,
}

impl View for KeyState {
    type V = KeyView;

    open spec fn view(&self) -> KeyView {
        KeyView {
            token: self.token@,
            label: self.label@,
            health: self.health@,
            sec_limit: self.sec_limit,
            limits_learned: self.limits_learned,
            month_limit: self.month_limit,
            month_remaining: self.month_remaining,
            month_reset_at: self.month_reset_at,
            hold_until: self.hold_until,
            sends: self.sends@,
            last_used: self.last_used,
            last_ok: self.last_ok,
            consecutive_failures: self.consecutive_failures,
            consecutive_429: self.consecutive_429,
            disable_strikes: self.disable_strikes,
            disabled_since: self.disabled_since,
            probing: self.probing,
            stats: self.stats@,
            cycle_ok: self.cycle_ok,
            monthly_cap_override: self.monthly_cap_override,
        }
    }
}

/// True if a send at `t` no longer counts at `now`: the window has passed over it.
pub open spec fn expired(t: Instant, now: Instant, window: Duration) -> bool {
    now.since(t).nanos >= window.nanos
}

/// The sends that still count at `now`: what is left once the expired ones at the front are gone.
pub open spec fn live_sends(sends: Seq<Instant>, now: Instant, window: Duration) -> Seq<Instant>
    decreases sends.len(),
{
    if sends.len() > 0 && expired(sends[0], now, window) {
        live_sends(sends.drop_first(), now, window)
    } else {
        sends
    }
}

/// The later of two instants.
pub open spec fn later(a: Instant, b: Instant) -> Instant {
    if b.nanos > a.nanos {
        b
    } else {
        a
    }
}

/// A window after `now`, or the last instant there is.
pub open spec fn soon(now: Instant, window: Duration) -> Instant {
    Instant {
        nanos: if now.nanos + window.nanos <= u128::MAX {
            (now.nanos + window.nanos) as u128
        } else {
            u128::MAX
        },
    }
}

/// The latest of the first `n` instants, for `n` above 0.
pub open spec fn latest(list: Seq<Instant>, n: nat) -> Instant
    decreases n,
{
    if n <= 1 {
        list[0]
    } else {
        later(latest(list, (n - 1) as nat), list[n - 1])
    }
}

/// Two to the power of `n`.
pub open spec fn doublings(n: nat) -> nat
    decreases n,
{
    if n == 0 {
        1
    } else {
        2 * doublings((n - 1) as nat)
    }
}

/// How many seconds a key is disabled for at its `strikes`th strike: `base`, doubled with each
/// strike after the first, at most `max`.
pub open spec fn backoff_secs(base: nat, max: nat, strikes: nat) -> nat {
    let exponent = if strikes <= 1 {
        0
    } else if strikes - 1 > 16 {
        16
    } else {
        (strikes - 1) as nat
    };
    let secs = base * doublings(exponent);
    if secs <= max {
        secs
    } else {
        max
    }
}

/// The label of the `idx`th key: its position, counted from one, and the end of its token.
pub open spec fn label_of(idx: nat, token: Seq<char>) -> Seq<char> {
    let tail = if token.len() > 4 {
        token.skip(token.len() - 4)
    } else {
        token
    };
    "k"@ + text::dec(idx + 1) + ":.."@ + tail
}

impl KeyView {
    /// What every operation keeps: the sends are readings of the clock and as many as a burst
    /// can be, the plan allows at least one request/second, the failures in a row are too few to
    /// disable the key, only a key with strikes has been disabled or is being probed, and no
    /// cycle has more successes than there were.
    pub open spec fn wf(&self) -> bool {
        &&& self.sends.len() <= u32::MAX
        &&& forall|i: int| 0 <= i < self.sends.len() ==> (#[trigger] self.sends[i]).in_range()
        &&& self.sec_limit >= 1
        &&& self.consecutive_failures < FAIL_THRESHOLD
        &&& self.disabled_since is Some ==> self.disable_strikes > 0
        &&& self.probing ==> self.disable_strikes > 0
        &&& self.cycle_ok <= self.stats.ok
    }

    /// A key that was never used.
    pub open spec fn fresh(
        idx: nat,
        token: Seq<char>,
        default_rps: u32,
        monthly_cap_override: Option<u64>,
    ) -> KeyView {
        KeyView {
            token,
            label: label_of(idx, token),
            health: HealthView::Healthy,
            sec_limit: if default_rps < 1 {
                1
            } else {
                default_rps
            },
            limits_learned: false,
            month_limit: None,
            month_remaining: None,
            month_reset_at: None,
            hold_until: None,
            sends: Seq::empty(),
            last_used: None,
            last_ok: None,
            consecutive_failures: 0,
            consecutive_429: 0,
            disable_strikes: 0,
            disabled_since: None,
            probing: false,
            stats: StatsView::zero(),
            cycle_ok: 0,
            monthly_cap_override,
        }
    }

    /// The key once cooldowns that have elapsed at `now` are over.
    pub open spec fn refreshed(&self, now: Instant) -> KeyView {
        match self.health {
            HealthView::Disabled { until, .. } if until.nanos <= now.nanos => KeyView {
                health: HealthView::Healthy,
                ..*self
            },
            HealthView::Exhausted { until } if until.nanos <= now.nanos => KeyView {
                health: HealthView::Healthy,
                month_remaining: None,
                month_reset_at: None,
                cycle_ok: 0,
                ..*self
            },
            _ => *self,
        }
    }

    /// The requests/second of the plan.
    pub open spec fn rate(&self) -> nat {
        if self.sec_limit < 1 {
            1
        } else {
            self.sec_limit as nat
        }
    }

    /// How many sends fit into one window: what the plan allows, and one while the key has been
    /// disabled and not succeeded since, so that it is probed with one request.
    pub open spec fn burst(&self) -> nat {
        if self.disable_strikes > 0 {
            1
        } else {
            self.rate()
        }
    }

    /// True if upstream asked to leave the key alone until after `now`.
    pub open spec fn held(&self, now: Instant) -> bool {
        match self.hold_until {
            Some(h) => h.nanos > now.nanos,
            None => false,
        }
    }

    /// True if a request may be sent with the key at `now`.
    pub open spec fn free(&self, now: Instant, window: Duration) -> bool {
        &&& self.health is Healthy
        &&& !self.held(now)
        &&& !self.probing
        &&& live_sends(self.sends, now, window).len() < self.burst()
    }

    /// When the window has room again, if it is full at `now`.
    pub open spec fn full_until(&self, now: Instant, window: Duration) -> Option<Instant> {
        let live = live_sends(self.sends, now, window);
        if live.len() < self.burst() {
            None
        } else {
            Some(latest(live, (live.len() - self.burst() + 1) as nat).after(window))
        }
    }

    /// The earliest instant at which a request may be sent with a key that is not free at `now`:
    /// its cooldown is over, upstream does not ask to leave it alone, and the window has room.
    /// When a probe that is out comes back is not known: the key is asked again a window later.
    pub open spec fn blocked_until(&self, now: Instant, window: Duration) -> Instant {
        let well = match self.health {
            HealthView::Disabled { until, .. } => until,
            HealthView::Exhausted { until } => until,
            HealthView::Healthy => now,
        };
        let unheld = match self.hold_until {
            Some(h) => later(well, h),
            None => well,
        };
        let roomy = match self.full_until(now, window) {
            Some(at) => later(unheld, at),
            None => unheld,
        };
        if self.probing {
            later(roomy, soon(now, window))
        } else {
            roomy
        }
    }

    /// The key once holds and sends that are over at `now` are forgotten.
    pub open spec fn settled(&self, now: Instant, window: Duration) -> KeyView {
        if self.health is Healthy && !self.held(now) {
            KeyView { hold_until: None, sends: live_sends(self.sends, now, window), ..*self }
        } else {
            *self
        }
    }

    /// Requests that could be sent without waiting, as far as recorded sends and holds tell.
    pub open spec fn slots(&self) -> nat {
        if self.health is Healthy && self.hold_until is None && !self.probing && self.sends.len()
            < self.burst() {
            (self.burst() - self.sends.len()) as nat
        } else {
            0
        }
    }

    /// True for a plan without a monthly cap (Brave reports a limit of 0) and without an override.
    pub open spec fn unlimited(&self) -> bool {
        self.monthly_cap_override is None && self.month_limit == Some(0u64)
    }

    /// Requests counted against the effective monthly cap this cycle.
    pub open spec fn month_used(&self) -> nat {
        if self.monthly_cap_override is Some {
            self.cycle_ok as nat
        } else {
            match (self.month_limit, self.month_remaining) {
                (Some(l), Some(r)) if l >= r => (l - r) as nat,
                _ => 0,
            }
        }
    }

    /// Remaining monthly quota as used for ranking: unknown or unlimited count as "plenty".
    pub open spec fn ranking_quota(&self) -> nat {
        match self.monthly_cap_override {
            Some(cap) => if cap >= self.month_used() {
                (cap - self.month_used()) as nat
            } else {
                0
            },
            None => match self.month_remaining {
                Some(r) if !self.unlimited() => r as nat,
                _ => u64::MAX as nat,
            },
        }
    }

    /// True once the self-imposed cap, if any, has been used up this cycle.
    pub open spec fn cap_used_up(&self) -> bool {
        match self.monthly_cap_override {
            Some(cap) => self.month_used() >= cap,
            None => false,
        }
    }

    /// True if a response with these rate limits, once they are learned, says that the month is
    /// used up: nothing is left, and the plan is not known to have no monthly cap.
    pub open spec fn month_spent(&self, rl: RateLimitInfo) -> bool {
        rl.exhausted() && self.month_limit != Some(0u64)
    }

    /// The key with what the headers say about its plan.
    pub open spec fn learned(&self, now: Instant, rl: RateLimitInfo) -> KeyView {
        KeyView {
            sec_limit: match rl.limit.second {
                Some(l) if l > MAX_LEARNED_RPS => MAX_LEARNED_RPS as u32,
                Some(l) if l > 0 => l as u32,
                _ => self.sec_limit,
            },
            month_limit: if rl.limit.month is Some {
                rl.limit.month
            } else {
                self.month_limit
            },
            month_remaining: if rl.remaining.month is Some {
                rl.remaining.month
            } else {
                self.month_remaining
            },
            month_reset_at: match rl.resets_in() {
                Some(d) => Some(now.after(d)),
                None => self.month_reset_at,
            },
            limits_learned: self.limits_learned || rl.limit.second is Some
                || rl.limit.month is Some,
            ..*self
        }
    }

    /// The key disabled once more.
    pub open spec fn disabled(
        &self,
        now: Instant,
        base: nat,
        max: nat,
        reason: Seq<char>,
    ) -> KeyView {
        let strikes = if self.disable_strikes < u32::MAX {
            (self.disable_strikes + 1) as u32
        } else {
            u32::MAX
        };
        KeyView {
            disable_strikes: strikes,
            disabled_since: if self.disabled_since is Some {
                self.disabled_since
            } else {
                Some(now)
            },
            consecutive_failures: 0,
            consecutive_429: 0,
            health: HealthView::Disabled {
                until: now.after(Duration::of_secs(backoff_secs(base, max, strikes as nat))),
                reason,
            },
            ..*self
        }
    }

    /// The key parked until its monthly quota resets.
    pub open spec fn parked(&self, now: Instant, reset_in: Option<Duration>) -> KeyView {
        let until = now.after(
            match reset_in {
                Some(d) => d,
                None => Duration::of_secs(EXHAUSTED_FALLBACK as nat),
            },
        );
        KeyView {
            month_remaining: Some(0u64),
            month_reset_at: Some(until),
            health: HealthView::Exhausted { until },
            ..*self
        }
    }

    /// The key after one more failure in a row.
    pub open spec fn failed(&self, now: Instant, what: Seq<char>) -> KeyView {
        let failures = (self.consecutive_failures + 1) as u32;
        let counted = KeyView { consecutive_failures: failures, ..*self };
        if failures >= FAIL_THRESHOLD {
            counted.disabled(
                now,
                FAIL_BACKOFF_BASE as nat,
                FAIL_BACKOFF_MAX as nat,
                what + " ("@ + text::dec(failures as nat) + " consecutive failures)"@,
            )
        } else {
            counted
        }
    }

    /// The key after a send at `now`. A key with strikes is then being probed.
    pub open spec fn sent(&self, now: Instant) -> KeyView {
        KeyView {
            probing: self.disable_strikes > 0,
            sends: self.sends.push(now),
            last_used: Some(now),
            stats: StatsView { requests: (self.stats.requests + 1) as u64, ..self.stats },
            ..*self
        }
    }
}

/// What `live_sends` drops has expired, what it keeps is the rest, and the first it keeps has not.
pub proof fn lemma_live_sends(sends: Seq<Instant>, now: Instant, window: Duration)
    ensures
        live_sends(sends, now, window).len() <= sends.len(),
        live_sends(sends, now, window) == sends.skip(
            sends.len() - live_sends(sends, now, window).len(),
        ),
        forall|i: int|
            0 <= i < sends.len() - live_sends(sends, now, window).len() ==> expired(
                #[trigger] sends[i],
                now,
                window,
            ),
        live_sends(sends, now, window).len() > 0 ==> !expired(
            live_sends(sends, now, window)[0],
            now,
            window,
        ),
    decreases sends.len(),
{
    if sends.len() > 0 && expired(sends[0], now, window) {
        let rest = sends.drop_first();
        lemma_live_sends(rest, now, window);
        let kept = live_sends(rest, now, window);
        assert(rest.skip(rest.len() - kept.len()) =~= sends.skip(sends.len() - kept.len()));
        assert forall|i: int| 0 <= i < sends.len() - kept.len() implies expired(
            #[trigger] sends[i],
            now,
            window,
        ) by {
            if i > 0 {
                assert(sends[i] == rest[i - 1]);
            }
        }
    } else {
        assert(sends.skip(0) =~= sends);
    }
}

proof fn lemma_doublings(n: nat)
    requires
        n <= 16,
    ensures
        1 <= doublings(n) <= 65536,
{
    reveal_with_fuel(doublings, 17);
}

impl KeyState {
    /// What every operation keeps.
    pub open spec fn wf(&self) -> bool {
        self@.wf()
    }

    /// The `idx`th key of a pool, never used.
    pub fn new(
        idx: usize,
        token: String,
        default_rps: u32,
        monthly_cap_override: Option<u64>,
    ) -> (r: Self)
        requires
            idx < usize::MAX,
        ensures
            r@ == KeyView::fresh(idx as nat, token@, default_rps, monthly_cap_override),
            r.wf(),
    {
        let n: usize = text::chars_of(token.as_str()).len();
        let from: usize = if n > 4 {
            n - 4
        } else {
            0
        };
        let mut label = String::new();
        label.append("k");
        label.append(text::decimal((idx + 1) as u128).as_str());
        label.append(":..");
        label.append(token.as_str().substring_char(from, n));
        assert(token@.subrange(from as int, n as int) =~= if token@.len() > 4 {
            token@.skip(token@.len() - 4)
        } else {
            token@
        });
        assert(label@ =~= label_of(idx as nat, token@));
        KeyState {
            token,
            label,
            health: Health::Healthy,
            sec_limit: if default_rps < 1 {
                1
            } else {
                default_rps
            },
            limits_learned: false,
            month_limit: None,
            month_remaining: None,
            month_reset_at: None,
            hold_until: None,
            sends: VecDeque::with_capacity(4),
            last_used: None,
            last_ok: None,
            consecutive_failures: 0,
            consecutive_429: 0,
            disable_strikes: 0,
            disabled_since: None,
            probing: false,
            stats: Stats::default(),
            cycle_ok: 0,
            monthly_cap_override,
        }
    }

    /// Re-enables keys whose cooldown has elapsed.
    pub fn refresh(&mut self, now: Instant)
        ensures
            final(self)@ == old(self)@.refreshed(now),
            old(self).wf() ==> final(self).wf(),
    {
        let (disabled_over, exhausted_over) = match &self.health {
            Health::Disabled { until, .. } => (until.nanos <= now.nanos, false),
            Health::Exhausted { until } => (false, until.nanos <= now.nanos),
            Health::Healthy => (false, false),
        };
        if disabled_over {
            self.health = Health::Healthy;
        } else if exhausted_over {
            self.month_remaining = None;
            self.month_reset_at = None;
            self.cycle_ok = 0;
            self.health = Health::Healthy;
        }
    }

    /// Forgets the sends that the window has passed over.
    pub fn prune_window(&mut self, now: Instant, window: Duration)
        ensures
            final(self)@ == (KeyView {
                sends: live_sends(old(self)@.sends, now, window),
                ..old(self)@
            }),
            old(self).wf() ==> final(self).wf(),
    {
        while self.sends.len() > 0 && now.saturating_duration_since(self.sends[0]).nanos
            >= window.nanos
            invariant
                live_sends(self.sends@, now, window) == live_sends(old(self)@.sends, now, window),
                self@ == (KeyView { sends: self.sends@, ..old(self)@ }),
            decreases self.sends@.len(),
        {
            let ghost before = self.sends@;
            let _ = self.sends.pop_front();
            assert(self.sends@ =~= before.drop_first());
        }
        proof {
            lemma_live_sends(old(self)@.sends, now, window);
        }
    }

    /// How many sends fit into one window.
    fn burst_limit(&self) -> (r: u32)
        ensures
            r == self@.burst(),
            r >= 1,
    {
        if self.disable_strikes > 0 || self.sec_limit < 1 {
            1
        } else {
            self.sec_limit
        }
    }

    /// When the window has room again, if it is full.
    fn window_full_until(&self, now: Instant, window: Duration) -> (r: Option<Instant>)
        requires
            self.wf(),
            window.nanos <= WINDOW_MAX,
        ensures
            r == self@.full_until(now, window),
    {
        let n: usize = self.sends.len();
        let burst: usize = self.burst_limit() as usize;
        let ghost all = self.sends@;
        let ghost live = live_sends(all, now, window);
        let mut gone: usize = 0;
        assert(all.skip(0) =~= all);
        while gone < n && now.saturating_duration_since(self.sends[gone]).nanos >= window.nanos
            invariant
                gone <= n == self.sends@.len(),
                all == self.sends@,
                live == live_sends(all.skip(gone as int), now, window),
            decreases n - gone,
        {
            assert(all.skip(gone as int).drop_first() =~= all.skip(gone as int + 1));
            gone += 1;
        }
        assert(live == all.skip(gone as int));
        if n - gone < burst {
            return None;
        }
        let mut at: Instant = self.sends[gone];
        let mut i: usize = 1;
        while i < n - gone - burst + 1
            invariant
                1 <= i <= n - gone - burst + 1,
                gone <= n == self.sends@.len(),
                1 <= burst <= n - gone,
                all == self.sends@,
                live == all.skip(gone as int),
                at == latest(live, i as nat),
                at.in_range(),
                self.wf(),
            decreases n - gone - i,
        {
            let next: Instant = self.sends[gone + i];
            assert(self@.sends[gone + i].in_range());
            assert(live[i as int] == next);
            if next.nanos > at.nanos {
                at = next;
            }
            i += 1;
        }
        assert(self@.sends[gone as int].in_range());
        Some(at.plus(window))
    }

    /// `Ok(())` if a request may be sent now, otherwise the earliest instant it may. While a probe
    /// is out, that is when to ask again.
    pub fn availability(&mut self, now: Instant, window: Duration) -> (r: Result<(), Instant>)
        requires
            old(self).wf(),
            window.nanos <= WINDOW_MAX,
        ensures
            r is Ok <==> old(self)@.free(now, window),
            r matches Err(at) ==> at == old(self)@.blocked_until(now, window),
            final(self)@ == old(self)@.settled(now, window),
            final(self).wf(),
    {
        let full_until = self.window_full_until(now, window);
        let mut at = match &self.health {
            Health::Disabled { until, .. } => *until,
            Health::Exhausted { until } => *until,
            Health::Healthy => now,
        };
        let mut held = false;
        if let Some(h) = self.hold_until {
            held = h.nanos > now.nanos;
            if h.nanos > at.nanos {
                at = h;
            }
        }
        if let Some(f) = full_until {
            if f.nanos > at.nanos {
                at = f;
            }
        }
        if self.probing {
            let again: u128 = now.nanos.saturating_add(window.nanos);
            if again > at.nanos {
                at = Instant { nanos: again };
            }
        }
        if !self.is_healthy() || held {
            return Err(at);
        }
        self.hold_until = None;
        self.prune_window(now, window);
        if full_until.is_some() || self.probing {
            return Err(at);
        }
        Ok(())
    }

    /// True for a key that is neither disabled nor exhausted.
    pub fn is_healthy(&self) -> (r: bool)
        ensures
            r == (self@.health is Healthy),
    {
        match &self.health {
            Health::Healthy => true,
            _ => false,
        }
    }

    /// Requests that could be sent without waiting, as far as recorded sends and holds tell.
    pub fn free_slots(&self) -> (r: u32)
        requires
            self.wf(),
        ensures
            r == self@.slots(),
    {
        if !self.is_healthy() || self.hold_until.is_some() || self.probing {
            return 0;
        }
        self.burst_limit().saturating_sub(self.sends.len() as u32)
    }

    /// Brave reports a monthly limit of 0 for plans without a monthly cap. A locally configured
    /// override always takes precedence, since it exists precisely to correct cases where Brave's
    /// headers under- or over-state the real usable quota.
    pub fn month_unlimited(&self) -> (r: bool)
        ensures
            r == self@.unlimited(),
    {
        if self.monthly_cap_override.is_some() {
            return false;
        }
        match self.month_limit {
            Some(l) => l == 0,
            None => false,
        }
    }

    /// Requests already counted against the effective monthly cap this cycle. With an override
    /// these are the successes counted here (Brave's own remaining header may be tracking a
    /// different, higher limit than the override).
    pub fn effective_month_used(&self) -> (r: u64)
        ensures
            r == self@.month_used(),
    {
        if self.monthly_cap_override.is_some() {
            self.cycle_ok
        } else {
            match (self.month_limit, self.month_remaining) {
                (Some(l), Some(r)) => l.saturating_sub(r),
                _ => 0,
            }
        }
    }

    /// Remaining monthly quota as used for ranking: unknown or unlimited count as "plenty".
    pub fn month_remaining_for_ranking(&self) -> (r: u64)
        ensures
            r == self@.ranking_quota(),
    {
        if let Some(cap) = self.monthly_cap_override {
            return cap.saturating_sub(self.effective_month_used());
        }
        if self.month_unlimited() {
            u64::MAX
        } else {
            self.month_remaining.unwrap_or(u64::MAX)
        }
    }

    /// True once the self-imposed override cap, if any, has been used up this cycle.
    pub fn override_cap_exhausted(&self) -> (r: bool)
        ensures
            r == self@.cap_used_up(),
    {
        match self.monthly_cap_override {
            Some(cap) => self.effective_month_used() >= cap,
            None => false,
        }
    }

    /// Takes over what the headers of a response say about the plan.
    pub fn learn_limits(&mut self, now: Instant, rl: &RateLimitInfo)
        requires
            now.in_range(),
        ensures
            final(self)@ == old(self)@.learned(now, *rl),
            old(self).wf() ==> final(self).wf(),
    {
        if let Some(l) = rl.limit.second {
            if l > MAX_LEARNED_RPS {
                self.sec_limit = MAX_LEARNED_RPS as u32;
            } else if l > 0 {
                self.sec_limit = l as u32;
            }
        }
        if rl.limit.month.is_some() {
            self.month_limit = rl.limit.month;
        }
        if rl.remaining.month.is_some() {
            self.month_remaining = rl.remaining.month;
        }
        if let Some(d) = rl.month_reset() {
            self.month_reset_at = Some(now.plus(d));
        }
        if rl.limit.second.is_some() || rl.limit.month.is_some() {
            self.limits_learned = true;
        }
    }

    /// Disables the key for `base` seconds, doubled with each strike after the first, at most
    /// `max`.
    pub fn disable(&mut self, now: Instant, base: u64, max: u64, reason: String)
        requires
            now.in_range(),
        ensures
            final(self)@ == old(self)@.disabled(now, base as nat, max as nat, reason@),
            old(self).wf() ==> final(self).wf(),
    {
        self.disable_strikes = self.disable_strikes.saturating_add(1);
        let exponent: u32 = if self.disable_strikes - 1 > 16 {
            16
        } else {
            self.disable_strikes - 1
        };
        let mut factor: u64 = 1;
        let mut i: u32 = 0;
        while i < exponent
            invariant
                i <= exponent <= 16,
                factor == doublings(i as nat),
                factor <= 65536,
            decreases exponent - i,
        {
            proof {
                lemma_doublings((i + 1) as nat);
            }
            factor = factor * 2;
            i += 1;
        }
        proof {
            assert(base as u128 * factor as u128 <= u64::MAX * 65536) by (nonlinear_arith)
                requires
                    base <= u64::MAX,
                    factor <= 65536,
            ;
        }
        let doubled: u128 = base as u128 * factor as u128;
        let secs: u64 = if doubled <= max as u128 {
            doubled as u64
        } else {
            max
        };
        let until = now.plus(Duration::from_secs(secs));
        if self.disabled_since.is_none() {
            self.disabled_since = Some(now);
        }
        self.consecutive_failures = 0;
        self.consecutive_429 = 0;
        self.health = Health::Disabled { until, reason };
    }

    /// Parks the key until its monthly quota resets.
    pub fn exhaust(&mut self, now: Instant, reset_in: Option<Duration>)
        requires
            now.in_range(),
            reset_in matches Some(d) ==> now.nanos + d.nanos <= u128::MAX,
        ensures
            final(self)@ == old(self)@.parked(now, reset_in),
            old(self).wf() ==> final(self).wf(),
    {
        let span = match reset_in {
            Some(d) => d,
            None => Duration::from_secs(EXHAUSTED_FALLBACK),
        };
        let until = now.plus(span);
        self.month_remaining = Some(0);
        self.month_reset_at = Some(until);
        self.health = Health::Exhausted { until };
    }

    /// Counts one more failure in a row and disables the key at the third.
    pub fn fail(&mut self, now: Instant, what: &str)
        requires
            now.in_range(),
            old(self).wf(),
        ensures
            final(self)@ == old(self)@.failed(now, what@),
            final(self).wf(),
    {
        self.consecutive_failures = self.consecutive_failures + 1;
        if self.consecutive_failures >= FAIL_THRESHOLD {
            let mut reason = String::new();
            reason.append(what);
            reason.append(" (");
            reason.append(text::decimal(self.consecutive_failures as u128).as_str());
            reason.append(" consecutive failures)");
            assert(reason@ =~= what@ + " ("@ + text::dec(self.consecutive_failures as nat)
                + " consecutive failures)"@);
            self.disable(now, FAIL_BACKOFF_BASE, FAIL_BACKOFF_MAX, reason);
        }
    }

    /// Records a send at `now`.
    pub fn send(&mut self, now: Instant)
        requires
            now.in_range(),
            old(self).wf(),
            old(self)@.sends.len() < old(self)@.burst(),
            old(self)@.stats.requests < u64::MAX,
        ensures
            final(self)@ == old(self)@.sent(now),
            final(self).wf(),
    {
        self.probing = self.disable_strikes > 0;
        self.sends.push_back(now);
        self.last_used = Some(now);
        self.stats.requests = self.stats.requests + 1;
    }
}

/// The text for a monthly limit: Brave reports 0 for plans without one.
pub open spec fn quota_text(v: u64) -> Seq<char> {
    if v == 0 {
        "unlimited"@
    } else {
        text::dec(v as nat)
    }
}

/// The text for a monthly limit.
pub fn fmt_quota(v: u64) -> (r: String)
    ensures
        r@ == quota_text(v),
{
    if v == 0 {
        let mut s = String::new();
        s.append("unlimited");
        assert(s@ =~= "unlimited"@);
        s
    } else {
        text::decimal(v as u128)
    }
}

} // verus!
