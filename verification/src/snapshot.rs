//! What the pool reports about itself.

use vstd::prelude::*;

use crate::clock::{self, Clock, Duration, Instant};
use crate::key::{self, Health, HealthView, KeyState, KeyView, Stats, StatsView};
use crate::pool::{self, Pool};

verus! {

#[derive(Debug)]
pub struct PoolSnapshot {
    pub now: String,
    pub keys_total: usize,
    pub keys_healthy: usize,
    /// Sum of requests/second across healthy keys.
    pub rps_capacity: u64,
    /// Requests that could be sent right now without waiting.
    pub slots_available_now: u64,
    /// Sum over keys with a monthly cap (keys without a cap are excluded).
    pub month_limit_total: Option<u64>,
    pub month_remaining_total: Option<u64>,
    /// Healthy keys on a plan without a monthly cap.
    pub month_unlimited_keys: usize,
    pub totals: Stats,
    pub keys: Vec<KeySnapshot>,
}

#[derive(Debug)]
pub struct KeySnapshot {
    pub key: String,
    pub state: &'static str,
    pub reason: Option<String>,
    pub until: Option<String>,
    pub until_in: Option<String>,
    pub disabled_since: Option<String>,
    pub per_second: PerSecond,
    pub monthly: Monthly,
    pub last_used_ago: Option<String>,
    pub last_ok_ago: Option<String>,
    pub stats: Stats,
}

#[derive(Debug, Clone, Copy, PartialEq, Eq, Structural)]
pub struct PerSecond {
    pub limit: u32,
    pub limits_learned: bool,
    pub in_window: u32,
    pub next_slot_in_ms: u64,
}

#[derive(Debug)]
pub struct Monthly {
    /// Plan without a monthly cap (Brave reports limit 0); `limit`/`remaining` are then null.
    pub unlimited: bool,
    pub limit: Option<u64>,
    pub remaining: Option<u64>,
    pub reset_at: Option<String>,
    pub reset_in: Option<String>,
}

/// The model of `Monthly`.
pub struct MonthlyView {
    pub unlimited: bool,
    pub limit: Option<u64>,
    pub remaining: Option<u64>,
    pub reset_at: Option<Seq<char>>,
    pub reset_in: Option<Seq<char>>,
}

impl View for Monthly {
    type V = MonthlyView;

    open spec fn view(&self) -> MonthlyView {
        MonthlyView {
            unlimited: self.unlimited,
            limit: self.limit,
            remaining: self.remaining,
            reset_at: key::opt_text(self.reset_at),
            reset_in: key::opt_text(self.reset_in),
        }
    }
}

/// The model of `KeySnapshot`.
pub struct KeySnapshotView {
    pub key: Seq<char>,
    pub state: Seq<char>,
    pub reason: Option<Seq<char>>,
    pub until: Option<Seq<char>>,
    pub until_in: Option<Seq<char>>,
    pub disabled_since: Option<Seq<char>>,
    pub per_second: PerSecond,
    pub monthly: MonthlyView,
    pub last_used_ago: Option<Seq<char>>,
    pub last_ok_ago: Option<Seq<char>>,
    pub stats: StatsView,
}

impl View for KeySnapshot {
    type V = KeySnapshotView;

    open spec fn view(&self) -> KeySnapshotView {
        KeySnapshotView {
            key: self.key@,
            state: self.state@,
            reason: key::opt_text(self.reason),
            until: key::opt_text(self.until),
            until_in: key::opt_text(self.until_in),
            disabled_since: key::opt_text(self.disabled_since),
            per_second: self.per_second,
            monthly: self.monthly@,
            last_used_ago: key::opt_text(self.last_used_ago),
            last_ok_ago: key::opt_text(self.last_ok_ago),
            stats: self.stats@,
        }
    }
}

/// The earliest instant at which a key that is not free may be sent with.
pub open spec fn next_slot(k: KeyView, now: Instant, window: Duration) -> Option<Instant> {
    if k.free(now, window) {
        None
    } else {
        Some(k.blocked_until(now, window))
    }
}

/// The state of a key, why it is in it, and until when.
pub open spec fn state_of(k: KeyView, now: Instant, window: Duration) -> (
    Seq<char>,
    Option<Seq<char>>,
    Option<Instant>,
) {
    match k.health {
        HealthView::Healthy => if k.held(now) {
            ("cooling"@, Some("upstream asked us to slow down"@), k.hold_until)
        } else if !k.free(now, window) {
            ("busy"@, None, next_slot(k, now, window))
        } else {
            ("ok"@, None, None)
        },
        HealthView::Disabled { until, reason } => ("disabled"@, Some(reason), Some(until)),
        HealthView::Exhausted { until } => (
            "exhausted"@,
            Some("monthly quota used up"@),
            Some(until),
        ),
    }
}

/// The span until an instant, for instants that are known.
pub open spec fn left_until(i: Option<Instant>, now: Instant) -> Option<Duration> {
    match i {
        Some(i) => Some(i.since(now)),
        None => None,
    }
}

/// The span since an instant, for instants that are known.
pub open spec fn gone_since(i: Option<Instant>, now: Instant) -> Option<Duration> {
    match i {
        Some(i) => Some(now.since(i)),
        None => None,
    }
}

/// What is reported about one key, once its elapsed cooldowns are over.
pub open spec fn key_report(k: KeyView, clock: Clock, window: Duration) -> KeySnapshotView {
    let now = clock.now;
    let (state, reason, until) = state_of(k, now, window);
    KeySnapshotView {
        key: k.label,
        state,
        reason,
        until: clock::opt_instant_text(until, clock),
        until_in: clock::opt_dur_text(left_until(until, now)),
        disabled_since: clock::opt_instant_text(k.disabled_since, clock),
        per_second: PerSecond {
            limit: k.sec_limit,
            limits_learned: k.limits_learned,
            in_window: k.settled(now, window).sends.len() as u32,
            next_slot_in_ms: match next_slot(k, now, window) {
                Some(at) => (at.since(now).nanos / 1_000_000) as u64,
                None => 0,
            },
        },
        monthly: MonthlyView {
            unlimited: k.unlimited(),
            limit: if k.unlimited() {
                None
            } else {
                k.month_limit
            },
            remaining: if k.unlimited() {
                None
            } else {
                k.month_remaining
            },
            reset_at: clock::opt_instant_text(k.month_reset_at, clock),
            reset_in: clock::opt_dur_text(left_until(k.month_reset_at, now)),
        },
        last_used_ago: clock::opt_dur_text(gone_since(k.last_used, now)),
        last_ok_ago: clock::opt_dur_text(gone_since(k.last_ok, now)),
        stats: k.stats,
    }
}

fn opt_fmt_dur(d: Option<Duration>) -> (r: Option<String>)
    ensures
        key::opt_text(r) == clock::opt_dur_text(d),
{
    match d {
        Some(d) => Some(clock::fmt_dur(d)),
        None => None,
    }
}

fn opt_fmt_instant(i: Option<Instant>, clock: &Clock) -> (r: Option<String>)
    ensures
        key::opt_text(r) == clock::opt_instant_text(i, *clock),
{
    match i {
        Some(i) => Some(clock::fmt_instant(i, clock)),
        None => None,
    }
}

fn time_left(i: Option<Instant>, now: Instant) -> (r: Option<Duration>)
    ensures
        r == left_until(i, now),
{
    match i {
        Some(i) => Some(i.saturating_duration_since(now)),
        None => None,
    }
}

fn time_gone(i: Option<Instant>, now: Instant) -> (r: Option<Duration>)
    ensures
        r == gone_since(i, now),
{
    match i {
        Some(i) => Some(now.saturating_duration_since(i)),
        None => None,
    }
}

impl KeyState {
    /// Settles the key and reports about it.
    pub fn report(&mut self, clock: &Clock, window: Duration) -> (r: KeySnapshot)
        requires
            old(self).wf(),
            window.nanos <= key::WINDOW_MAX,
        ensures
            final(self).wf(),
            final(self)@ == old(self)@.settled(clock.now, window),
            r@ == key_report(old(self)@, *clock, window),
    {
        let ghost k = self@;
        let now = clock.now;
        let avail = self.availability(now, window);
        let next = avail.err();
        assert(next == next_slot(k, now, window));
        let (state, reason, until): (&'static str, Option<String>, Option<Instant>) =
            match &self.health {
            Health::Healthy => {
                let held = match self.hold_until {
                    Some(h) => h.nanos > now.nanos,
                    None => false,
                };
                if held {
                    (
                        "cooling",
                        Some("upstream asked us to slow down".to_string()),
                        self.hold_until,
                    )
                } else if next.is_some() {
                    ("busy", None, next)
                } else {
                    ("ok", None, None)
                }
            },
            Health::Disabled { until, reason } => ("disabled", Some(reason.clone()), Some(*until)),
            Health::Exhausted { until } => (
                "exhausted",
                Some("monthly quota used up".to_string()),
                Some(*until),
            ),
        };
        assert((state@, key::opt_text(reason), until) == state_of(k, now, window));
        let unlimited = self.month_unlimited();
        let next_slot_in_ms: u64 = match next {
            Some(at) => {
                let millis: u128 = at.saturating_duration_since(now).as_millis();
                #[verifier::truncate]
                (millis as u64)
            },
            None => 0,
        };
        KeySnapshot {
            key: self.label.clone(),
            state,
            reason,
            until: opt_fmt_instant(until, clock),
            until_in: opt_fmt_dur(time_left(until, now)),
            disabled_since: opt_fmt_instant(self.disabled_since, clock),
            per_second: PerSecond {
                limit: self.sec_limit,
                limits_learned: self.limits_learned,
                in_window: self.sends.len() as u32,
                next_slot_in_ms,
            },
            monthly: Monthly {
                unlimited,
                limit: if unlimited {
                    None
                } else {
                    self.month_limit
                },
                remaining: if unlimited {
                    None
                } else {
                    self.month_remaining
                },
                reset_at: opt_fmt_instant(self.month_reset_at, clock),
                reset_in: opt_fmt_dur(time_left(self.month_reset_at, now)),
            },
            last_used_ago: opt_fmt_dur(time_gone(self.last_used, now)),
            last_ok_ago: opt_fmt_dur(time_gone(self.last_ok, now)),
            stats: self.stats.clone(),
        }
    }
}

/// The sum of `f` over the first `n` keys.
pub open spec fn sum<A>(keys: Seq<A>, f: spec_fn(A) -> nat, n: nat) -> nat
    decreases n,
{
    if n == 0 {
        0
    } else {
        sum(keys, f, (n - 1) as nat) + f(keys[n - 1])
    }
}

/// The sum of `f` over those of the first `n` keys that have a value, `None` if none has.
pub open spec fn known_sum<A>(keys: Seq<A>, f: spec_fn(A) -> Option<u64>, n: nat) -> Option<nat>
    decreases n,
{
    if n == 0 {
        None
    } else {
        match (known_sum(keys, f, (n - 1) as nat), f(keys[n - 1])) {
            (Some(t), Some(v)) => Some(t + v as nat),
            (None, Some(v)) => Some(v as nat),
            (t, None) => t,
        }
    }
}

/// One for a healthy key.
pub open spec fn healthy() -> spec_fn(KeyView) -> nat {
    |k: KeyView|
        if k.health is Healthy {
            1
        } else {
            0
        }
}

/// The requests/second of a healthy key.
pub open spec fn rps() -> spec_fn(KeyView) -> nat {
    |k: KeyView|
        if k.health is Healthy {
            k.rate()
        } else {
            0
        }
}

/// The free slots of a key.
pub open spec fn slots() -> spec_fn(KeyView) -> nat {
    |k: KeyView| k.slots()
}

/// One for a healthy key on a plan without a monthly cap.
pub open spec fn uncapped() -> spec_fn(KeyView) -> nat {
    |k: KeyView|
        if k.health is Healthy && k.unlimited() {
            1
        } else {
            0
        }
}

/// The monthly limit of a key with a cap.
pub open spec fn capped_limit() -> spec_fn(KeyView) -> Option<u64> {
    |k: KeyView|
        if k.unlimited() {
            None
        } else {
            k.month_limit
        }
}

/// What is left of the month for a key with a cap.
pub open spec fn capped_remaining() -> spec_fn(KeyView) -> Option<u64> {
    |k: KeyView|
        if k.unlimited() {
            None
        } else {
            k.month_remaining
        }
}

/// Requests sent.
pub open spec fn requests() -> spec_fn(KeyView) -> nat {
    |k: KeyView| k.stats.requests as nat
}

/// Successes.
pub open spec fn successes() -> spec_fn(KeyView) -> nat {
    |k: KeyView| k.stats.ok as nat
}

/// 429s.
pub open spec fn limits_hit() -> spec_fn(KeyView) -> nat {
    |k: KeyView| k.stats.upstream_429 as nat
}

/// Rejections.
pub open spec fn rejections() -> spec_fn(KeyView) -> nat {
    |k: KeyView| k.stats.client_4xx as nat
}

/// Server errors.
pub open spec fn server_errors() -> spec_fn(KeyView) -> nat {
    |k: KeyView| k.stats.server_5xx as nat
}

/// Transport errors.
pub open spec fn transport_errors() -> spec_fn(KeyView) -> nat {
    |k: KeyView| k.stats.transport_errors as nat
}

/// True if a total can be written as a `u64`.
pub open spec fn fits(t: Option<nat>) -> bool {
    match t {
        Some(t) => t <= u64::MAX,
        None => true,
    }
}

/// True if the totals over the first `n` keys can be written as `u64`s.
pub open spec fn totals_fit(keys: Seq<KeyView>, n: nat) -> bool {
    &&& sum(keys, rps(), n) <= u64::MAX
    &&& fits(known_sum(keys, capped_limit(), n))
    &&& fits(known_sum(keys, capped_remaining(), n))
    &&& sum(keys, requests(), n) <= u64::MAX
    &&& sum(keys, successes(), n) <= u64::MAX
    &&& sum(keys, limits_hit(), n) <= u64::MAX
    &&& sum(keys, rejections(), n) <= u64::MAX
    &&& sum(keys, server_errors(), n) <= u64::MAX
    &&& sum(keys, transport_errors(), n) <= u64::MAX
}

/// True if `total` is the known sum `t`.
pub open spec fn is_total(total: Option<u64>, t: Option<nat>) -> bool {
    match (total, t) {
        (Some(a), Some(b)) => a == b,
        (None, None) => true,
        _ => false,
    }
}

impl PoolSnapshot {
    /// True if the figures are those of the first `n` of these keys, which are refreshed, once
    /// they are settled.
    pub open spec fn sums_up(
        &self,
        keys: Seq<KeyView>,
        settled: Seq<KeyView>,
        n: nat,
        clock: Clock,
        window: Duration,
    ) -> bool {
        &&& self.keys_healthy == sum(settled, healthy(), n)
        &&& self.rps_capacity == sum(settled, rps(), n)
        &&& self.slots_available_now == sum(settled, slots(), n)
        &&& self.month_unlimited_keys == sum(settled, uncapped(), n)
        &&& is_total(self.month_limit_total, known_sum(settled, capped_limit(), n))
        &&& is_total(self.month_remaining_total, known_sum(settled, capped_remaining(), n))
        &&& self.totals.requests == sum(settled, requests(), n)
        &&& self.totals.ok == sum(settled, successes(), n)
        &&& self.totals.upstream_429 == sum(settled, limits_hit(), n)
        &&& self.totals.client_4xx == sum(settled, rejections(), n)
        &&& self.totals.server_5xx == sum(settled, server_errors(), n)
        &&& self.totals.transport_errors == sum(settled, transport_errors(), n)
        &&& self.totals.last_status is None
        &&& self.totals.last_error is None
        &&& self.keys@.len() == n
        &&& forall|i: int|
            0 <= i < n ==> (#[trigger] self.keys@[i])@ == key_report(keys[i], clock, window)
    }
}

/// All keys settled.
pub open spec fn all_settled(keys: Seq<KeyView>, now: Instant, window: Duration) -> Seq<KeyView> {
    keys.map_values(|k: KeyView| k.settled(now, window))
}

proof fn lemma_sum_grows(keys: Seq<KeyView>, f: spec_fn(KeyView) -> nat, i: nat, n: nat)
    requires
        i <= n,
    ensures
        sum(keys, f, i) <= sum(keys, f, n),
    decreases n - i,
{
    if i < n {
        lemma_sum_grows(keys, f, i + 1, n);
    }
}

proof fn lemma_known_sum_grows(
    keys: Seq<KeyView>,
    f: spec_fn(KeyView) -> Option<u64>,
    i: nat,
    n: nat,
)
    requires
        i <= n,
    ensures
        known_sum(keys, f, i) matches Some(a) ==> known_sum(keys, f, n) matches Some(b) && a <= b,
    decreases n - i,
{
    if i < n {
        lemma_known_sum_grows(keys, f, i + 1, n);
    }
}

proof fn lemma_totals_fit_before(keys: Seq<KeyView>, i: nat, n: nat)
    requires
        i <= n,
        totals_fit(keys, n),
    ensures
        totals_fit(keys, i),
{
    lemma_sum_grows(keys, rps(), i, n);
    lemma_known_sum_grows(keys, capped_limit(), i, n);
    lemma_known_sum_grows(keys, capped_remaining(), i, n);
    lemma_sum_grows(keys, requests(), i, n);
    lemma_sum_grows(keys, successes(), i, n);
    lemma_sum_grows(keys, limits_hit(), i, n);
    lemma_sum_grows(keys, rejections(), i, n);
    lemma_sum_grows(keys, server_errors(), i, n);
    lemma_sum_grows(keys, transport_errors(), i, n);
}

/// The free slots are no more than the requests/second, and the healthy keys no more than the
/// keys.
proof fn lemma_sum_bounds(keys: Seq<KeyView>, n: nat)
    ensures
        sum(keys, slots(), n) <= sum(keys, rps(), n),
        sum(keys, healthy(), n) <= n,
        sum(keys, uncapped(), n) <= n,
    decreases n,
{
    if n > 0 {
        lemma_sum_bounds(keys, (n - 1) as nat);
    }
}

/// Settling changes none of the sums but that of the free slots.
proof fn lemma_settled_totals(a: Seq<KeyView>, b: Seq<KeyView>, n: nat)
    requires
        n <= a.len() == b.len(),
        exists|now: Instant, window: Duration| b == #[trigger] all_settled(a, now, window),
    ensures
        totals_fit(a, n) == totals_fit(b, n),
        sum(a, rps(), n) == sum(b, rps(), n),
        known_sum(a, capped_limit(), n) == known_sum(b, capped_limit(), n),
        known_sum(a, capped_remaining(), n) == known_sum(b, capped_remaining(), n),
        sum(a, requests(), n) == sum(b, requests(), n),
        sum(a, successes(), n) == sum(b, successes(), n),
        sum(a, limits_hit(), n) == sum(b, limits_hit(), n),
        sum(a, rejections(), n) == sum(b, rejections(), n),
        sum(a, server_errors(), n) == sum(b, server_errors(), n),
        sum(a, transport_errors(), n) == sum(b, transport_errors(), n),
    decreases n,
{
    if n > 0 {
        lemma_settled_totals(a, b, (n - 1) as nat);
    }
}

fn plus_known(total: Option<u64>, v: Option<u64>) -> (r: Option<u64>)
    requires
        (total matches Some(t) && v matches Some(x)) ==> total->0 + v->0 <= u64::MAX,
    ensures
        r == match (total, v) {
            (Some(t), Some(x)) => Some((t + x) as u64),
            (None, Some(x)) => Some(x),
            (t, None) => t,
        },
{
    match (total, v) {
        (Some(t), Some(x)) => Some(t + x),
        (None, Some(x)) => Some(x),
        (t, None) => t,
    }
}

impl PoolSnapshot {
    fn count(&mut self, k: &KeyState)
        requires
            k.wf(),
            old(self).keys_healthy < usize::MAX,
            old(self).month_unlimited_keys < usize::MAX,
            old(self).rps_capacity + k@.rate() <= u64::MAX || !(k@.health is Healthy),
            old(self).slots_available_now + k@.slots() <= u64::MAX,
            !k@.unlimited() ==> ((old(self).month_limit_total matches Some(t)
                && k@.month_limit matches Some(x)) ==> old(self).month_limit_total->0
                + k@.month_limit->0 <= u64::MAX),
            !k@.unlimited() ==> ((old(self).month_remaining_total matches Some(t)
                && k@.month_remaining matches Some(x)) ==> old(self).month_remaining_total->0
                + k@.month_remaining->0 <= u64::MAX),
            old(self).totals.requests + k@.stats.requests <= u64::MAX,
            old(self).totals.ok + k@.stats.ok <= u64::MAX,
            old(self).totals.upstream_429 + k@.stats.upstream_429 <= u64::MAX,
            old(self).totals.client_4xx + k@.stats.client_4xx <= u64::MAX,
            old(self).totals.server_5xx + k@.stats.server_5xx <= u64::MAX,
            old(self).totals.transport_errors + k@.stats.transport_errors <= u64::MAX,
        ensures
            final(self).now == old(self).now,
            final(self).keys_total == old(self).keys_total,
            final(self).keys == old(self).keys,
            final(self).keys_healthy == old(self).keys_healthy + healthy()(k@),
            final(self).rps_capacity == old(self).rps_capacity + rps()(k@),
            final(self).slots_available_now == old(self).slots_available_now + slots()(k@),
            final(self).month_unlimited_keys == old(self).month_unlimited_keys + uncapped()(k@),
            final(self).month_limit_total == match (
                old(self).month_limit_total,
                capped_limit()(k@),
            ) {
                (Some(t), Some(x)) => Some((t + x) as u64),
                (None, Some(x)) => Some(x),
                (t, None) => t,
            },
            final(self).month_remaining_total == match (
                old(self).month_remaining_total,
                capped_remaining()(k@),
            ) {
                (Some(t), Some(x)) => Some((t + x) as u64),
                (None, Some(x)) => Some(x),
                (t, None) => t,
            },
            final(self).totals.requests == old(self).totals.requests + requests()(k@),
            final(self).totals.ok == old(self).totals.ok + successes()(k@),
            final(self).totals.upstream_429 == old(self).totals.upstream_429 + limits_hit()(k@),
            final(self).totals.client_4xx == old(self).totals.client_4xx + rejections()(k@),
            final(self).totals.server_5xx == old(self).totals.server_5xx + server_errors()(k@),
            final(self).totals.transport_errors == old(self).totals.transport_errors
                + transport_errors()(k@),
            final(self).totals.last_status == old(self).totals.last_status,
            final(self).totals.last_error == old(self).totals.last_error,
    {
        let healthy = k.is_healthy();
        if healthy {
            let limit: u32 = if k.sec_limit < 1 {
                1
            } else {
                k.sec_limit
            };
            self.keys_healthy = self.keys_healthy + 1;
            self.rps_capacity = self.rps_capacity + limit as u64;
            self.slots_available_now = self.slots_available_now + k.free_slots() as u64;
        }
        if k.month_unlimited() {
            if healthy {
                self.month_unlimited_keys = self.month_unlimited_keys + 1;
            }
        } else {
            self.month_limit_total = plus_known(self.month_limit_total, k.month_limit);
            self.month_remaining_total = plus_known(
                self.month_remaining_total,
                k.month_remaining,
            );
        }
        self.totals.requests = self.totals.requests + k.stats.requests;
        self.totals.ok = self.totals.ok + k.stats.ok;
        self.totals.upstream_429 = self.totals.upstream_429 + k.stats.upstream_429;
        self.totals.client_4xx = self.totals.client_4xx + k.stats.client_4xx;
        self.totals.server_5xx = self.totals.server_5xx + k.stats.server_5xx;
        self.totals.transport_errors = self.totals.transport_errors + k.stats.transport_errors;
    }
}

fn add_fitting(total: &mut u64, v: u64) -> (r: bool)
    ensures
        r == (*old(total) + v <= u64::MAX),
        r ==> *final(total) == *old(total) + v,
{
    match total.checked_add(v) {
        Some(t) => {
            *total = t;
            true
        },
        None => false,
    }
}

fn add_known_fitting(total: &mut Option<u64>, v: Option<u64>) -> (r: bool)
    ensures
        r == ((*old(total) matches Some(t) && v matches Some(x)) ==> old(total)->0 + v->0
            <= u64::MAX),
        r ==> *final(total) == match (*old(total), v) {
            (Some(t), Some(x)) => Some((t + x) as u64),
            (None, Some(x)) => Some(x),
            (t, None) => t,
        },
{
    match (*total, v) {
        (Some(t), Some(x)) => match t.checked_add(x) {
            Some(s) => {
                *total = Some(s);
                true
            },
            None => false,
        },
        (None, Some(x)) => {
            *total = Some(x);
            true
        },
        (_, None) => true,
    }
}

impl Pool {
    /// True if the totals that a snapshot at `now` reports can be written as `u64`s.
    pub fn snapshot_fits(&self, now: Instant) -> (r: bool)
        ensures
            r == totals_fit(pool::refreshed(self.keys(), now), self.keys().len()),
    {
        let ghost keys = pool::refreshed(self.keys(), now);
        let n: usize = self.inner.len();
        let mut rps_total: u64 = 0;
        let mut limit_total: Option<u64> = None;
        let mut remaining_total: Option<u64> = None;
        let mut totals = Stats::default();
        let mut i: usize = 0;
        while i < n
            invariant
                i <= n == self.inner@.len() == keys.len(),
                keys == pool::refreshed(self.keys(), now),
                rps_total == sum(keys, rps(), i as nat),
                is_total(limit_total, known_sum(keys, capped_limit(), i as nat)),
                is_total(remaining_total, known_sum(keys, capped_remaining(), i as nat)),
                totals.requests == sum(keys, requests(), i as nat),
                totals.ok == sum(keys, successes(), i as nat),
                totals.upstream_429 == sum(keys, limits_hit(), i as nat),
                totals.client_4xx == sum(keys, rejections(), i as nat),
                totals.server_5xx == sum(keys, server_errors(), i as nat),
                totals.transport_errors == sum(keys, transport_errors(), i as nat),
            decreases n - i,
        {
            let k = &self.inner[i];
            let ghost v = keys[i as int];
            assert(v == k@.refreshed(now));
            let (healthy, reset) = match &k.health {
                Health::Healthy => (true, false),
                Health::Disabled { until, .. } => (until.nanos <= now.nanos, false),
                Health::Exhausted { until } => (
                    until.nanos <= now.nanos,
                    until.nanos <= now.nanos,
                ),
            };
            let limit: u64 = if !healthy {
                0
            } else if k.sec_limit < 1 {
                1
            } else {
                k.sec_limit as u64
            };
            let unlimited = k.month_unlimited();
            let month_limit = if unlimited {
                None
            } else {
                k.month_limit
            };
            let month_remaining = if unlimited || reset {
                None
            } else {
                k.month_remaining
            };
            assert(limit == rps()(v));
            assert(month_limit == capped_limit()(v));
            assert(month_remaining == capped_remaining()(v));
            let ok = add_fitting(&mut rps_total, limit) && add_known_fitting(
                &mut limit_total,
                month_limit,
            ) && add_known_fitting(&mut remaining_total, month_remaining) && add_fitting(
                &mut totals.requests,
                k.stats.requests,
            ) && add_fitting(&mut totals.ok, k.stats.ok) && add_fitting(
                &mut totals.upstream_429,
                k.stats.upstream_429,
            ) && add_fitting(&mut totals.client_4xx, k.stats.client_4xx) && add_fitting(
                &mut totals.server_5xx,
                k.stats.server_5xx,
            ) && add_fitting(&mut totals.transport_errors, k.stats.transport_errors);
            if !ok {
                proof {
                    assert(!totals_fit(keys, (i + 1) as nat));
                    if totals_fit(keys, n as nat) {
                        lemma_totals_fit_before(keys, (i + 1) as nat, n as nat);
                    }
                }
                return false;
            }
            i += 1;
        }
        true
    }

    /// Ends elapsed cooldowns, settles every key, and reports about all of them.
    pub fn snapshot(&mut self, clock: &Clock) -> (r: PoolSnapshot)
        requires
            old(self).wf(),
            totals_fit(
                pool::refreshed(old(self).keys(), clock.now),
                old(self).keys().len(),
            ),
        ensures
            final(self).wf(),
            final(self).cfg == old(self).cfg,
            ({
                let window = old(self).window_span();
                let keys = pool::refreshed(old(self).keys(), clock.now);
                let settled = all_settled(keys, clock.now, window);
                &&& final(self).keys() == settled
                &&& r.now@ == clock::instant_text(clock.now, *clock)
                &&& r.keys_total == keys.len()
                &&& r.sums_up(keys, settled, keys.len(), *clock, window)
            }),
    {
        let now = clock.now;
        let window = self.window();
        self.refresh(now);
        let ghost keys = self.keys();
        let ghost settled = all_settled(keys, now, window);
        let n: usize = self.inner.len();
        let mut out = PoolSnapshot {
            now: clock::fmt_instant(now, clock),
            keys_total: n,
            keys_healthy: 0,
            rps_capacity: 0,
            slots_available_now: 0,
            month_limit_total: None,
            month_remaining_total: None,
            month_unlimited_keys: 0,
            totals: Stats::default(),
            keys: Vec::new(),
        };
        proof {
            lemma_settled_totals(keys, settled, n as nat);
        }
        let mut i: usize = 0;
        while i < n
            invariant
                i <= n == self.inner@.len() == keys.len() == settled.len(),
                now == clock.now,
                window == old(self).window_span(),
                window.nanos <= key::WINDOW_MAX,
                self.wf(),
                self.cfg == old(self).cfg,
                settled == all_settled(keys, now, window),
                totals_fit(settled, n as nat),
                forall|j: int| 0 <= j < i ==> #[trigger] self.keys()[j] == settled[j],
                forall|j: int| i <= j < n ==> #[trigger] self.keys()[j] == keys[j],
                out.now@ == clock::instant_text(now, *clock),
                out.keys_total == n,
                out.sums_up(keys, settled, i as nat, *clock, window),
            decreases n - i,
        {
            let ghost before = self.keys();
            assert(self.inner@[i as int]@ == before[i as int]);
            let report = self.inner[i].report(clock, window);
            assert forall|j: int| 0 <= j < n && j != i implies #[trigger] self.keys()[j]
                == before[j] by {}
            assert(self.inner@[i as int]@ == settled[i as int]);
            proof {
                lemma_totals_fit_before(settled, (i + 1) as nat, n as nat);
                lemma_sum_bounds(settled, (i + 1) as nat);
                lemma_sum_bounds(settled, i as nat);
            }
            out.count(&self.inner[i]);
            let ghost old_keys = out.keys@;
            out.keys.push(report);
            assert forall|j: int| 0 <= j < i + 1 implies (#[trigger] out.keys@[j])@ == key_report(
                keys[j],
                *clock,
                window,
            ) by {
                if j < i {
                    assert(out.keys@[j] == old_keys[j]);
                }
            }
            i += 1;
        }
        assert(self.keys() =~= settled);
        out
    }
}

} // verus!
