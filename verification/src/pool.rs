//! The key pool: fair rotation over the keys and what each outcome does to them.
//!
//! Rotation is least-recently-used among eligible keys, which degrades gracefully into plain
//! round-robin when all keys are healthy and spreads load evenly across the pool. A request that
//! finds every key busy waits for the earliest free slot instead of being fired into a certain
//! 429.
//!
//! The pool is a plain value. Callers that share it put it behind a lock and pass in the time.

use vstd::prelude::*;

use crate::clock::{self, Clock, Duration, Instant, CLOCK_MAX, NANOS_PER_SEC};
use crate::key::{self, Health, HealthView, KeyState, KeyView};
use crate::outcome::{self, Outcome, Verdict};

verus! {

/// Brave's burst window, in seconds.
pub const WINDOW: u64 = 1;

/// A key handed out for one request.
#[derive(Debug)]
pub struct Lease {
    pub idx: usize,
    pub token: String,
    pub label: String,
}

/// Why `try_acquire` could not hand out a key right now.
#[derive(Debug)]
pub enum Next {
    /// Some key becomes eligible at this instant.
    At(Instant),
    /// Every key is disabled or exhausted.
    Unavailable { earliest: Option<Instant>, summary: String },
}

/// Why no key could be acquired.
#[allow(inconsistent_fields)]
#[derive(Debug)]
pub enum AcquireError {
    /// All keys are healthy but the per-second budget is spent for longer than the caller can
    /// wait.
    Saturated { retry_after: Duration },
    /// No key is usable at all (all disabled/exhausted).
    Unavailable { retry_after: Option<Duration>, summary: String },
}

#[derive(Debug, Clone)]
pub struct PoolConfig {
    pub window_margin: Duration,
    pub default_rps: u32,
    /// Positional self-imposed monthly cap per key, matching the order of the keys. Missing
    /// entries and entries of `None` fall back to Brave-detected limits.
    pub monthly_limits: Vec<Option<u64>>,
}

/// The keys and how to rotate over them.
pub struct Pool {
    pub inner: Vec<KeyState>,
    pub cfg: PoolConfig,
}

/// The models of the keys.
pub open spec fn key_views(keys: Seq<KeyState>) -> Seq<KeyView> {
    keys.map_values(|k: KeyState| k@)
}

/// The keys with these tokens, none of them used yet.
pub open spec fn fresh_keys(tokens: Seq<Seq<char>>, cfg: PoolConfig) -> Seq<KeyView> {
    Seq::new(
        tokens.len(),
        |i: int|
            KeyView::fresh(
                i as nat,
                tokens[i],
                cfg.default_rps,
                if i < cfg.monthly_limits@.len() {
                    cfg.monthly_limits@[i]
                } else {
                    None
                },
            ),
    )
}

/// The keys once cooldowns that have elapsed at `now` are over.
pub open spec fn refreshed(keys: Seq<KeyView>, now: Instant) -> Seq<KeyView> {
    keys.map_values(|k: KeyView| k.refreshed(now))
}

/// The part of a summary that tells about one key.
pub open spec fn key_summary(k: KeyView, clock: Clock) -> Seq<char> {
    match k.health {
        HealthView::Disabled { until, reason } => k.label + " disabled ("@ + reason + ") until "@
            + clock::instant_text(until, clock),
        HealthView::Exhausted { until } => k.label + " monthly quota exhausted until "@
            + clock::instant_text(until, clock),
        HealthView::Healthy => k.label + " ok"@,
    }
}

/// What a summary tells about the first `n` keys.
pub open spec fn summary_text(keys: Seq<KeyView>, clock: Clock, n: nat) -> Seq<char>
    decreases n,
{
    if n == 0 {
        Seq::empty()
    } else if n == 1 {
        key_summary(keys[0], clock)
    } else {
        summary_text(keys, clock, (n - 1) as nat) + "; "@ + key_summary(keys[n - 1], clock)
    }
}

/// True if a key last used at `l1` with quota `q1` goes before one last used at `l2` with quota
/// `q2`: least recently used first, then the one with most monthly quota left.
pub open spec fn goes_before(l1: Option<Instant>, q1: nat, l2: Option<Instant>, q2: nat) -> bool {
    match (l1, l2) {
        (None, Some(_)) => true,
        (Some(_), None) => false,
        (None, None) => q1 > q2,
        (Some(a), Some(b)) => a.nanos < b.nanos || (a.nanos == b.nanos && q1 > q2),
    }
}

/// `goes_before` on keys.
pub open spec fn key_before(a: KeyView, b: KeyView) -> bool {
    goes_before(a.last_used, a.ranking_quota(), b.last_used, b.ranking_quota())
}

/// What a request asks of the keys.
pub struct Ask {
    /// When it asks.
    pub now: Instant,
    /// The sliding window of every key.
    pub window: Duration,
    /// The keys it has already tried.
    pub exclude: Seq<usize>,
    /// Whether the keys that it has already tried are considered too.
    pub wide: bool,
}

impl Ask {
    /// True if the `i`th key is considered.
    pub open spec fn considers(&self, i: int) -> bool {
        self.wide || !self.exclude.contains(i as usize)
    }

    /// True if the `i`th key is considered and healthy.
    pub open spec fn healthy(&self, keys: Seq<KeyView>, i: int) -> bool {
        self.considers(i) && keys[i].health is Healthy
    }

    /// True if the `i`th key is considered and free.
    pub open spec fn eligible(&self, keys: Seq<KeyView>, i: int) -> bool {
        self.considers(i) && keys[i].free(self.now, self.window)
    }

    /// True if the `i`th key is considered but not free.
    pub open spec fn waiting(&self, keys: Seq<KeyView>, i: int) -> bool {
        self.considers(i) && !keys[i].free(self.now, self.window)
    }

    /// True if one of the first `n` keys is considered and healthy.
    pub open spec fn some_healthy(&self, keys: Seq<KeyView>, n: int) -> bool {
        exists|i: int| 0 <= i < n && #[trigger] self.healthy(keys, i)
    }

    /// True if none of the first `n` keys is considered and free.
    pub open spec fn none_eligible(&self, keys: Seq<KeyView>, n: int) -> bool {
        forall|i: int| 0 <= i < n ==> !(#[trigger] self.eligible(keys, i))
    }

    /// True if the `b`th key is the choice among the first `n`: it is eligible, no eligible key
    /// goes before it, and of those that rank the same it is the first.
    pub open spec fn is_choice(&self, keys: Seq<KeyView>, n: int, b: int) -> bool {
        &&& 0 <= b < n
        &&& self.eligible(keys, b)
        &&& forall|j: int|
            0 <= j < n && j != b && #[trigger] self.eligible(keys, j) ==> key_before(
                keys[b],
                keys[j],
            ) || (!key_before(keys[j], keys[b]) && b < j)
    }

    /// True if `at` is the earliest instant at which one of the considered keys among the first
    /// `n` that are not free may be sent with, and `None` if there is no such key.
    pub open spec fn is_next(&self, keys: Seq<KeyView>, n: int, at: Option<Instant>) -> bool {
        match at {
            Some(t) => {
                &&& exists|i: int|
                    0 <= i < n && #[trigger] self.waiting(keys, i) && keys[i].blocked_until(
                        self.now,
                        self.window,
                    ) == t
                &&& forall|i: int|
                    0 <= i < n && #[trigger] self.waiting(keys, i) ==> t.nanos
                        <= keys[i].blocked_until(self.now, self.window).nanos
            },
            None => forall|i: int| 0 <= i < n ==> !(#[trigger] self.waiting(keys, i)),
        }
    }

    /// The keys, with those among the first `n` that are considered settled.
    pub open spec fn settled(&self, keys: Seq<KeyView>, n: int) -> Seq<KeyView> {
        Seq::new(
            keys.len(),
            |i: int|
                if i < n && self.considers(i) {
                    keys[i].settled(self.now, self.window)
                } else {
                    keys[i]
                },
        )
    }
}

/// Two asks at the same time that consider the same keys come to the same result.
proof fn lemma_same_scope(a: Ask, b: Ask, keys: Seq<KeyView>, n: int)
    requires
        a.now == b.now,
        a.window == b.window,
        forall|i: int| a.considers(i) == b.considers(i),
    ensures
        a.settled(keys, n) == b.settled(keys, n),
        a.none_eligible(keys, n) == b.none_eligible(keys, n),
        a.some_healthy(keys, n) == b.some_healthy(keys, n),
        forall|c: int| a.is_choice(keys, n, c) == #[trigger] b.is_choice(keys, n, c),
        forall|at: Option<Instant>| a.is_next(keys, n, at) == #[trigger] b.is_next(keys, n, at),
{
    assert forall|i: int| true implies a.eligible(keys, i) == b.eligible(keys, i) && a.waiting(
        keys,
        i,
    ) == b.waiting(keys, i) && a.healthy(keys, i) == b.healthy(keys, i) by {}
    assert(a.settled(keys, n) =~= b.settled(keys, n));
    if a.some_healthy(keys, n) {
        let i = choose|i: int| 0 <= i < n && #[trigger] a.healthy(keys, i);
        assert(b.healthy(keys, i));
    }
    if b.some_healthy(keys, n) {
        let i = choose|i: int| 0 <= i < n && #[trigger] b.healthy(keys, i);
        assert(a.healthy(keys, i));
    }
    assert(a.none_eligible(keys, n) == b.none_eligible(keys, n));
}

/// What a request asks that has tried the `exclude`d keys: those are only considered if no other
/// key is healthy.
pub open spec fn scope(
    keys: Seq<KeyView>,
    now: Instant,
    window: Duration,
    exclude: Seq<usize>,
) -> Ask {
    let narrow = Ask { now, window, exclude, wide: false };
    Ask { wide: !narrow.some_healthy(keys, keys.len() as int), ..narrow }
}

/// What an attempt at `now` to acquire a key comes to, and what it leaves behind.
///
/// A key is handed out if one is eligible. It is then the choice among the keys, and the send is
/// recorded with it. Otherwise, if a healthy key was considered, the attempt gives the earliest
/// instant at which a key may be sent with, and if none was, that instant and a summary of all keys.
pub open spec fn attempted(
    before: Seq<KeyView>,
    after: Seq<KeyView>,
    now: Instant,
    window: Duration,
    exclude: Seq<usize>,
    clock: Clock,
    r: Result<Lease, Next>,
) -> bool {
    let keys = refreshed(before, now);
    let n = keys.len() as int;
    let ask = scope(keys, now, window, exclude);
    let settled = ask.settled(keys, n);
    match r {
        Ok(lease) => {
            &&& ask.is_choice(keys, n, lease.idx as int)
            &&& lease.token@ == keys[lease.idx as int].token
            &&& lease.label@ == keys[lease.idx as int].label
            &&& after == settled.update(
                lease.idx as int,
                settled[lease.idx as int].sent(now),
            )
        },
        Err(Next::At(at)) => {
            &&& ask.none_eligible(keys, n)
            &&& ask.some_healthy(keys, n)
            &&& ask.is_next(keys, n, Some(at))
            &&& after == settled
        },
        Err(Next::Unavailable { earliest, summary }) => {
            &&& ask.none_eligible(keys, n)
            &&& !ask.some_healthy(keys, n)
            &&& ask.is_next(keys, n, earliest)
            &&& summary@ == summary_text(keys, clock, keys.len())
            &&& after == settled
        },
    }
}

/// The keys once the outcome of a request sent with the `idx`th is not waited for any more.
pub open spec fn abandoned(keys: Seq<KeyView>, idx: usize) -> Seq<KeyView> {
    if idx < keys.len() {
        keys.update(idx as int, KeyView { probing: false, ..keys[idx as int] })
    } else {
        keys
    }
}

/// What to do after an attempt to acquire a key.
#[derive(Debug)]
pub enum Step {
    /// The key is acquired.
    Granted(Lease),
    /// Wait until this instant and attempt again.
    WaitUntil(Instant),
    /// Give up.
    Failed(AcquireError),
}

/// What to do after an attempt at `now`, for a caller that can wait until `deadline`.
pub open spec fn step_after(attempt: Result<Lease, Next>, now: Instant, deadline: Instant) -> Step {
    match attempt {
        Ok(lease) => Step::Granted(lease),
        Err(Next::At(at)) => if at.nanos > deadline.nanos {
            Step::Failed(AcquireError::Saturated { retry_after: at.since(now) })
        } else {
            Step::WaitUntil(at)
        },
        Err(Next::Unavailable { earliest, summary }) => Step::Failed(
            AcquireError::Unavailable {
                retry_after: match earliest {
                    Some(e) => Some(e.since(now)),
                    None => None,
                },
                summary,
            },
        ),
    }
}

/// Decides what to do after an attempt at `now`, for a caller that can wait until `deadline`.
pub fn decide(attempt: Result<Lease, Next>, now: Instant, deadline: Instant) -> (r: Step)
    ensures
        r == step_after(attempt, now, deadline),
{
    match attempt {
        Ok(lease) => Step::Granted(lease),
        Err(Next::At(at)) => {
            if at.nanos > deadline.nanos {
                Step::Failed(
                    AcquireError::Saturated { retry_after: at.saturating_duration_since(now) },
                )
            } else {
                Step::WaitUntil(at)
            }
        },
        Err(Next::Unavailable { earliest, summary }) => {
            let retry_after = match earliest {
                Some(e) => Some(e.saturating_duration_since(now)),
                None => None,
            };
            Step::Failed(AcquireError::Unavailable { retry_after, summary })
        },
    }
}

impl Pool {
    /// The models of the keys.
    pub open spec fn keys(&self) -> Seq<KeyView> {
        key_views(self.inner@)
    }

    /// The sliding window of every key: Brave's burst window and the margin.
    pub open spec fn window_span(&self) -> Duration {
        Duration { nanos: (WINDOW * NANOS_PER_SEC + self.cfg.window_margin.nanos) as u128 }
    }

    /// What every operation keeps.
    pub open spec fn wf(&self) -> bool {
        &&& forall|i: int| 0 <= i < self.inner@.len() ==> (#[trigger] self.inner@[i]).wf()
        &&& self.cfg.window_margin.nanos <= CLOCK_MAX
    }

    /// True if no key has reached the end of its request counter.
    pub open spec fn can_count_requests(&self) -> bool {
        forall|i: int|
            0 <= i < self.keys().len() ==> (#[trigger] self.keys()[i]).stats.requests < u64::MAX
    }

    /// The sliding window of every key.
    pub(crate) fn window(&self) -> (r: Duration)
        requires
            self.wf(),
        ensures
            r == self.window_span(),
            r.nanos <= key::WINDOW_MAX,
    {
        Duration { nanos: WINDOW as u128 * NANOS_PER_SEC + self.cfg.window_margin.nanos }
    }

    /// A pool of the given keys, none of them used yet.
    pub fn new(keys: &[String], cfg: PoolConfig) -> (r: Self)
        requires
            cfg.window_margin.nanos <= CLOCK_MAX,
        ensures
            r.wf(),
            r.cfg == cfg,
            r.keys() == fresh_keys(keys@.map_values(|k: String| k@), cfg),
    {
        let mut inner: Vec<KeyState> = Vec::new();
        let mut i: usize = 0;
        while i < keys.len()
            invariant
                i <= keys@.len(),
                inner@.len() == i,
                forall|j: int| 0 <= j < i ==> (#[trigger] inner@[j]).wf(),
                forall|j: int|
                    0 <= j < i ==> (#[trigger] inner@[j])@ == KeyView::fresh(
                        j as nat,
                        keys@[j]@,
                        cfg.default_rps,
                        if j < cfg.monthly_limits@.len() {
                            cfg.monthly_limits@[j]
                        } else {
                            None
                        },
                    ),
            decreases keys@.len() - i,
        {
            let cap: Option<u64> = if i < cfg.monthly_limits.len() {
                cfg.monthly_limits[i]
            } else {
                None
            };
            inner.push(KeyState::new(i, keys[i].clone(), cfg.default_rps, cap));
            i += 1;
        }
        let pool = Pool { inner, cfg };
        assert(pool.keys() =~= fresh_keys(keys@.map_values(|k: String| k@), cfg));
        pool
    }

    /// How many keys there are.
    pub fn len(&self) -> (r: usize)
        ensures
            r == self.keys().len(),
    {
        self.inner.len()
    }

    /// Ends the cooldowns that have elapsed at `now`.
    pub(crate) fn refresh(&mut self, now: Instant)
        requires
            old(self).wf(),
        ensures
            final(self).wf(),
            final(self).cfg == old(self).cfg,
            final(self).keys() == refreshed(old(self).keys(), now),
    {
        let ghost keys = self.keys();
        let n: usize = self.inner.len();
        let mut i: usize = 0;
        while i < n
            invariant
                i <= n == self.inner@.len() == keys.len(),
                self.wf(),
                self.cfg == old(self).cfg,
                forall|j: int| 0 <= j < i ==> #[trigger] self.keys()[j] == keys[j].refreshed(now),
                forall|j: int| i <= j < n ==> #[trigger] self.keys()[j] == keys[j],
            decreases n - i,
        {
            let ghost before = self.keys();
            assert(self.inner@[i as int]@ == before[i as int]);
            self.inner[i].refresh(now);
            assert forall|j: int| 0 <= j < n && j != i implies #[trigger] self.keys()[j]
                == before[j] by {}
            i += 1;
        }
        assert(self.keys() =~= refreshed(keys, now));
    }

    fn summary(&self, clock: &Clock) -> (r: String)
        ensures
            r@ == summary_text(self.keys(), *clock, self.keys().len()),
    {
        let mut out = String::new();
        let mut i: usize = 0;
        assert(out@ =~= summary_text(self.keys(), *clock, 0));
        while i < self.inner.len()
            invariant
                i <= self.inner@.len(),
                out@ == summary_text(self.keys(), *clock, i as nat),
            decreases self.inner@.len() - i,
        {
            let ghost before = out@;
            if i > 0 {
                out.append("; ");
            }
            let ghost lead = out@;
            let k = &self.inner[i];
            out.append(k.label.as_str());
            match &k.health {
                Health::Disabled { until, reason } => {
                    out.append(" disabled (");
                    out.append(reason.as_str());
                    out.append(") until ");
                    out.append(clock::fmt_instant(*until, clock).as_str());
                },
                Health::Exhausted { until } => {
                    out.append(" monthly quota exhausted until ");
                    out.append(clock::fmt_instant(*until, clock).as_str());
                },
                Health::Healthy => {
                    out.append(" ok");
                },
            }
            proof {
                let part = key_summary(self.keys()[i as int], *clock);
                assert(out@ =~= lead + part);
                if i == 0 {
                    assert(out@ =~= part);
                }
            }
            i += 1;
        }
        out
    }

    /// Non-blocking selection at `now`. Reserves the slot (records the send) on success.
    ///
    /// `exclude` lists keys already tried for this request; they are only considered if no
    /// other key could ever serve it. `clock` dates the summary.
    pub fn try_acquire(&mut self, now: Instant, exclude: &[usize], clock: &Clock) -> (r: Result<
        Lease,
        Next,
    >)
        requires
            old(self).wf(),
            now.in_range(),
            old(self).can_count_requests(),
        ensures
            final(self).wf(),
            final(self).cfg == old(self).cfg,
            attempted(
                old(self).keys(),
                final(self).keys(),
                now,
                old(self).window_span(),
                exclude@,
                *clock,
                r,
            ),
    {
        let ghost window = self.window_span();
        self.refresh(now);
        let ghost keys = self.keys();
        let ghost n = keys.len() as int;
        let ghost narrow = Ask { now, window, exclude: exclude@, wide: false };
        let ghost ask = scope(keys, now, window, exclude@);
        let mut result = self.pick(now, exclude, false);
        if result.0.is_none() && exclude.len() > 0 && !result.2 {
            // Only excluded keys could serve this: allow them again (e.g. single-key pools).
            assert(self.keys() =~= keys) by {
                assert forall|i: int| 0 <= i < n implies narrow.settled(keys, n)[i] == keys[i] by {
                    if narrow.considers(i) {
                        assert(!narrow.healthy(keys, i));
                    }
                }
            }
            result = self.pick(now, exclude, true);
        } else if !result.2 {
            proof {
                if let Some(b) = result.0 {
                    assert(narrow.healthy(keys, b as int));
                }
                lemma_same_scope(narrow, ask, keys, n);
            }
        }
        match result.0 {
            Some(i) => {
                let ghost picked = self.keys();
                assert(self.inner@[i as int]@ == picked[i as int]);
                self.inner[i].send(now);
                assert(self.keys() =~= picked.update(i as int, picked[i as int].sent(now)));
                let k = &self.inner[i];
                Ok(Lease { idx: i, token: k.token.clone(), label: k.label.clone() })
            },
            None => if result.2 {
                proof {
                    let i = choose|i: int| 0 <= i < n && #[trigger] ask.healthy(keys, i);
                    assert(!ask.eligible(keys, i));
                    assert(ask.waiting(keys, i));
                }
                Err(Next::At(result.1.unwrap_or(now)))
            } else {
                assert(self.keys() =~= keys) by {
                    assert forall|i: int| 0 <= i < n implies ask.settled(keys, n)[i] == keys[i] by {
                        if ask.considers(i) {
                            assert(!ask.healthy(keys, i));
                        }
                    }
                }
                let summary = self.summary(clock);
                Err(Next::Unavailable { earliest: result.1, summary })
            },
        }
    }

    /// One attempt at `now` to acquire a key, for a caller that can wait until `deadline`, and
    /// what to do after it. Callers that are told to wait come back at that instant.
    pub fn acquire(&mut self, now: Instant, deadline: Instant, exclude: &[usize], clock: &Clock)
        -> (r: Step)
        requires
            old(self).wf(),
            now.in_range(),
            old(self).can_count_requests(),
        ensures
            final(self).wf(),
            final(self).cfg == old(self).cfg,
            exists|attempt: Result<Lease, Next>| #[trigger]
                attempted(
                    old(self).keys(),
                    final(self).keys(),
                    now,
                    old(self).window_span(),
                    exclude@,
                    *clock,
                    attempt,
                ) && r == step_after(attempt, now, deadline),
    {
        let attempt = self.try_acquire(now, exclude, clock);
        decide(attempt, now, deadline)
    }

    /// Digests the result of a request sent with the `idx`th key and decides what the caller
    /// should do.
    pub fn record(&mut self, now: Instant, idx: usize, outcome: Outcome<'_>) -> (r: Verdict)
        requires
            old(self).wf(),
            now.in_range(),
            idx < old(self).keys().len() ==> outcome::countable(
                old(self).keys()[idx as int],
                outcome@,
            ),
        ensures
            final(self).wf(),
            final(self).cfg == old(self).cfg,
            idx < old(self).keys().len() ==> final(self).keys() == old(self).keys().update(
                idx as int,
                outcome::digested(old(self).keys()[idx as int], now, outcome@),
            ) && r == outcome::verdict_of(outcome@),
            idx >= old(self).keys().len() ==> *final(self) == *old(self) && r
                == Verdict::ReturnToClient,
    {
        if idx >= self.inner.len() {
            return Verdict::ReturnToClient;
        }
        let ghost keys = self.keys();
        let ghost o = outcome@;
        assert(self.inner@[idx as int]@ == keys[idx as int]);
        let verdict = self.inner[idx].digest(now, outcome);
        assert(self.keys() =~= keys.update(
            idx as int,
            outcome::digested(keys[idx as int], now, o),
        ));
        verdict
    }

    /// Gives up on the outcome of a request sent with the `idx`th key, which is then not waited
    /// for any more.
    pub fn abandon(&mut self, idx: usize)
        requires
            old(self).wf(),
        ensures
            final(self).wf(),
            final(self).cfg == old(self).cfg,
            final(self).keys() == abandoned(old(self).keys(), idx),
    {
        let ghost keys = self.keys();
        if idx < self.inner.len() {
            assert(self.inner@[idx as int]@ == keys[idx as int]);
            self.inner[idx].probing = false;
            assert(self.inner@[idx as int]@ == (KeyView { probing: false, ..keys[idx as int] }));
        }
        assert(self.keys() =~= abandoned(keys, idx));
    }

    /// True if no key has reached the end of its request counter.
    pub fn has_request_room(&self) -> (r: bool)
        ensures
            r == self.can_count_requests(),
    {
        let mut i: usize = 0;
        while i < self.inner.len()
            invariant
                i <= self.inner@.len(),
                forall|j: int|
                    0 <= j < i ==> (#[trigger] self.keys()[j]).stats.requests < u64::MAX,
            decreases self.inner@.len() - i,
        {
            if self.inner[i].stats.requests == u64::MAX {
                assert(self.keys()[i as int].stats.requests == u64::MAX);
                return false;
            }
            i += 1;
        }
        true
    }

    /// True if the `idx`th key, if there is one, has not reached the end of a counter that the
    /// outcome moves.
    pub fn has_outcome_room(&self, idx: usize, outcome: &Outcome<'_>) -> (r: bool)
        ensures
            r == (idx < self.keys().len() ==> outcome::countable(
                self.keys()[idx as int],
                outcome@,
            )),
    {
        if idx >= self.inner.len() {
            return true;
        }
        let k = &self.inner[idx];
        assert(k@ == self.keys()[idx as int]);
        match outcome {
            Outcome::Transport(_) => k.stats.transport_errors < u64::MAX,
            Outcome::Response { status, .. } => {
                let s: u16 = *status;
                if 200 <= s && s <= 299 {
                    k.stats.ok < u64::MAX
                } else if s == 429 {
                    k.stats.upstream_429 < u64::MAX && k.consecutive_429 < u32::MAX
                } else if 400 <= s && s <= 499 {
                    k.stats.client_4xx < u64::MAX
                } else if 500 <= s && s <= 599 {
                    k.stats.server_5xx < u64::MAX
                } else {
                    true
                }
            },
        }
    }

    /// One round over the keys: the best eligible one, the earliest time any considered key is
    /// free, and whether a healthy key was seen.
    fn pick(&mut self, now: Instant, exclude: &[usize], wide: bool) -> (r: (
        Option<usize>,
        Option<Instant>,
        bool,
    ))
        requires
            old(self).wf(),
        ensures
            final(self).wf(),
            final(self).cfg == old(self).cfg,
            final(self).inner@.len() == old(self).inner@.len(),
            ({
                let ask = Ask { now, window: old(self).window_span(), exclude: exclude@, wide };
                let keys = old(self).keys();
                let n = keys.len() as int;
                &&& final(self).keys() == ask.settled(keys, n)
                &&& match r.0 {
                    Some(b) => ask.is_choice(keys, n, b as int),
                    None => ask.none_eligible(keys, n),
                }
                &&& ask.is_next(keys, n, r.1)
                &&& r.2 == ask.some_healthy(keys, n)
            }),
    {
        let window = self.window();
        let n: usize = self.inner.len();
        let ghost keys = self.keys();
        let ghost ask = Ask { now, window, exclude: exclude@, wide };
        let mut best: Option<(usize, Option<Instant>, u64)> = None;
        let mut next: Option<Instant> = None;
        let mut any_healthy = false;
        let mut i: usize = 0;
        assert(self.keys() =~= ask.settled(keys, 0));
        while i < n
            invariant
                i <= n == self.inner@.len() == keys.len(),
                window.nanos <= key::WINDOW_MAX,
                ask == (Ask { now, window, exclude: exclude@, wide }),
                self.wf(),
                self.cfg == old(self).cfg,
                self.keys() == ask.settled(keys, i as int),
                match best {
                    Some(b) => {
                        &&& ask.is_choice(keys, i as int, b.0 as int)
                        &&& b.1 == keys[b.0 as int].last_used
                        &&& b.2 == keys[b.0 as int].ranking_quota()
                    },
                    None => ask.none_eligible(keys, i as int),
                },
                ask.is_next(keys, i as int, next),
                any_healthy == ask.some_healthy(keys, i as int),
            decreases n - i,
        {
            let ghost before = self.keys();
            assert(before[i as int] == keys[i as int]);
            assert(self.inner@[i as int]@ == keys[i as int]);
            if !wide && contains(exclude, i) {
                assert(!ask.considers(i as int));
                assert(ask.settled(keys, i as int + 1) =~= before);
                i += 1;
                continue;
            }
            assert(ask.considers(i as int));
            if self.inner[i].is_healthy() {
                any_healthy = true;
                assert(ask.healthy(keys, i as int));
            }
            let avail = self.inner[i].availability(now, window);
            proof {
                let done = ask.settled(keys, i as int + 1);
                assert forall|j: int| 0 <= j < keys.len() implies self.keys()[j] == done[j] by {
                    if j != i {
                        assert(self.keys()[j] == before[j]);
                    }
                }
                assert(self.keys() =~= done);
            }
            match avail {
                Ok(()) => {
                    assert(ask.eligible(keys, i as int));
                    let last: Option<Instant> = self.inner[i].last_used;
                    let quota: u64 = self.inner[i].month_remaining_for_ranking();
                    let better = match &best {
                        None => true,
                        Some(b) => before_in_rotation(last, quota, b.1, b.2),
                    };
                    if better {
                        best = Some((i, last, quota));
                    }
                },
                Err(at) => {
                    assert(ask.waiting(keys, i as int));
                    next = match next {
                        Some(t) => if t.nanos <= at.nanos {
                            Some(t)
                        } else {
                            Some(at)
                        },
                        None => Some(at),
                    };
                },
            }
            i += 1;
        }
        (
            match best {
                Some(b) => Some(b.0),
                None => None,
            },
            next,
            any_healthy,
        )
    }
}

/// True if `list` holds `x`.
fn contains(list: &[usize], x: usize) -> (r: bool)
    ensures
        r == list@.contains(x),
{
    let mut i: usize = 0;
    while i < list.len()
        invariant
            i <= list@.len(),
            forall|j: int| 0 <= j < i ==> list@[j] != x,
        decreases list@.len() - i,
    {
        if list[i] == x {
            return true;
        }
        i += 1;
    }
    false
}

/// True if a key last used at `l1` with quota `q1` goes before one last used at `l2` with quota
/// `q2`.
fn before_in_rotation(l1: Option<Instant>, q1: u64, l2: Option<Instant>, q2: u64) -> (r: bool)
    ensures
        r == goes_before(l1, q1 as nat, l2, q2 as nat),
{
    match (l1, l2) {
        (None, Some(_)) => true,
        (Some(_), None) => false,
        (None, None) => q1 > q2,
        (Some(a), Some(b)) => a.nanos < b.nanos || (a.nanos == b.nanos && q1 > q2),
    }
}

} // verus!
