//! What holds of an attempt to acquire a key, and of what a pool reports.

use vstd::prelude::*;

use crate::clock::{self, Clock, Duration, Instant};
use crate::exchange;
use crate::key::{self, HealthView, KeyView};
use crate::key_laws::{same_key, same_plan, same_record, same_sends};
use crate::outcome::{digested, OutcomeView};
use crate::pool::{
    self, abandoned, attempted, fresh_keys, refreshed, scope, step_after, AcquireError, Ask, Lease,
    Next, Pool, PoolConfig, Step,
};
use crate::snapshot::{key_report, known_sum, state_of, sum};

verus! {

/// A lease is of one of the keys, with its token and its label, and that key was free. The send is
/// recorded with it, and no other key is sent with: what is known of its uses, plan, failures and
/// successes stays. Beyond that, cooldowns end and keys are settled, and nothing happens.
pub proof fn law_leases_are_of_free_keys(
    before: Seq<KeyView>,
    after: Seq<KeyView>,
    now: Instant,
    window: Duration,
    exclude: Seq<usize>,
    clock: Clock,
    lease: Lease,
    other: int,
)
    requires
        attempted(before, after, now, window, exclude, clock, Ok::<Lease, Next>(lease)),
        0 <= other < before.len(),
        other != lease.idx,
    ensures
        after.len() == before.len(),
        lease.idx < before.len(),
        ({
            let b = before[lease.idx as int];
            let a = after[lease.idx as int];
            &&& b.refreshed(now).free(now, window)
            &&& lease.token@ == b.token
            &&& lease.label@ == b.label
            &&& a.last_used == Some(now)
            &&& a.sends.len() > 0 && a.sends.last() == now
            &&& a.health is Healthy
            &&& a.probing <==> b.disable_strikes > 0
            &&& b.stats.requests < u64::MAX ==> a.stats.requests == b.stats.requests + 1
            &&& same_record(a, b)
            &&& same_key(a, b)
            &&& a == b.refreshed(now).settled(now, window).sent(now)
        }),
        after[other] == before[other].refreshed(now) || after[other] == before[other].refreshed(
            now,
        ).settled(now, window),
        after[other].health == before[other].refreshed(now).health,
        after[other].last_used == before[other].last_used,
        after[other].last_ok == before[other].last_ok,
        after[other].probing == before[other].probing,
        after[other].stats == before[other].stats,
        after[other].sends.len() <= before[other].sends.len(),
        same_plan(after[other], before[other].refreshed(now)),
        same_record(after[other], before[other]),
        same_key(after[other], before[other]),
{
    let keys = refreshed(before, now);
    let ask = scope(keys, now, window, exclude);
    assert(ask.eligible(keys, lease.idx as int));
    assert(keys[lease.idx as int] == before[lease.idx as int].refreshed(now));
    assert(keys[other] == before[other].refreshed(now));
    key::lemma_live_sends(keys[other].sends, now, window);
}

/// A request that finds a free key that it has not tried gets a key. If none of those that it has
/// not tried is healthy, any free key will do.
pub proof fn law_free_keys_are_handed_out(
    before: Seq<KeyView>,
    after: Seq<KeyView>,
    now: Instant,
    window: Duration,
    exclude: Seq<usize>,
    clock: Clock,
    r: Result<Lease, Next>,
    i: int,
)
    requires
        attempted(before, after, now, window, exclude, clock, r),
        0 <= i < before.len(),
        before[i].refreshed(now).free(now, window),
        !exclude.contains(i as usize) || forall|j: int|
            0 <= j < before.len() && !exclude.contains(j as usize) ==> !((
            #[trigger] before[j]).refreshed(now).health is Healthy),
    ensures
        r is Ok,
{
    let keys = refreshed(before, now);
    let narrow = Ask { now, window, exclude, wide: false };
    let ask = scope(keys, now, window, exclude);
    assert(keys[i] == before[i].refreshed(now));
    if exclude.contains(i as usize) {
        assert forall|j: int| 0 <= j < keys.len() implies !(#[trigger] narrow.healthy(keys, j)) by {
            assert(keys[j] == before[j].refreshed(now));
        }
    }
    assert(ask.eligible(keys, i));
}

/// An attempt that fails sends nothing, and says why: there is nothing to wait for exactly if no
/// key at all is healthy. It then tells about all keys.
pub proof fn law_failed_attempts_say_why(
    before: Seq<KeyView>,
    after: Seq<KeyView>,
    now: Instant,
    window: Duration,
    exclude: Seq<usize>,
    clock: Clock,
    failure: Next,
    i: int,
)
    requires
        attempted(before, after, now, window, exclude, clock, Err::<Lease, Next>(failure)),
        0 <= i < before.len(),
    ensures
        after.len() == before.len(),
        after[i].last_used == before[i].last_used,
        after[i].stats == before[i].stats,
        after[i].health == before[i].refreshed(now).health,
        after[i] == before[i].refreshed(now) || after[i] == before[i].refreshed(now).settled(
            now,
            window,
        ),
        match failure {
            Next::At(_) => exists|j: int|
                0 <= j < before.len() && (#[trigger] before[j]).refreshed(now).health is Healthy,
            Next::Unavailable { earliest, .. } => !(before[i].refreshed(now).health is Healthy)
                && earliest is Some,
        },
{
    let keys = refreshed(before, now);
    let narrow = Ask { now, window, exclude, wide: false };
    let ask = scope(keys, now, window, exclude);
    assert(keys[i] == before[i].refreshed(now));
    match failure {
        Next::At(_) => {
            let j = choose|j: int| 0 <= j < keys.len() && #[trigger] ask.healthy(keys, j);
            assert(keys[j] == before[j].refreshed(now));
            assert(before[j].refreshed(now).health is Healthy);
        },
        Next::Unavailable { .. } => {
            if !ask.wide {
                let j = choose|j: int| 0 <= j < keys.len() && #[trigger] narrow.healthy(keys, j);
                assert(ask.healthy(keys, j));
            }
            assert(!ask.healthy(keys, i));
            assert(!ask.eligible(keys, i));
            assert(ask.waiting(keys, i));
        },
    }
}

/// Of the eligible keys that were last used at the same time, the one with the most quota left is
/// chosen, and of those with the same quota the first.
pub proof fn law_ties_go_to_the_most_quota(
    ask: Ask,
    keys: Seq<KeyView>,
    chosen: int,
    other: int,
)
    requires
        ask.is_choice(keys, keys.len() as int, chosen),
        0 <= other < keys.len(),
        ask.eligible(keys, other),
        keys[chosen].last_used == keys[other].last_used,
    ensures
        keys[chosen].ranking_quota() >= keys[other].ranking_quota(),
        keys[chosen].ranking_quota() == keys[other].ranking_quota() ==> chosen <= other,
{
}

/// A caller gets the key if one is handed out. Otherwise it waits if the time comes before its
/// deadline has passed, and is told how long it would take if not.
pub proof fn law_waits_end_by_the_deadline(
    attempt: Result<Lease, Next>,
    now: Instant,
    deadline: Instant,
)
    ensures
        match (attempt, step_after(attempt, now, deadline)) {
            (Ok(lease), Step::Granted(got)) => got == lease,
            (Err(Next::At(at)), Step::WaitUntil(t)) => t == at && at.nanos <= deadline.nanos,
            (
                Err(Next::At(at)),
                Step::Failed(AcquireError::Saturated { retry_after }),
            ) => {
                &&& at.nanos > deadline.nanos
                &&& now.nanos <= at.nanos ==> now.nanos + retry_after.nanos == at.nanos
                &&& now.nanos > at.nanos ==> retry_after.nanos == 0
            },
            (
                Err(Next::Unavailable { earliest, summary }),
                Step::Failed(AcquireError::Unavailable { retry_after, summary: told }),
            ) => {
                &&& told == summary
                &&& earliest is Some <==> retry_after is Some
                &&& earliest matches Some(at) ==> (now.nanos <= at.nanos ==> now.nanos
                    + retry_after->0.nanos == at.nanos)
                &&& earliest matches Some(at) ==> (now.nanos > at.nanos ==> retry_after->0.nanos
                    == 0)
            },
            _ => false,
        },
{
}

/// Giving up on an outcome ends the probe of that key, if one is out, and does nothing else.
pub proof fn law_given_up_probes_end(keys: Seq<KeyView>, idx: usize, i: int)
    requires
        0 <= i < keys.len(),
    ensures
        ({
            let after = abandoned(keys, idx);
            &&& after.len() == keys.len()
            &&& i != idx ==> after[i] == keys[i]
            &&& i == idx ==> {
                &&& !after[i].probing
                &&& after[i].health == keys[i].health
                &&& after[i].hold_until == keys[i].hold_until
                &&& after[i].last_ok == keys[i].last_ok
                &&& after[i].cycle_ok == keys[i].cycle_ok
                &&& after[i].stats == keys[i].stats
                &&& same_sends(after[i], keys[i])
                &&& same_plan(after[i], keys[i])
                &&& same_record(after[i], keys[i])
                &&& same_key(after[i], keys[i])
            }
        }),
{
}

/// Recording an outcome with one key leaves all others alone.
pub proof fn law_outcomes_stay_with_their_key(
    before: Pool,
    after: Pool,
    now: Instant,
    idx: usize,
    o: OutcomeView,
    i: int,
)
    requires
        exchange::learned(before, after, now, idx, o),
        0 <= i < before.keys().len(),
    ensures
        after.keys().len() == before.keys().len(),
        i != idx ==> after.keys()[i] == before.keys()[i],
        i == idx ==> after.keys()[i] == digested(before.keys()[i], now, o),
{
}

/// The window is one second and the margin.
pub proof fn law_windows_have_a_margin(p: Pool)
    requires
        p.wf(),
    ensures
        p.window_span().nanos == 1_000_000_000 + p.cfg.window_margin.nanos,
{
}

/// A summary tells about each key in turn: its label, and whether it is well, or why not and until
/// when.
pub proof fn law_summaries_tell_about_every_key(keys: Seq<KeyView>, clock: Clock, k: KeyView)
    ensures
        pool::summary_text(keys.push(k), clock, keys.len() + 1) == if keys.len() == 0 {
            pool::key_summary(k, clock)
        } else {
            pool::summary_text(keys, clock, keys.len()) + "; "@ + pool::key_summary(k, clock)
        },
        pool::summary_text(keys, clock, 0).len() == 0,
        k.label.is_prefix_of(pool::key_summary(k, clock)),
        ({
            let told = pool::key_summary(k, clock).skip(k.label.len() as int);
            match k.health {
                HealthView::Healthy => told == " ok"@,
                HealthView::Disabled { until, reason } => told == " disabled ("@ + reason
                    + ") until "@ + clock::instant_text(until, clock),
                HealthView::Exhausted { until } => told == " monthly quota exhausted until "@
                    + clock::instant_text(until, clock),
            }
        }),
{
    let grown = keys.push(k);
    lemma_summary_of_the_first(keys, grown, clock, keys.len());
    assert(grown[keys.len() as int] == k);
    let text = pool::key_summary(k, clock);
    assert(text.take(k.label.len() as int) =~= k.label);
    let told = text.skip(k.label.len() as int);
    match k.health {
        HealthView::Healthy => {
            assert(told =~= " ok"@);
        },
        HealthView::Disabled { until, reason } => {
            assert(told =~= " disabled ("@ + reason + ") until "@ + clock::instant_text(
                until,
                clock,
            ));
        },
        HealthView::Exhausted { until } => {
            assert(told =~= " monthly quota exhausted until "@ + clock::instant_text(until, clock));
        },
    }
}

proof fn lemma_summary_of_the_first(a: Seq<KeyView>, b: Seq<KeyView>, clock: Clock, n: nat)
    requires
        n <= a.len(),
        n <= b.len(),
        forall|i: int| 0 <= i < n ==> a[i] == b[i],
    ensures
        pool::summary_text(a, clock, n) == pool::summary_text(b, clock, n),
    decreases n,
{
    if n > 0 {
        lemma_summary_of_the_first(a, b, clock, (n - 1) as nat);
    }
}

/// A sum is over every one of the keys, once.
pub proof fn law_sums_are_over_all<A>(keys: Seq<A>, f: spec_fn(A) -> nat, k: A)
    ensures
        sum(Seq::<A>::empty(), f, 0) == 0,
        sum(keys.push(k), f, keys.len() + 1) == sum(keys, f, keys.len()) + f(k),
{
    lemma_sum_of_the_first(keys, keys.push(k), f, keys.len());
    assert(keys.push(k)[keys.len() as int] == k);
}

proof fn lemma_sum_of_the_first<A>(a: Seq<A>, b: Seq<A>, f: spec_fn(A) -> nat, n: nat)
    requires
        n <= a.len(),
        n <= b.len(),
        forall|i: int| 0 <= i < n ==> a[i] == b[i],
    ensures
        sum(a, f, n) == sum(b, f, n),
    decreases n,
{
    if n > 0 {
        lemma_sum_of_the_first(a, b, f, (n - 1) as nat);
    }
}

/// A sum of what is known leaves out the keys of which it is not known, and is itself not known
/// only if it is known of none.
pub proof fn law_known_sums_are_over_the_known<A>(
    keys: Seq<A>,
    f: spec_fn(A) -> Option<u64>,
    k: A,
)
    ensures
        known_sum(Seq::<A>::empty(), f, 0) is None,
        ({
            let all = known_sum(keys.push(k), f, keys.len() + 1);
            let rest = known_sum(keys, f, keys.len());
            &&& f(k) is None ==> all == rest
            &&& f(k) matches Some(v) ==> (rest is None ==> all == Some(v as nat))
            &&& f(k) matches Some(v) ==> (rest matches Some(t) ==> all == Some(t + v as nat))
        }),
{
    lemma_known_sum_of_the_first(keys, keys.push(k), f, keys.len());
    assert(keys.push(k)[keys.len() as int] == k);
}

proof fn lemma_known_sum_of_the_first<A>(
    a: Seq<A>,
    b: Seq<A>,
    f: spec_fn(A) -> Option<u64>,
    n: nat,
)
    requires
        n <= a.len(),
        n <= b.len(),
        forall|i: int| 0 <= i < n ==> a[i] == b[i],
    ensures
        known_sum(a, f, n) == known_sum(b, f, n),
    decreases n,
{
    if n > 0 {
        lemma_known_sum_of_the_first(a, b, f, (n - 1) as nat);
    }
}

/// A report shows the state that the key is in: free keys are "ok", healthy ones that are not free
/// "cooling" while a hold lasts and "busy" otherwise, and the rest "disabled" or "exhausted". All
/// but the free ones are reported with the time until which that lasts.
pub proof fn law_reports_show_the_state(k: KeyView, now: Instant, window: Duration)
    ensures
        ({
            let (state, reason, until) = state_of(k, now, window);
            let held = k.hold_until matches Some(h) && h.nanos > now.nanos;
            match k.health {
                HealthView::Disabled { until: end, reason: why } => state == "disabled"@ && reason
                    == Some(why) && until == Some(end),
                HealthView::Exhausted { until: end } => state == "exhausted"@ && reason == Some(
                    "monthly quota used up"@,
                ) && until == Some(end),
                HealthView::Healthy => {
                    &&& k.free(now, window) ==> state == "ok"@ && reason is None && until is None
                    &&& held ==> state == "cooling"@ && reason == Some(
                        "upstream asked us to slow down"@,
                    ) && until == k.hold_until
                    &&& !held && !k.free(now, window) ==> state == "busy"@ && reason is None
                        && until == Some(k.blocked_until(now, window))
                },
            }
        }),
{
}

/// A report shows the figures of the key as they are. Times to come are counted from now, and
/// times past until now. A plan without a monthly cap has no monthly figures.
pub proof fn law_reports_show_the_key(k: KeyView, clock: Clock, window: Duration)
    ensures
        ({
            let r = key_report(k, clock, window);
            let now = clock.now;
            let (state, reason, until) = state_of(k, now, window);
            &&& r.key == k.label
            &&& r.state == state
            &&& r.reason == reason
            &&& r.until is Some <==> until is Some
            &&& until matches Some(t) ==> r.until == Some(clock::instant_text(t, clock))
                && r.until_in == Some(clock::dur_text(t.since(now)))
            &&& r.until_in is Some <==> until is Some
            &&& r.disabled_since is Some <==> k.disabled_since is Some
            &&& k.disabled_since matches Some(t) ==> r.disabled_since == Some(
                clock::instant_text(t, clock),
            )
            &&& r.per_second.limit == k.sec_limit
            &&& r.per_second.limits_learned == k.limits_learned
            &&& k.free(now, window) ==> r.per_second.next_slot_in_ms == 0
            &&& !k.free(now, window) && k.blocked_until(now, window).nanos <= now.nanos
                ==> r.per_second.next_slot_in_ms == 0
            &&& !k.free(now, window) && now.nanos <= k.blocked_until(now, window).nanos < now.nanos
                + u64::MAX ==> {
                let ms = r.per_second.next_slot_in_ms;
                now.nanos + ms * 1_000_000 <= k.blocked_until(now, window).nanos < now.nanos + (ms
                    + 1) * 1_000_000
            }
            &&& k.wf() ==> r.per_second.in_window == k.settled(now, window).sends.len()
            &&& r.monthly.unlimited == k.unlimited()
            &&& k.unlimited() ==> r.monthly.limit is None && r.monthly.remaining is None
            &&& !k.unlimited() ==> r.monthly.limit == k.month_limit && r.monthly.remaining
                == k.month_remaining
            &&& r.monthly.reset_at is Some <==> k.month_reset_at is Some
            &&& r.monthly.reset_in is Some <==> k.month_reset_at is Some
            &&& k.month_reset_at matches Some(t) ==> r.monthly.reset_at == Some(
                clock::instant_text(t, clock),
            ) && r.monthly.reset_in == Some(clock::dur_text(t.since(now)))
            &&& r.last_used_ago is Some <==> k.last_used is Some
            &&& k.last_used matches Some(t) ==> r.last_used_ago == Some(
                clock::dur_text(now.since(t)),
            )
            &&& r.last_ok_ago is Some <==> k.last_ok is Some
            &&& k.last_ok matches Some(t) ==> r.last_ok_ago == Some(clock::dur_text(now.since(t)))
            &&& r.stats == k.stats
        }),
{
    key::lemma_live_sends(k.sends, clock.now, window);
}

/// A pool starts with the keys in the order given, none of them used yet. Each has the cap at its
/// position, if there is one.
pub proof fn law_pools_start_fresh(tokens: Seq<Seq<char>>, cfg: PoolConfig, i: int)
    requires
        0 <= i < tokens.len(),
    ensures
        ({
            let keys = fresh_keys(tokens, cfg);
            let k = keys[i];
            &&& keys.len() == tokens.len()
            &&& k.token == tokens[i]
            &&& k.label == key::label_of(i as nat, tokens[i])
            &&& k.health is Healthy
            &&& k.last_used is None && k.sends.len() == 0 && k.stats.requests == 0
            &&& cfg.default_rps >= 1 ==> k.sec_limit == cfg.default_rps
            &&& i < cfg.monthly_limits@.len() ==> k.monthly_cap_override == cfg.monthly_limits@[i]
            &&& i >= cfg.monthly_limits@.len() ==> k.monthly_cap_override is None
        }),
{
}

} // verus!
