//! What holds of the pool as a whole.

use vstd::prelude::*;

use crate::clock::{Clock, Duration, Instant};
use crate::key::{self, backoff_secs, doublings, expired, latest, live_sends, HealthView, KeyView};
use crate::outcome::{self, digested, OutcomeView};
use crate::pool::{self, attempted, refreshed, scope, Ask, Lease, Next};
use crate::ratelimit::RateLimitInfo;
use crate::snapshot::{self, KeySnapshot, KeySnapshotView, PoolSnapshot};

verus! {

/// The sends among `history` that still count at `now`.
pub open spec fn counting(history: Seq<Instant>, now: Instant, window: Duration) -> Seq<Instant> {
    history.filter(|t: Instant| !expired(t, now, window))
}

/// True if a key remembers its sends well enough: `history` holds every send ever made with it,
/// none after `last`, and what the key has forgotten of them had expired by `last`.
pub open spec fn remembers(
    k: KeyView,
    history: Seq<Instant>,
    last: Instant,
    window: Duration,
) -> bool {
    let forgotten = history.len() - k.sends.len();
    &&& 0 <= forgotten
    &&& k.sends == history.skip(forgotten)
    &&& forall|i: int| 0 <= i < forgotten ==> expired(#[trigger] history[i], last, window)
    &&& forall|i: int| 0 <= i < history.len() ==> (#[trigger] history[i]).nanos <= last.nanos
}

pub(crate) proof fn lemma_expired_stays(t: Instant, now: Instant, later: Instant, window: Duration)
    requires
        now.nanos <= later.nanos,
        expired(t, now, window),
    ensures
        expired(t, later, window),
{
}

proof fn lemma_counting_bound(
    history: Seq<Instant>,
    gone: int,
    now: Instant,
    window: Duration,
)
    requires
        0 <= gone <= history.len(),
        forall|i: int| 0 <= i < gone ==> expired(#[trigger] history[i], now, window),
    ensures
        counting(history, now, window).len() <= history.len() - gone,
    decreases history.len(),
{
    let p = |t: Instant| !expired(t, now, window);
    reveal(Seq::filter);
    if history.len() > 0 {
        let init = history.drop_last();
        if gone == history.len() {
            assert(expired(history[history.len() - 1], now, window));
            assert forall|i: int| 0 <= i < gone - 1 implies expired(
                #[trigger] init[i],
                now,
                window,
            ) by {
                assert(init[i] == history[i]);
            }
            lemma_counting_bound(init, gone - 1, now, window);
        } else {
            assert forall|i: int| 0 <= i < gone implies expired(#[trigger] init[i], now, window) by {
                assert(init[i] == history[i]);
            }
            lemma_counting_bound(init, gone, now, window);
        }
    }
}

/// Settling a key forgets only sends that have expired.
pub proof fn law_settling_forgets_only_expired_sends(
    k: KeyView,
    history: Seq<Instant>,
    last: Instant,
    now: Instant,
    window: Duration,
)
    requires
        remembers(k, history, last, window),
        last.nanos <= now.nanos,
    ensures
        remembers(k.settled(now, window), history, now, window),
{
    let old_gone = history.len() - k.sends.len();
    key::lemma_live_sends(k.sends, now, window);
    let s = k.settled(now, window);
    let gone = history.len() - s.sends.len();
    assert forall|i: int| 0 <= i < gone implies expired(#[trigger] history[i], now, window) by {
        if i < old_gone {
            lemma_expired_stays(history[i], last, now, window);
        } else {
            assert(history[i] == k.sends[i - old_gone]);
        }
    }
    assert(s.sends =~= history.skip(gone));
}

/// A key never sends more than its plan allows inside one window: if a key that remembers its
/// sends is free and one more request is sent with it, then the sends that count at that moment,
/// this one among them, are at most the requests/second of the plan. And the key goes on
/// remembering.
pub proof fn law_sends_stay_inside_the_plan(
    k: KeyView,
    history: Seq<Instant>,
    last: Instant,
    now: Instant,
    window: Duration,
)
    requires
        remembers(k, history, last, window),
        last.nanos <= now.nanos,
        k.free(now, window),
    ensures
        counting(history.push(now), now, window).len() <= k.burst(),
        remembers(k.settled(now, window).sent(now), history.push(now), now, window),
{
    law_settling_forgets_only_expired_sends(k, history, last, now, window);
    let s = k.settled(now, window);
    let grown = history.push(now);
    let gone = history.len() - s.sends.len();
    assert forall|i: int| 0 <= i < gone implies expired(#[trigger] grown[i], now, window) by {
        assert(grown[i] == history[i]);
    }
    lemma_counting_bound(grown, gone, now, window);
    assert(s.sent(now).sends =~= grown.skip(gone));
}

/// The rotation never sends more than a key's plan allows inside one window, whichever key it
/// picks, and every key goes on remembering its sends.
pub proof fn law_rotation_stays_inside_the_plans(
    before: Seq<KeyView>,
    after: Seq<KeyView>,
    now: Instant,
    window: Duration,
    exclude: Seq<usize>,
    clock: Clock,
    r: Result<Lease, Next>,
    histories: Seq<Seq<Instant>>,
    last: Instant,
)
    requires
        attempted(before, after, now, window, exclude, clock, r),
        last.nanos <= now.nanos,
        histories.len() == before.len(),
        forall|i: int|
            0 <= i < before.len() ==> remembers(#[trigger] before[i], histories[i], last, window),
    ensures
        after.len() == before.len(),
        r matches Ok(lease) ==> {
            &&& lease.idx < before.len()
            &&& counting(histories[lease.idx as int].push(now), now, window).len()
                <= before[lease.idx as int].burst()
        },
        forall|i: int|
            0 <= i < after.len() ==> remembers(
                #[trigger] after[i],
                if r matches Ok(lease) && lease.idx == i {
                    histories[i].push(now)
                } else {
                    histories[i]
                },
                now,
                window,
            ),
{
    let keys = refreshed(before, now);
    let n = keys.len() as int;
    let ask = scope(keys, now, window, exclude);
    assert forall|i: int| 0 <= i < n implies remembers(
        #[trigger] keys[i],
        histories[i],
        last,
        window,
    ) && keys[i].burst() == before[i].burst() by {
        assert(remembers(before[i], histories[i], last, window));
        assert(keys[i].sends == before[i].sends);
    }
    assert forall|i: int| 0 <= i < after.len() implies remembers(
        #[trigger] after[i],
        if r matches Ok(lease) && lease.idx == i {
            histories[i].push(now)
        } else {
            histories[i]
        },
        now,
        window,
    ) by {
        assert(remembers(keys[i], histories[i], last, window));
        law_settling_forgets_only_expired_sends(keys[i], histories[i], last, now, window);
        let h = histories[i];
        let gone = h.len() - keys[i].sends.len();
        assert forall|j: int| 0 <= j < gone implies expired(#[trigger] h[j], now, window) by {
            lemma_expired_stays(h[j], last, now, window);
        }
        if let Ok(lease) = r {
            if lease.idx == i {
                law_sends_stay_inside_the_plan(keys[i], h, last, now, window);
            }
        }
    }
    if let Ok(lease) = r {
        let i = lease.idx as int;
        assert(remembers(keys[i], histories[i], last, window));
        law_sends_stay_inside_the_plan(keys[i], histories[i], last, now, window);
    }
}

/// Neither an outcome nor the end of a cooldown touches the record of sends.
pub proof fn law_outcomes_leave_the_sends_alone(k: KeyView, now: Instant, o: OutcomeView)
    ensures
        digested(k, now, o).sends == k.sends,
        k.refreshed(now).sends == k.sends,
{
}

pub(crate) proof fn lemma_live_sends_again(
    sends: Seq<Instant>,
    now: Instant,
    later: Instant,
    window: Duration,
)
    requires
        now.nanos <= later.nanos,
    ensures
        live_sends(live_sends(sends, now, window), later, window) == live_sends(
            sends,
            later,
            window,
        ),
    decreases sends.len(),
{
    if sends.len() > 0 && expired(sends[0], now, window) {
        lemma_expired_stays(sends[0], now, later, window);
        lemma_live_sends_again(sends.drop_first(), now, later, window);
    }
}

/// Settling a key is invisible: from then on it is free, blocked and settled as if it had not
/// been settled.
pub proof fn law_settling_is_invisible(
    k: KeyView,
    now: Instant,
    later: Instant,
    window: Duration,
)
    requires
        now.nanos <= later.nanos,
    ensures
        k.settled(now, window).free(later, window) == k.free(later, window),
        k.settled(now, window).blocked_until(later, window) == k.blocked_until(later, window),
        k.settled(now, window).settled(later, window) == k.settled(later, window),
{
    lemma_live_sends_again(k.sends, now, later, window);
    assert(k.settled(now, window).settled(later, window) =~= k.settled(later, window));
}

proof fn lemma_latest(list: Seq<Instant>, n: nat)
    requires
        1 <= n <= list.len(),
    ensures
        forall|i: int| 0 <= i < n ==> (#[trigger] list[i]).nanos <= latest(list, n).nanos,
        exists|i: int| 0 <= i < n && #[trigger] list[i] == latest(list, n),
    decreases n,
{
    if n > 1 {
        lemma_latest(list, (n - 1) as nat);
        let i = choose|i: int|
            0 <= i < n - 1 && #[trigger] list[i] == latest(list, (n - 1) as nat);
        assert(list[i] == latest(list, n) || list[n - 1] == latest(list, n));
    } else {
        assert(list[0] == latest(list, n));
    }
}

proof fn lemma_live_drops(sends: Seq<Instant>, n: int, now: Instant, window: Duration)
    requires
        0 <= n <= sends.len(),
        forall|i: int| 0 <= i < n ==> expired(#[trigger] sends[i], now, window),
    ensures
        live_sends(sends, now, window).len() <= sends.len() - n,
    decreases sends.len(),
{
    key::lemma_live_sends(sends, now, window);
    if n > 0 {
        let rest = sends.drop_first();
        assert forall|i: int| 0 <= i < n - 1 implies expired(#[trigger] rest[i], now, window) by {
            assert(rest[i] == sends[i + 1]);
        }
        assert(expired(sends[0], now, window));
        lemma_live_drops(rest, n - 1, now, window);
    }
}

/// A key that is not free stays so until the instant given for it: it is not sent with before a
/// hold, a cooldown or a monthly reset is over, nor before a slot is free.
pub proof fn law_blocked_keys_stay_blocked(
    k: KeyView,
    now: Instant,
    t: Instant,
    window: Duration,
)
    requires
        !k.free(now, window),
        now.nanos <= t.nanos < k.blocked_until(now, window).nanos,
        forall|i: int| 0 <= i < k.sends.len() ==> (#[trigger] k.sends[i]).in_range(),
        window.nanos <= key::WINDOW_MAX,
    ensures
        !k.free(t, window),
        !k.refreshed(t).free(t, window),
{
    let live = live_sends(k.sends, now, window);
    key::lemma_live_sends(k.sends, now, window);
    lemma_live_sends_again(k.sends, now, t, window);
    if let Some(at) = k.full_until(now, window) {
        if at.nanos > t.nanos {
            let n = (live.len() - k.burst() + 1) as nat;
            lemma_latest(live, n);
            let i = choose|i: int| 0 <= i < n && #[trigger] live[i] == latest(live, n);
            let gone = k.sends.len() - live.len();
            assert(live[i] == k.sends[gone + i]);
            assert(live[0] == k.sends[gone]);
            assert(!expired(live[0], now, window));
            assert(!expired(live[i], t, window));
            key::lemma_live_sends(live, t, window);
        }
    }
}

/// The instant given for a key that is not free is the earliest at which it is: the key, whether
/// busy, held, disabled or exhausted, is free then if nothing is sent with it before. Only of a
/// key that waits for the outcome of a probe is that instant not known.
pub proof fn law_busy_keys_are_free_in_time(k: KeyView, now: Instant, window: Duration)
    requires
        k.refreshed(now) == k,
        !k.free(now, window),
        !k.probing,
        forall|i: int| 0 <= i < k.sends.len() ==> (#[trigger] k.sends[i]).in_range(),
        window.nanos <= key::WINDOW_MAX,
    ensures
        ({
            let at = k.blocked_until(now, window);
            &&& at.nanos > now.nanos
            &&& k.refreshed(at).free(at, window)
        }),
{
    let live = live_sends(k.sends, now, window);
    let at = k.blocked_until(now, window);
    key::lemma_live_sends(k.sends, now, window);
    if let Some(f) = k.full_until(now, window) {
        let n = (live.len() - k.burst() + 1) as nat;
        let gone = k.sends.len() - live.len();
        lemma_latest(live, n);
        assert(live[0] == k.sends[gone]);
        assert(!expired(live[0], now, window));
        let last = choose|i: int| 0 <= i < n && #[trigger] live[i] == latest(live, n);
        assert(live[last] == k.sends[gone + last]);
        assert(f.nanos == latest(live, n).nanos + window.nanos);
        assert(f.nanos > now.nanos);
        assert forall|i: int| 0 <= i < n implies expired(#[trigger] live[i], at, window) by {}
        lemma_live_sends_again(k.sends, now, at, window);
        lemma_live_drops(live, n as int, at, window);
    } else {
        lemma_live_sends_again(k.sends, now, at, window);
        key::lemma_live_sends(live, at, window);
    }
}

/// A key that was disabled is probed with one request at a time: once that is sent, the key is
/// not free at any time until an outcome is recorded or given up on.
pub proof fn law_disabled_keys_are_probed_once(
    k: KeyView,
    now: Instant,
    t: Instant,
    window: Duration,
)
    requires
        k.disable_strikes > 0,
    ensures
        ({
            let probed = k.settled(now, window).sent(now);
            &&& !probed.free(t, window)
            &&& !probed.refreshed(t).free(t, window)
            &&& probed.refreshed(t).probing
            &&& probed.settled(t, window).probing
        }),
{
}

/// Waiting misses nothing: from a failed attempt until the instant it gives, no key that the
/// request could use is free.
pub proof fn law_no_key_is_free_before_the_next_attempt(
    before: Seq<KeyView>,
    after: Seq<KeyView>,
    now: Instant,
    window: Duration,
    exclude: Seq<usize>,
    clock: Clock,
    failure: Next,
    at: Instant,
    t: Instant,
)
    requires
        attempted(before, after, now, window, exclude, clock, Err::<Lease, Next>(failure)),
        match failure {
            Next::At(i) => at == i,
            Next::Unavailable { earliest, .. } => earliest == Some(at),
        },
        now.nanos <= t.nanos < at.nanos,
        forall|i: int| 0 <= i < before.len() ==> (#[trigger] before[i]).wf(),
        window.nanos <= key::WINDOW_MAX,
    ensures
        ({
            let keys = refreshed(after, t);
            scope(keys, t, window, exclude).none_eligible(keys, keys.len() as int)
        }),
{
    let keys = refreshed(before, now);
    let n = keys.len() as int;
    let ask = scope(keys, now, window, exclude);
    let then = refreshed(after, t);
    let ask_then = scope(then, t, window, exclude);
    assert forall|i: int| 0 <= i < n && ask.considers(i) implies !(#[trigger] then[i]).free(
        t,
        window,
    ) && (keys[i].health is Healthy ==> then[i].health is Healthy) by {
        assert(!ask.eligible(keys, i));
        assert(ask.waiting(keys, i));
        assert(before[i].wf());
        assert(keys[i].sends == before[i].sends);
        law_blocked_keys_stay_blocked(keys[i], now, t, window);
        law_settling_is_invisible(keys[i], now, t, window);
        assert(after[i] == keys[i].settled(now, window));
        assert(then[i] == after[i].refreshed(t));
        if keys[i].health is Healthy {
            assert(then[i] == after[i]);
            assert(keys[i].refreshed(t) == keys[i]);
        } else {
            assert(after[i] == keys[i]);
        }
    }
    if !ask.wide {
        let narrow = Ask { now, window, exclude, wide: false };
        let j = choose|j: int| 0 <= j < n && #[trigger] narrow.healthy(keys, j);
        assert(ask.considers(j));
        let narrow_then = Ask { now: t, window, exclude, wide: false };
        assert(!then[j].free(t, window));
        assert(narrow_then.healthy(then, j));
        assert(!ask_then.wide);
    }
    assert forall|i: int| 0 <= i < n implies !(#[trigger] ask_then.eligible(then, i)) by {
        if ask_then.considers(i) {
            assert(ask.considers(i));
            assert(!then[i].free(t, window));
        }
    }
}

/// Waiting is worth it: at the instant that a failed attempt gives, one of the keys that the
/// request could use is free, or waits for the outcome of a probe.
pub proof fn law_some_key_is_free_at_the_next_attempt(
    before: Seq<KeyView>,
    after: Seq<KeyView>,
    now: Instant,
    window: Duration,
    exclude: Seq<usize>,
    clock: Clock,
    failure: Next,
    at: Instant,
)
    requires
        attempted(before, after, now, window, exclude, clock, Err::<Lease, Next>(failure)),
        match failure {
            Next::At(i) => at == i,
            Next::Unavailable { earliest, .. } => earliest == Some(at),
        },
        forall|i: int| 0 <= i < before.len() ==> (#[trigger] before[i]).wf(),
        window.nanos <= key::WINDOW_MAX,
    ensures
        window.nanos > 0 && now.in_range() ==> at.nanos > now.nanos,
        ({
            let keys = refreshed(before, now);
            let ask = scope(keys, now, window, exclude);
            let then = refreshed(after, at);
            exists|i: int|
                0 <= i < then.len() && ask.considers(i) && ((#[trigger] then[i]).free(at, window)
                    || then[i].probing)
        }),
{
    let keys = refreshed(before, now);
    let n = keys.len() as int;
    let ask = scope(keys, now, window, exclude);
    let then = refreshed(after, at);
    let i = choose|i: int|
        0 <= i < n && #[trigger] ask.waiting(keys, i) && keys[i].blocked_until(now, window) == at;
    assert(before[i].wf());
    assert(keys[i].sends == before[i].sends);
    if !keys[i].probing {
        law_busy_keys_are_free_in_time(keys[i], now, window);
    }
    law_settling_is_invisible(keys[i], now, at, window);
    assert(after[i] == keys[i].settled(now, window));
    assert(then[i] == after[i].refreshed(at));
    if keys[i].health is Healthy {
        assert(then[i] == after[i]);
        assert(keys[i].refreshed(at) == keys[i]);
    }
    assert(then[i].free(at, window) || then[i].probing);
}

/// Of the keys that could serve a request, the least recently used one does.
pub proof fn law_least_recently_used_first(
    ask: Ask,
    keys: Seq<KeyView>,
    chosen: int,
    other: int,
)
    requires
        ask.is_choice(keys, keys.len() as int, chosen),
        0 <= other < keys.len(),
        ask.eligible(keys, other),
    ensures
        match (keys[chosen].last_used, keys[other].last_used) {
            (None, _) => true,
            (Some(a), Some(b)) => a.nanos <= b.nanos,
            (Some(_), None) => false,
        },
{
}

/// True if a key was used at or after `start`.
pub open spec fn used_since(k: KeyView, start: Instant) -> bool {
    match k.last_used {
        Some(t) => t.nanos >= start.nanos,
        None => false,
    }
}

/// The rotation goes round: no key is used for the second time since `start` while another one
/// that could serve the request waits to be used for the first time.
pub proof fn law_nobody_is_served_twice_in_a_round(
    ask: Ask,
    keys: Seq<KeyView>,
    chosen: int,
    other: int,
    start: Instant,
)
    requires
        ask.is_choice(keys, keys.len() as int, chosen),
        0 <= other < keys.len(),
        ask.eligible(keys, other),
        !used_since(keys[other], start),
    ensures
        !used_since(keys[chosen], start),
{
}

/// A key that the request has already tried is handed out again only if no other key is healthy.
pub proof fn law_tried_keys_come_last(
    before: Seq<KeyView>,
    after: Seq<KeyView>,
    now: Instant,
    window: Duration,
    exclude: Seq<usize>,
    clock: Clock,
    lease: Lease,
    other: int,
)
    requires
        attempted(before, after, now, window, exclude, clock, Ok::<Lease, Next>(lease)),
        exclude.contains(lease.idx),
        0 <= other < before.len(),
        !exclude.contains(other as usize),
    ensures
        !(before[other].refreshed(now).health is Healthy),
{
    let keys = refreshed(before, now);
    let narrow = Ask { now, window, exclude, wide: false };
    if keys[other].health is Healthy {
        assert(narrow.healthy(keys, other));
    }
}

/// Cooldowns end: at the instant given, a disabled or exhausted key is healthy again, what was
/// known of a spent quota is forgotten, and a new cycle begins, in which nothing of a key's own
/// cap is used up.
pub proof fn law_cooldowns_end(k: KeyView, t: Instant)
    requires
        match k.health {
            HealthView::Healthy => false,
            HealthView::Disabled { until, .. } => until.nanos <= t.nanos,
            HealthView::Exhausted { until } => until.nanos <= t.nanos,
        },
    ensures
        k.refreshed(t).health is Healthy,
        k.health is Exhausted ==> k.refreshed(t).month_remaining is None,
        k.health is Exhausted && k.monthly_cap_override != Some(0u64)
            ==> !k.refreshed(t).cap_used_up(),
        k.health is Exhausted && k.monthly_cap_override is Some ==> k.refreshed(t).month_used()
            == 0,
{
}

/// A response that says the month is used up parks the key until the reset it reports, or for six
/// hours if it reports none, also when it is the last successful one. Only a plan that is known to
/// have no monthly cap is not parked.
pub proof fn law_spent_quota_parks_the_key(
    k: KeyView,
    now: Instant,
    status: u16,
    rl: RateLimitInfo,
    body_snippet: Option<Seq<char>>,
)
    requires
        200 <= status <= 299 || status == 429,
        rl.exhausted(),
        rl.limit.month is Some || k.month_limit != Some(0u64),
    ensures
        ({
            let o = OutcomeView::Response { status, rl: Some(rl), body_snippet };
            let parked = digested(k, now, o);
            let wait = match rl.resets_in() {
                Some(d) => d,
                None => Duration::of_secs(key::EXHAUSTED_FALLBACK as nat),
            };
            &&& parked.health == (HealthView::Exhausted { until: now.after(wait) })
            &&& parked.month_remaining == Some(0u64)
            &&& parked.month_reset_at == Some(now.after(wait))
        }),
{
}

/// Plans without a monthly cap are never parked: no outcome after which a plan is known to have
/// none, from this response or an earlier one, exhausts its key.
pub proof fn law_uncapped_plans_are_never_parked(k: KeyView, now: Instant, o: OutcomeView)
    requires
        digested(k, now, o).unlimited(),
        !(k.health is Exhausted),
    ensures
        !(digested(k, now, o).health is Exhausted),
{
}

/// A plan is known to have no monthly cap from a response that reports a limit of 0 on, until one
/// reports another limit.
pub proof fn law_uncapped_plans_are_recognised(
    k: KeyView,
    now: Instant,
    status: u16,
    rl: RateLimitInfo,
    body_snippet: Option<Seq<char>>,
    then: Instant,
    o: OutcomeView,
)
    requires
        rl.limit.month == Some(0u64),
        k.monthly_cap_override is None,
        o matches OutcomeView::Response { rl: Some(other), .. } ==> other.limit.month is None
            || other.limit.month == Some(0u64),
    ensures
        ({
            let after = digested(
                k,
                now,
                OutcomeView::Response { status, rl: Some(rl), body_snippet },
            );
            &&& after.unlimited()
            &&& after.refreshed(then).unlimited()
            &&& digested(after, then, o).unlimited()
        }),
{
}

/// A self-imposed cap holds: the success that uses it up in this cycle parks the key, and one
/// before that does not, unless Brave itself reports the month as used up.
pub proof fn law_own_caps_are_kept(
    k: KeyView,
    now: Instant,
    status: u16,
    rl: Option<RateLimitInfo>,
    body_snippet: Option<Seq<char>>,
    cap: u64,
)
    requires
        200 <= status <= 299,
        k.monthly_cap_override == Some(cap),
        k.cycle_ok < u64::MAX,
        !(rl matches Some(r) && r.exhausted()),
    ensures
        ({
            let after = digested(k, now, OutcomeView::Response { status, rl, body_snippet });
            &&& after.cycle_ok == k.cycle_ok + 1
            &&& k.cycle_ok + 1 >= cap ==> after.health is Exhausted
            &&& k.cycle_ok + 1 < cap ==> after.health == k.health
        }),
{
}

/// The backoff doubles with every strike until it reaches its maximum.
pub proof fn law_backoff_doubles(base: nat, max: nat, strikes: nat)
    requires
        1 <= strikes,
        base <= max <= base * 65536,
    ensures
        backoff_secs(base, max, 1) == base,
        backoff_secs(base, max, strikes + 1) == if 2 * backoff_secs(base, max, strikes) <= max {
            2 * backoff_secs(base, max, strikes)
        } else {
            max
        },
{
    assert(doublings(0) == 1);
    if strikes <= 16 {
        let d = doublings((strikes - 1) as nat);
        assert(doublings(strikes) == 2 * d);
        assert(base * (2 * d) == 2 * (base * d)) by (nonlinear_arith);
    } else {
        assert(doublings(16) == 65536) by {
            reveal_with_fuel(doublings, 17);
        }
    }
}

/// A key that Brave rejects is disabled for five minutes, doubled with every strike in a row, at
/// most an hour.
pub proof fn law_rejected_keys_back_off(
    k: KeyView,
    now: Instant,
    status: u16,
    rl: Option<RateLimitInfo>,
    body_snippet: Option<Seq<char>>,
)
    requires
        status == 401 || status == 403,
        k.disable_strikes < u32::MAX,
    ensures
        ({
            let after = digested(k, now, OutcomeView::Response { status, rl, body_snippet });
            let secs = backoff_secs(300, 3600, k.disable_strikes as nat + 1);
            &&& after.disable_strikes == k.disable_strikes + 1
            &&& after.health == (HealthView::Disabled {
                until: now.after(Duration::of_secs(secs)),
                reason: outcome::status_text(status, body_snippet),
            })
        }),
{
}

/// True for server errors and transport errors.
pub open spec fn is_failure(o: OutcomeView) -> bool {
    match o {
        OutcomeView::Transport(_) => true,
        OutcomeView::Response { status, .. } => 500 <= status <= 599,
    }
}

/// Three failures in a row, and no fewer, disable a key: for 30 seconds, doubled with every strike
/// in a row, at most ten minutes. Anything but a failure sets the count back.
pub proof fn law_three_failures_disable(
    k: KeyView,
    t1: Instant,
    o1: OutcomeView,
    t2: Instant,
    o2: OutcomeView,
    t3: Instant,
    o3: OutcomeView,
    other: OutcomeView,
)
    requires
        k.consecutive_failures == 0,
        k.disable_strikes < u32::MAX,
        is_failure(o1),
        is_failure(o2),
        is_failure(o3),
        !is_failure(other),
    ensures
        ({
            let k1 = digested(k, t1, o1);
            let k2 = digested(k1, t2, o2);
            let k3 = digested(k2, t3, o3);
            let secs = backoff_secs(30, 600, k.disable_strikes as nat + 1);
            &&& k1.health == k.health
            &&& k2.health == k.health
            &&& k3.disable_strikes == k.disable_strikes + 1
            &&& k3.consecutive_failures == 0
            &&& k3.health matches HealthView::Disabled { until, .. } && until == t3.after(
                Duration::of_secs(secs),
            )
            &&& digested(k1, t2, other).consecutive_failures == 0
            &&& digested(k2, t3, other).consecutive_failures == 0
        }),
{
}

/// A success ends every streak of failures and all that is known of them, and the next backoff
/// starts over: a key that is rejected next is disabled for five minutes, whatever came before.
pub proof fn law_success_clears_the_record(
    k: KeyView,
    now: Instant,
    status: u16,
    rl: Option<RateLimitInfo>,
    body_snippet: Option<Seq<char>>,
    t: Instant,
)
    requires
        k.wf(),
        k.stats.ok < u64::MAX,
        200 <= status <= 299,
    ensures
        ({
            let after = digested(k, now, OutcomeView::Response { status, rl, body_snippet });
            let rejected = digested(
                after,
                t,
                OutcomeView::Response { status: 401, rl: None, body_snippet: None },
            );
            &&& after.consecutive_failures == 0
            &&& after.consecutive_429 == 0
            &&& after.disable_strikes == 0
            &&& after.disabled_since is None
            &&& after.stats.last_error is None
            &&& after.stats.ok == k.stats.ok + 1
            &&& rejected.health matches HealthView::Disabled { until, .. } && until == t.after(
                Duration::of_secs(300),
            )
            &&& rejected.disabled_since == Some(t)
        }),
{
    assert(doublings(0) == 1);
}

/// A 429 without rate-limit headers disables the key for five minutes once there were five 429s
/// since the last success, and holds it for two seconds before that.
pub proof fn law_unexplained_limits_add_up(
    k: KeyView,
    now: Instant,
    body_snippet: Option<Seq<char>>,
)
    requires
        k.consecutive_429 < u32::MAX,
        k.health is Healthy,
    ensures
        ({
            let after = digested(
                k,
                now,
                OutcomeView::Response { status: 429, rl: None, body_snippet },
            );
            &&& after.hold_until == Some(now.after(Duration::of_secs(2)))
            &&& k.consecutive_429 + 1 < 5 ==> after.health is Healthy && after.consecutive_429
                == k.consecutive_429 + 1
            &&& k.consecutive_429 + 1 >= 5 ==> after.consecutive_429 == 0 && (
            after.health matches HealthView::Disabled { until, .. } && until == now.after(
                Duration::of_secs(300),
            ))
        }),
{
    let strikes = if k.disable_strikes < u32::MAX {
        k.disable_strikes + 1
    } else {
        u32::MAX as int
    };
    let e = if strikes - 1 > 16 {
        16
    } else {
        (strikes - 1) as nat
    };
    lemma_doublings_at_least(e as nat);
    assert(300 * doublings(e as nat) >= 300);
}

proof fn lemma_doublings_at_least(n: nat)
    ensures
        doublings(n) >= 1,
    decreases n,
{
    if n > 0 {
        lemma_doublings_at_least((n - 1) as nat);
    }
}

/// A key keeps its token, its label and its own cap, whatever happens to it.
pub proof fn law_keys_keep_their_identity(
    k: KeyView,
    now: Instant,
    window: Duration,
    o: OutcomeView,
)
    ensures
        forall|after: KeyView|
            (after == k.refreshed(now) || after == k.settled(now, window) || after == k.sent(now)
                || after == digested(k, now, o)) ==> (#[trigger] after.token) == k.token
                && after.label == k.label && after.monthly_cap_override == k.monthly_cap_override,
{
}

/// A snapshot counts a healthy key exactly if there is one.
pub proof fn law_health_is_counted(keys: Seq<KeyView>, n: nat)
    requires
        n <= keys.len(),
    ensures
        snapshot::sum(keys, snapshot::healthy(), n) > 0 <==> exists|i: int|
            0 <= i < n && (#[trigger] keys[i]).health is Healthy,
    decreases n,
{
    if n > 0 {
        law_health_is_counted(keys, (n - 1) as nat);
        if keys[n - 1].health is Healthy {
        }
    }
}

/// The health endpoint tells the truth: a snapshot counts a healthy key exactly if one of the keys
/// is healthy once elapsed cooldowns are over.
pub proof fn law_snapshots_know_the_healthy(
    snap: PoolSnapshot,
    keys: Seq<KeyView>,
    clock: Clock,
    window: Duration,
)
    requires
        snap.sums_up(
            keys,
            snapshot::all_settled(keys, clock.now, window),
            keys.len(),
            clock,
            window,
        ),
    ensures
        snap.keys_healthy > 0 <==> exists|i: int|
            0 <= i < keys.len() && (#[trigger] keys[i]).health is Healthy,
{
    let settled = snapshot::all_settled(keys, clock.now, window);
    law_health_is_counted(settled, keys.len());
    assert forall|i: int| 0 <= i < keys.len() implies (#[trigger] keys[i]).health
        == settled[i].health by {}
    if exists|i: int| 0 <= i < keys.len() && (#[trigger] settled[i]).health is Healthy {
        let i = choose|i: int| 0 <= i < keys.len() && (#[trigger] settled[i]).health is Healthy;
        assert(keys[i].health is Healthy);
    }
    if exists|i: int| 0 <= i < keys.len() && (#[trigger] keys[i]).health is Healthy {
        let i = choose|i: int| 0 <= i < keys.len() && (#[trigger] keys[i]).health is Healthy;
        assert(settled[i].health is Healthy);
    }
}

/// Plan limits are learned and kept: from a response that reports requests/second on, whatever its
/// status, the key is used at that rate unless it is being probed, up to the largest that is
/// believed, until another response reports a different one.
pub proof fn law_plan_limits_are_learned(
    k: KeyView,
    now: Instant,
    status: u16,
    rl: RateLimitInfo,
    body_snippet: Option<Seq<char>>,
    per_second: u64,
    later: Instant,
    o: OutcomeView,
)
    requires
        rl.limit.second == Some(per_second),
        0 < per_second <= key::MAX_LEARNED_RPS,
        o matches OutcomeView::Response { rl: Some(other), .. } ==> other.limit.second is None
            || other.limit.second == Some(0u64),
    ensures
        ({
            let after = digested(
                k,
                now,
                OutcomeView::Response { status, rl: Some(rl), body_snippet },
            );
            &&& after.limits_learned
            &&& after.sec_limit == per_second
            &&& digested(after, later, o).sec_limit == per_second
            &&& after.disable_strikes == 0 ==> after.burst() == per_second
        }),
{
}

/// A key that is told to slow down is left alone for as long as Brave asks, from one second to a
/// minute, and is otherwise as healthy as before.
pub proof fn law_limited_keys_are_held(
    k: KeyView,
    now: Instant,
    rl: RateLimitInfo,
    body_snippet: Option<Seq<char>>,
    t: Instant,
    window: Duration,
)
    requires
        now.in_range(),
        !rl.exhausted() || rl.limit.month is None && k.month_limit == Some(0u64),
        t.nanos < now.nanos + rl.wait_secs() * 1_000_000_000,
    ensures
        ({
            let after = digested(
                k,
                now,
                OutcomeView::Response { status: 429, rl: Some(rl), body_snippet },
            );
            &&& after.health == k.health
            &&& !after.free(t, window)
        }),
        1 <= rl.wait_secs() <= 60,
{
}

/// True for the states of a key that is neither disabled nor exhausted.
pub open spec fn usable(r: KeySnapshotView) -> bool {
    r.state == "ok"@ || r.state == "busy"@ || r.state == "cooling"@
}

proof fn lemma_sum_same<A, B>(
    a: Seq<A>,
    f: spec_fn(A) -> nat,
    b: Seq<B>,
    g: spec_fn(B) -> nat,
    n: nat,
)
    requires
        forall|i: int| 0 <= i < n ==> f(#[trigger] a[i]) == g(b[i]),
    ensures
        snapshot::sum(a, f, n) == snapshot::sum(b, g, n),
    decreases n,
{
    if n > 0 {
        lemma_sum_same(a, f, b, g, (n - 1) as nat);
        assert(f(a[n - 1]) == g(b[n - 1]));
    }
}

proof fn lemma_known_sum_same<A, B>(
    a: Seq<A>,
    f: spec_fn(A) -> Option<u64>,
    b: Seq<B>,
    g: spec_fn(B) -> Option<u64>,
    n: nat,
)
    requires
        forall|i: int| 0 <= i < n ==> f(#[trigger] a[i]) == g(b[i]),
    ensures
        snapshot::known_sum(a, f, n) == snapshot::known_sum(b, g, n),
    decreases n,
{
    if n > 0 {
        lemma_known_sum_same(a, f, b, g, (n - 1) as nat);
        assert(f(a[n - 1]) == g(b[n - 1]));
    }
}

/// A snapshot adds up: it reports the keys in the order of the pool, and its figures are the sums
/// of what it reports about the keys. The requests/second are those of the keys that are neither
/// disabled nor exhausted.
pub proof fn law_snapshots_add_up(
    snap: PoolSnapshot,
    keys: Seq<KeyView>,
    clock: Clock,
    window: Duration,
)
    requires
        forall|i: int| 0 <= i < keys.len() ==> (#[trigger] keys[i]).wf(),
        snap.sums_up(
            keys,
            snapshot::all_settled(keys, clock.now, window),
            keys.len(),
            clock,
            window,
        ),
    ensures
        ({
            let reports = snap.keys@.map_values(|k: KeySnapshot| k@);
            let n = keys.len();
            &&& reports.len() == n
            &&& forall|i: int| 0 <= i < n ==> (#[trigger] reports[i]).key == keys[i].label
            &&& snap.keys_healthy == snapshot::sum(
                reports,
                |r: KeySnapshotView|
                    if usable(r) {
                        1
                    } else {
                        0
                    },
                n,
            )
            &&& snap.rps_capacity == snapshot::sum(
                reports,
                |r: KeySnapshotView|
                    if usable(r) {
                        r.per_second.limit as nat
                    } else {
                        0
                    },
                n,
            )
            &&& snap.month_unlimited_keys == snapshot::sum(
                reports,
                |r: KeySnapshotView|
                    if usable(r) && r.monthly.unlimited {
                        1
                    } else {
                        0
                    },
                n,
            )
            &&& snapshot::is_total(
                snap.month_limit_total,
                snapshot::known_sum(reports, |r: KeySnapshotView| r.monthly.limit, n),
            )
            &&& snapshot::is_total(
                snap.month_remaining_total,
                snapshot::known_sum(reports, |r: KeySnapshotView| r.monthly.remaining, n),
            )
            &&& snap.totals.requests == snapshot::sum(
                reports,
                |r: KeySnapshotView| r.stats.requests as nat,
                n,
            )
            &&& snap.totals.ok == snapshot::sum(
                reports,
                |r: KeySnapshotView| r.stats.ok as nat,
                n,
            )
            &&& snap.totals.upstream_429 == snapshot::sum(
                reports,
                |r: KeySnapshotView| r.stats.upstream_429 as nat,
                n,
            )
            &&& snap.totals.client_4xx == snapshot::sum(
                reports,
                |r: KeySnapshotView| r.stats.client_4xx as nat,
                n,
            )
            &&& snap.totals.server_5xx == snapshot::sum(
                reports,
                |r: KeySnapshotView| r.stats.server_5xx as nat,
                n,
            )
            &&& snap.totals.transport_errors == snapshot::sum(
                reports,
                |r: KeySnapshotView| r.stats.transport_errors as nat,
                n,
            )
        }),
{
    reveal_strlit("ok");
    reveal_strlit("busy");
    reveal_strlit("cooling");
    reveal_strlit("disabled");
    reveal_strlit("exhausted");
    assert("ok"@.len() == 2 && "busy"@.len() == 4 && "cooling"@.len() == 7);
    assert("disabled"@.len() == 8 && "exhausted"@.len() == 9);
    let reports = snap.keys@.map_values(|k: KeySnapshot| k@);
    let settled = snapshot::all_settled(keys, clock.now, window);
    let n = keys.len();
    assert forall|i: int| 0 <= i < n implies #[trigger] settled[i] == keys[i].settled(
        clock.now,
        window,
    ) && reports[i] == snapshot::key_report(keys[i], clock, window) && usable(reports[i]) == (
    keys[i].health is Healthy) by {
        assert(snap.keys@[i]@ == snapshot::key_report(keys[i], clock, window));
    }
    assert forall|i: int| 0 <= i < n implies (#[trigger] reports[i]).key == keys[i].label by {
        assert(settled[i] == keys[i].settled(clock.now, window));
    }
    let healthy = |r: KeySnapshotView|
        if usable(r) {
            1
        } else {
            0
        };
    lemma_sum_same(settled, snapshot::healthy(), reports, healthy, n);
    let uncapped = |r: KeySnapshotView|
        if usable(r) && r.monthly.unlimited {
            1
        } else {
            0
        };
    lemma_sum_same(settled, snapshot::uncapped(), reports, uncapped, n);
    let rate = |r: KeySnapshotView|
        if usable(r) {
            r.per_second.limit as nat
        } else {
            0
        };
    assert forall|i: int| 0 <= i < n implies snapshot::rps()(#[trigger] settled[i]) == rate(
        reports[i],
    ) by {
        assert(keys[i].wf());
    }
    lemma_sum_same(settled, snapshot::rps(), reports, rate, n);
    lemma_known_sum_same(
        settled,
        snapshot::capped_limit(),
        reports,
        |r: KeySnapshotView| r.monthly.limit,
        n,
    );
    lemma_known_sum_same(
        settled,
        snapshot::capped_remaining(),
        reports,
        |r: KeySnapshotView| r.monthly.remaining,
        n,
    );
    lemma_sum_same(
        settled,
        snapshot::requests(),
        reports,
        |r: KeySnapshotView| r.stats.requests as nat,
        n,
    );
    lemma_sum_same(
        settled,
        snapshot::successes(),
        reports,
        |r: KeySnapshotView| r.stats.ok as nat,
        n,
    );
    lemma_sum_same(
        settled,
        snapshot::limits_hit(),
        reports,
        |r: KeySnapshotView| r.stats.upstream_429 as nat,
        n,
    );
    lemma_sum_same(
        settled,
        snapshot::rejections(),
        reports,
        |r: KeySnapshotView| r.stats.client_4xx as nat,
        n,
    );
    lemma_sum_same(
        settled,
        snapshot::server_errors(),
        reports,
        |r: KeySnapshotView| r.stats.server_5xx as nat,
        n,
    );
    lemma_sum_same(
        settled,
        snapshot::transport_errors(),
        reports,
        |r: KeySnapshotView| r.stats.transport_errors as nat,
        n,
    );
}

} // verus!
