//! What holds over a run of calls on one pool.

use vstd::prelude::*;

use crate::clock::{Clock, Duration, Instant};
use crate::key::{self, live_sends, KeyView};
use crate::laws::{self, remembers};
use crate::outcome::{digested, OutcomeView};
use crate::pool::{self, attempted, refreshed, scope, Ask, Lease, Next};
use crate::snapshot::{all_settled, slots, sum, PoolSnapshot};

verus! {

/// A call on a pool, and what it gave.
pub enum Event {
    /// An attempt to acquire a key.
    Attempt { now: Instant, exclude: Seq<usize>, clock: Clock, result: Result<Lease, Next> },
    /// An outcome is recorded.
    Record { now: Instant, idx: usize, outcome: OutcomeView },
    /// An outcome is given up on.
    Abandon { now: Instant, idx: usize },
    /// A snapshot is taken.
    Snapshot { clock: Clock },
}

impl Event {
    /// When it happens.
    pub open spec fn time(&self) -> Instant {
        match self {
            Event::Attempt { now, .. } => *now,
            Event::Record { now, .. } => *now,
            Event::Abandon { now, .. } => *now,
            Event::Snapshot { clock } => clock.now,
        }
    }

    /// True if it leads from the keys before to those after it.
    pub open spec fn leads(
        &self,
        before: Seq<KeyView>,
        after: Seq<KeyView>,
        window: Duration,
    ) -> bool {
        match self {
            Event::Attempt { now, exclude, clock, result } => attempted(
                before,
                after,
                *now,
                window,
                *exclude,
                *clock,
                *result,
            ),
            Event::Record { now, idx, outcome } => after == if *idx < before.len() {
                before.update(*idx as int, digested(before[*idx as int], *now, *outcome))
            } else {
                before
            },
            Event::Abandon { idx, .. } => after == pool::abandoned(before, *idx),
            Event::Snapshot { clock } => after == all_settled(
                refreshed(before, clock.now),
                clock.now,
                window,
            ),
        }
    }

    /// True if it hands out the `i`th key.
    pub open spec fn leases(&self, i: int) -> bool {
        match self {
            Event::Attempt { result: Ok(lease), .. } => lease.idx == i,
            _ => false,
        }
    }

    /// True if it ends the wait for the outcome of a request sent with the `i`th key.
    pub open spec fn ends_wait(&self, i: int) -> bool {
        match self {
            Event::Record { idx, .. } => *idx == i,
            Event::Abandon { idx, .. } => *idx == i,
            _ => false,
        }
    }
}

/// True if the events, in order of time, lead from each of the states to the next.
pub open spec fn is_run(
    states: Seq<Seq<KeyView>>,
    events: Seq<Event>,
    window: Duration,
) -> bool {
    &&& states.len() == events.len() + 1
    &&& forall|j: int|
        0 <= j < events.len() ==> (#[trigger] events[j]).leads(states[j], states[j + 1], window)
    &&& forall|j: int, k: int|
        0 <= j <= k < events.len() ==> (#[trigger] events[j]).time().nanos <= (
        #[trigger] events[k]).time().nanos
}

/// When the `i`th key is handed out among the first `n` events.
pub open spec fn leases_of(events: Seq<Event>, i: int, n: nat) -> Seq<Instant>
    decreases n,
{
    if n == 0 {
        Seq::empty()
    } else if events[n - 1].leases(i) {
        leases_of(events, i, (n - 1) as nat).push(events[n - 1].time())
    } else {
        leases_of(events, i, (n - 1) as nat)
    }
}

/// True if of any `limit + 1` successive instants the first and the last are a window apart.
pub open spec fn spaced(list: Seq<Instant>, limit: nat, window: Duration) -> bool {
    forall|a: int, b: int|
        0 <= a && b == a + limit && b < list.len() ==> (#[trigger] list[a]).nanos + window.nanos
            <= (#[trigger] list[b]).nanos
}

/// A key that was never used remembers all of its sends: there are none.
pub proof fn law_fresh_keys_remember(
    idx: nat,
    token: Seq<char>,
    default_rps: u32,
    cap: Option<u64>,
    t: Instant,
    window: Duration,
)
    ensures
        remembers(KeyView::fresh(idx, token, default_rps, cap), Seq::empty(), t, window),
{
    assert(Seq::<Instant>::empty().skip(0) =~= Seq::<Instant>::empty());
}

proof fn lemma_remembers_later(
    k: KeyView,
    history: Seq<Instant>,
    last: Instant,
    now: Instant,
    window: Duration,
)
    requires
        remembers(k, history, last, window),
        last.nanos <= now.nanos,
    ensures
        remembers(k, history, now, window),
{
    let forgotten = history.len() - k.sends.len();
    assert forall|i: int| 0 <= i < forgotten implies key::expired(
        #[trigger] history[i],
        now,
        window,
    ) by {
        laws::lemma_expired_stays(history[i], last, now, window);
    }
}

/// One more lease keeps the distance.
proof fn lemma_spaced(
    k: KeyView,
    history: Seq<Instant>,
    last: Instant,
    now: Instant,
    limit: nat,
    window: Duration,
)
    requires
        remembers(k, history, last, window),
        last.nanos <= now.nanos,
        k.free(now, window),
        k.burst() <= limit,
        spaced(history, limit, window),
    ensures
        spaced(history.push(now), limit, window),
{
    laws::law_settling_forgets_only_expired_sends(k, history, last, now, window);
    let s = k.settled(now, window);
    let grown = history.push(now);
    assert forall|a: int, b: int|
        0 <= a && b == a + limit && b < grown.len() implies (#[trigger] grown[a]).nanos
        + window.nanos <= (#[trigger] grown[b]).nanos by {
        if b < history.len() {
            assert(grown[a] == history[a] && grown[b] == history[b]);
        } else {
            assert(s.sends.len() < limit);
            assert(grown[a] == history[a]);
            assert(key::expired(history[a], now, window));
        }
    }
}

/// The time of the last of the first `n` events.
spec fn time_of(events: Seq<Event>, n: nat) -> Instant {
    if n == 0 {
        Instant { nanos: 0 }
    } else {
        events[n - 1].time()
    }
}

proof fn lemma_run(
    states: Seq<Seq<KeyView>>,
    events: Seq<Event>,
    window: Duration,
    i: int,
    limit: nat,
    n: nat,
)
    requires
        is_run(states, events, window),
        n <= events.len(),
        0 <= i < states[0].len(),
        states[0][i].sends.len() == 0,
        limit >= 1,
        forall|j: int| 0 <= j < states.len() ==> (#[trigger] states[j])[i].sec_limit <= limit,
    ensures
        states[n as int].len() == states[0].len(),
        remembers(states[n as int][i], leases_of(events, i, n), time_of(events, n), window),
        spaced(leases_of(events, i, n), limit, window),
    decreases n,
{
    if n == 0 {
        assert(states[0][i].sends =~= Seq::<Instant>::empty());
        assert(Seq::<Instant>::empty().skip(0) =~= Seq::<Instant>::empty());
    } else {
        let m = (n - 1) as nat;
        lemma_run(states, events, window, i, limit, m);
        let before = states[m as int];
        let after = states[m as int + 1];
        let h = leases_of(events, i, m);
        let last = time_of(events, m);
        let event = events[m as int];
        let now = event.time();
        assert(event.leads(before, after, window));
        if m > 0 {
            assert(events[m - 1].time().nanos <= events[m as int].time().nanos);
        }
        let k = before[i].refreshed(now);
        assert(remembers(k, h, last, window));
        assert(k.burst() <= limit);
        lemma_remembers_later(k, h, last, now, window);
        laws::law_settling_forgets_only_expired_sends(k, h, last, now, window);
        match event {
            Event::Attempt { exclude, clock, result, .. } => {
                let keys = refreshed(before, now);
                assert(keys[i] == k);
                if event.leases(i) {
                    assert(k.free(now, window));
                    lemma_spaced(k, h, last, now, limit, window);
                    laws::law_sends_stay_inside_the_plan(k, h, last, now, window);
                    assert(after[i] == k.settled(now, window).sent(now));
                }
            },
            Event::Record { idx, outcome, .. } => {
                if idx == i {
                    laws::law_outcomes_leave_the_sends_alone(before[i], now, outcome);
                }
                lemma_remembers_later(before[i], h, last, now, window);
            },
            Event::Abandon { .. } => {
                lemma_remembers_later(before[i], h, last, now, window);
            },
            Event::Snapshot { .. } => {},
        }
    }
}

/// No key is ever sent with more often than its plan allows: over any run of attempts, outcomes
/// and snapshots in order of time, of `limit + 1` successive leases of a key the first and the
/// last are at least a window apart, if the plan of the key never allows more than `limit`
/// requests/second.
pub proof fn law_leases_are_spaced(
    states: Seq<Seq<KeyView>>,
    events: Seq<Event>,
    window: Duration,
    i: int,
    limit: nat,
    a: int,
)
    requires
        is_run(states, events, window),
        0 <= i < states[0].len(),
        states[0][i].sends.len() == 0,
        limit >= 1,
        forall|j: int| 0 <= j < states.len() ==> (#[trigger] states[j])[i].sec_limit <= limit,
        0 <= a,
        a + limit < leases_of(events, i, events.len()).len(),
    ensures
        ({
            let times = leases_of(events, i, events.len());
            times[a].nanos + window.nanos <= times[a + limit].nanos
        }),
{
    lemma_run(states, events, window, i, limit, events.len());
}

proof fn lemma_still_probing(
    states: Seq<Seq<KeyView>>,
    events: Seq<Event>,
    window: Duration,
    i: int,
    a: int,
    b: int,
)
    requires
        is_run(states, events, window),
        0 <= i < states[a].len(),
        0 <= a < b <= events.len(),
        events[a].leases(i),
        states[a][i].disable_strikes > 0,
        forall|c: int| a < c < b ==> !(#[trigger] events[c]).ends_wait(i),
    ensures
        states[b].len() == states[a].len(),
        states[b][i].probing,
    decreases b - a,
{
    let event = events[b - 1];
    assert(event.leads(states[b - 1], states[b], window));
    let now = event.time();
    if b - 1 == a {
        let keys = refreshed(states[a], now);
        assert(keys[i] == states[a][i].refreshed(now));
        assert(states[b][i].probing);
    } else {
        lemma_still_probing(states, events, window, i, a, b - 1);
        assert(!event.ends_wait(i));
        assert(states[b - 1][i].refreshed(now).probing);
        match event {
            Event::Attempt { .. } => {
                let keys = refreshed(states[b - 1], now);
                assert(keys[i] == states[b - 1][i].refreshed(now));
                assert(!keys[i].free(now, window));
            },
            _ => {},
        }
    }
}

/// A key that was disabled is probed with one request at a time, over any run: between two leases
/// of a key that had strikes at the first, an outcome of that key is recorded or given up on.
pub proof fn law_probes_wait_for_an_outcome(
    states: Seq<Seq<KeyView>>,
    events: Seq<Event>,
    window: Duration,
    i: int,
    a: int,
    b: int,
)
    requires
        is_run(states, events, window),
        0 <= a < b < events.len(),
        0 <= i < states[a].len(),
        events[a].leases(i),
        events[b].leases(i),
        states[a][i].disable_strikes > 0,
    ensures
        exists|c: int| a < c < b && (#[trigger] events[c]).ends_wait(i),
{
    if forall|c: int| a < c < b ==> !(#[trigger] events[c]).ends_wait(i) {
        lemma_still_probing(states, events, window, i, a, b);
        let now = events[b].time();
        assert(events[b].leads(states[b], states[b + 1], window));
        let keys = refreshed(states[b], now);
        assert(keys[i] == states[b][i].refreshed(now));
        assert(keys[i].probing);
    }
}

proof fn lemma_more_sends_stay(sends: Seq<Instant>, now: Instant, window: Duration, m: nat)
    requires
        live_sends(sends, now, window) == sends,
        window.nanos > 0,
    ensures
        live_sends(sends + Seq::new(m, |i: int| now), now, window) == sends + Seq::new(
            m,
            |i: int| now,
        ),
{
    let grown = sends + Seq::new(m, |i: int| now);
    key::lemma_live_sends(sends, now, window);
    if sends.len() > 0 {
        assert(grown[0] == sends[0]);
    } else if m > 0 {
        assert(grown[0] == now);
    }
}

/// The free slots of a key are the requests that may be sent with it right now: there are some
/// exactly if the key is free, and it stays free until as many are sent.
pub proof fn law_free_slots_are_sends(k: KeyView, now: Instant, window: Duration, m: nat)
    requires
        window.nanos > 0,
    ensures
        ({
            let s = k.settled(now, window);
            let sent = KeyView { sends: s.sends + Seq::new(m, |i: int| now), ..s };
            &&& s.slots() > 0 <==> k.free(now, window)
            &&& sent.free(now, window) <==> m < s.slots()
        }),
{
    let s = k.settled(now, window);
    laws::lemma_live_sends_again(k.sends, now, now, window);
    if k.health is Healthy && !k.held(now) {
        lemma_more_sends_stay(s.sends, now, window, m);
    }
}

/// True if no key has a cooldown, a hold or a send that is over at `now`.
pub open spec fn at_rest(keys: Seq<KeyView>, now: Instant, window: Duration) -> bool {
    forall|i: int|
        0 <= i < keys.len() ==> (#[trigger] keys[i]).refreshed(now) == keys[i] && keys[i].settled(
            now,
            window,
        ) == keys[i]
}

proof fn lemma_sum_update(
    a: Seq<KeyView>,
    i: int,
    k: KeyView,
    f: spec_fn(KeyView) -> nat,
    n: nat,
)
    requires
        0 <= i < a.len(),
        n <= a.len(),
    ensures
        i < n ==> sum(a.update(i, k), f, n) + f(a[i]) == sum(a, f, n) + f(k),
        i >= n ==> sum(a.update(i, k), f, n) == sum(a, f, n),
    decreases n,
{
    if n > 0 {
        lemma_sum_update(a, i, k, f, (n - 1) as nat);
    }
}

proof fn lemma_no_slots(a: Seq<KeyView>, n: nat)
    requires
        forall|i: int| 0 <= i < n ==> (#[trigger] a[i]).slots() == 0,
    ensures
        sum(a, slots(), n) == 0,
    decreases n,
{
    if n > 0 {
        lemma_no_slots(a, (n - 1) as nat);
        assert(a[n - 1].slots() == 0);
    }
}

proof fn lemma_slots_counted(a: Seq<KeyView>, i: int, n: nat)
    requires
        0 <= i < n,
    ensures
        sum(a, slots(), n) >= a[i].slots(),
    decreases n,
{
    if i < n - 1 {
        lemma_slots_counted(a, i, (n - 1) as nat);
    }
}

/// One attempt at rest: a key is handed out exactly if there is a free slot, and takes one.
proof fn lemma_attempt_at_rest(
    keys: Seq<KeyView>,
    after: Seq<KeyView>,
    now: Instant,
    window: Duration,
    clock: Clock,
    r: Result<Lease, Next>,
)
    requires
        at_rest(keys, now, window),
        window.nanos > 0,
        attempted(keys, after, now, window, Seq::empty(), clock, r),
    ensures
        after.len() == keys.len(),
        at_rest(after, now, window),
        r is Ok <==> sum(keys, slots(), keys.len()) > 0,
        r is Ok ==> sum(after, slots(), keys.len()) + 1 == sum(keys, slots(), keys.len()),
{
    let n = keys.len();
    assert(refreshed(keys, now) =~= keys);
    let ask = scope(keys, now, window, Seq::empty());
    assert forall|i: int| true implies ask.considers(i) by {}
    assert(ask.settled(keys, n as int) =~= keys);
    assert forall|i: int| 0 <= i < n implies ((#[trigger] keys[i]).slots() > 0) == keys[i].free(
        now,
        window,
    ) by {
        law_free_slots_are_sends(keys[i], now, window, 0);
    }
    match r {
        Ok(lease) => {
            let b = lease.idx as int;
            assert(ask.eligible(keys, b));
            let sent = keys[b].sent(now);
            law_free_slots_are_sends(keys[b], now, window, 0);
            lemma_more_sends_stay(keys[b].sends, now, window, 1);
            assert(sent.sends =~= keys[b].sends + Seq::new(1, |i: int| now));
            assert(sent.settled(now, window) =~= sent);
            assert(sent.slots() + 1 == keys[b].slots());
            lemma_sum_update(keys, b, sent, slots(), n);
            lemma_slots_counted(keys, b, n);
            assert forall|i: int| 0 <= i < after.len() implies (#[trigger] after[i]).refreshed(now)
                == after[i] && after[i].settled(now, window) == after[i] by {
                if i != b {
                    assert(after[i] == keys[i]);
                }
            }
        },
        Err(_) => {
            assert forall|i: int| 0 <= i < n implies (#[trigger] keys[i]).slots() == 0 by {
                assert(!ask.eligible(keys, i));
            }
            lemma_no_slots(keys, n);
        },
    }
}

proof fn lemma_attempts_at_rest(
    states: Seq<Seq<KeyView>>,
    results: Seq<Result<Lease, Next>>,
    clocks: Seq<Clock>,
    now: Instant,
    window: Duration,
    total: nat,
    j: nat,
)
    requires
        at_rest(states[0], now, window),
        window.nanos > 0,
        total == sum(states[0], slots(), states[0].len()),
        j <= total + 1,
        forall|i: int|
            0 <= i <= total ==> attempted(
                states[i],
                states[i + 1],
                now,
                window,
                Seq::empty(),
                clocks[i],
                #[trigger] results[i],
            ),
    ensures
        j <= total ==> states[j as int].len() == states[0].len() && at_rest(
            states[j as int],
            now,
            window,
        ) && sum(states[j as int], slots(), states[0].len()) + j == total,
        forall|i: int| 0 <= i < j && i < total ==> (#[trigger] results[i]) is Ok,
        j == total + 1 ==> results[total as int] is Err,
    decreases j,
{
    if j > 0 {
        let p = (j - 1) as nat;
        lemma_attempts_at_rest(states, results, clocks, now, window, total, p);
        let keys = states[p as int];
        assert(attempted(
            keys,
            states[p as int + 1],
            now,
            window,
            Seq::empty(),
            clocks[p as int],
            results[p as int],
        ));
        lemma_attempt_at_rest(
            keys,
            states[p as int + 1],
            now,
            window,
            clocks[p as int],
            results[p as int],
        );
    }
}

proof fn lemma_snapshot_rests(before: Seq<KeyView>, now: Instant, window: Duration)
    ensures
        at_rest(all_settled(refreshed(before, now), now, window), now, window),
{
    let keys = refreshed(before, now);
    let settled = all_settled(keys, now, window);
    assert forall|i: int| 0 <= i < settled.len() implies (#[trigger] settled[i]).refreshed(now)
        == settled[i] && settled[i].settled(now, window) == settled[i] by {
        laws::law_settling_is_invisible(keys[i], now, now, window);
        assert(settled[i] == keys[i].settled(now, window));
        assert(keys[i] == before[i].refreshed(now));
    }
}

/// The free slots that a snapshot reports are the leases that follow at the same instant: as many
/// attempts succeed, and the next one fails.
pub proof fn law_reported_slots_are_leases(
    snap: PoolSnapshot,
    before: Seq<KeyView>,
    clock: Clock,
    window: Duration,
    states: Seq<Seq<KeyView>>,
    results: Seq<Result<Lease, Next>>,
    clocks: Seq<Clock>,
)
    requires
        window.nanos > 0,
        ({
            let keys = refreshed(before, clock.now);
            let settled = all_settled(keys, clock.now, window);
            &&& snap.sums_up(keys, settled, keys.len(), clock, window)
            &&& states[0] == settled
        }),
        forall|i: int|
            0 <= i <= snap.slots_available_now ==> attempted(
                states[i],
                states[i + 1],
                clock.now,
                window,
                Seq::empty(),
                clocks[i],
                #[trigger] results[i],
            ),
    ensures
        forall|i: int| 0 <= i < snap.slots_available_now ==> (#[trigger] results[i]) is Ok,
        results[snap.slots_available_now as int] is Err,
{
    lemma_snapshot_rests(before, clock.now, window);
    let total = snap.slots_available_now as nat;
    lemma_attempts_at_rest(states, results, clocks, clock.now, window, total, total + 1);
}

/// True if an attempt at `now` cannot tell the two keys apart.
spec fn alike(a: KeyView, b: KeyView, now: Instant, window: Duration) -> bool {
    &&& a.token == b.token
    &&& a.label == b.label
    &&& a.health == b.health
    &&& a.last_used == b.last_used
    &&& a.ranking_quota() == b.ranking_quota()
    &&& a.free(now, window) == b.free(now, window)
    &&& a.blocked_until(now, window) == b.blocked_until(now, window)
}

proof fn lemma_same_summary(p: Seq<KeyView>, q: Seq<KeyView>, clock: Clock, n: nat)
    requires
        n <= p.len() == q.len(),
        forall|i: int|
            0 <= i < p.len() ==> (#[trigger] p[i]).label == q[i].label && p[i].health
                == q[i].health,
    ensures
        pool::summary_text(p, clock, n) == pool::summary_text(q, clock, n),
    decreases n,
{
    if n > 0 {
        lemma_same_summary(p, q, clock, (n - 1) as nat);
        assert(p[n - 1].label == q[n - 1].label);
        assert(p[0].label == q[0].label);
    }
}

proof fn lemma_same_answer(
    p: Seq<KeyView>,
    q: Seq<KeyView>,
    after: Seq<KeyView>,
    now: Instant,
    window: Duration,
    exclude: Seq<usize>,
    clock: Clock,
    r: Result<Lease, Next>,
)
    requires
        p.len() == q.len(),
        refreshed(p, now) == p,
        refreshed(q, now) == q,
        forall|i: int| 0 <= i < p.len() ==> alike(#[trigger] p[i], q[i], now, window),
        attempted(p, after, now, window, exclude, clock, r),
    ensures
        exists|left: Seq<KeyView>| attempted(q, left, now, window, exclude, clock, r),
{
    let n = p.len() as int;
    let narrow = Ask { now, window, exclude, wide: false };
    assert forall|a: Ask, i: int| a.now == now && a.window == window && 0 <= i < n implies (
    #[trigger] a.healthy(p, i)) == a.healthy(q, i) && a.eligible(p, i) == a.eligible(q, i)
        && a.waiting(p, i) == a.waiting(q, i) by {
        assert(alike(p[i], q[i], now, window));
    }
    if narrow.some_healthy(p, n) {
        let i = choose|i: int| 0 <= i < n && #[trigger] narrow.healthy(p, i);
        assert(narrow.healthy(q, i));
    }
    if narrow.some_healthy(q, n) {
        let i = choose|i: int| 0 <= i < n && #[trigger] narrow.healthy(q, i);
        assert(narrow.healthy(p, i));
    }
    let ask = scope(p, now, window, exclude);
    assert(ask == scope(q, now, window, exclude));
    assert forall|i: int| 0 <= i < n implies alike(p[i], q[i], now, window) && ask.eligible(p, i)
        == #[trigger] ask.eligible(q, i) by {
        assert(ask.healthy(p, i) == ask.healthy(q, i));
    }
    assert forall|i: int| 0 <= i < n implies alike(p[i], q[i], now, window) && ask.waiting(p, i)
        == #[trigger] ask.waiting(q, i) by {
        assert(ask.healthy(p, i) == ask.healthy(q, i));
    }
    assert(ask.some_healthy(p, n) == ask.some_healthy(q, n)) by {
        if ask.some_healthy(p, n) {
            let i = choose|i: int| 0 <= i < n && #[trigger] ask.healthy(p, i);
            assert(ask.healthy(q, i));
        }
        if ask.some_healthy(q, n) {
            let i = choose|i: int| 0 <= i < n && #[trigger] ask.healthy(q, i);
            assert(ask.healthy(p, i));
        }
    }
    lemma_same_summary(p, q, clock, p.len());
    let settled = ask.settled(q, n);
    match r {
        Ok(lease) => {
            let b = lease.idx as int;
            assert(alike(p[b], q[b], now, window));
            assert(ask.is_choice(q, n, b)) by {
                assert(ask.eligible(q, b));
                assert forall|j: int|
                    0 <= j < n && j != b && #[trigger] ask.eligible(q, j) implies pool::key_before(
                    q[b],
                    q[j],
                ) || (!pool::key_before(q[j], q[b]) && b < j) by {
                    assert(ask.eligible(p, j));
                    assert(alike(p[j], q[j], now, window));
                }
            }
            let left = settled.update(b, settled[b].sent(now));
            assert(attempted(q, left, now, window, exclude, clock, r));
        },
        Err(failure) => {
            let at = match failure {
                Next::At(t) => Some(t),
                Next::Unavailable { earliest, .. } => earliest,
            };
            assert(ask.is_next(q, n, at)) by {
                if let Some(t) = at {
                    let i = choose|i: int|
                        0 <= i < n && #[trigger] ask.waiting(p, i) && p[i].blocked_until(
                            now,
                            window,
                        ) == t;
                    assert(ask.waiting(q, i));
                }
                assert forall|i: int| 0 <= i < n && #[trigger] ask.waiting(q, i) implies at
                    matches Some(t) && t.nanos <= q[i].blocked_until(now, window).nanos by {
                    assert(ask.waiting(p, i));
                }
            }
            assert(ask.none_eligible(q, n)) by {
                assert forall|i: int| 0 <= i < n implies !(#[trigger] ask.eligible(q, i)) by {
                    assert(!ask.eligible(p, i));
                }
            }
            assert(attempted(q, settled, now, window, exclude, clock, r));
        },
    }
}

/// Taking a snapshot does not change what a later attempt gives: it can come to a result on the
/// keys that the snapshot leaves behind exactly if it can on those before it.
pub proof fn law_snapshots_do_not_disturb(
    before: Seq<KeyView>,
    now: Instant,
    t: Instant,
    window: Duration,
    exclude: Seq<usize>,
    clock: Clock,
    r: Result<Lease, Next>,
)
    requires
        now.nanos <= t.nanos,
    ensures
        ({
            let rested = all_settled(refreshed(before, now), now, window);
            (exists|a: Seq<KeyView>| attempted(rested, a, t, window, exclude, clock, r)) <==> (
            exists|a: Seq<KeyView>| attempted(before, a, t, window, exclude, clock, r))
        }),
{
    let rested = all_settled(refreshed(before, now), now, window);
    let p = refreshed(before, t);
    let q = refreshed(rested, t);
    assert forall|i: int| 0 <= i < p.len() implies alike(#[trigger] p[i], q[i], t, window)
        && alike(q[i], p[i], t, window) by {
        let k = before[i].refreshed(now);
        assert(rested[i] == k.settled(now, window));
        laws::law_settling_is_invisible(k, now, t, window);
        if k.health is Healthy {
            assert(q[i] == k.settled(now, window));
            assert(p[i] == k);
        } else {
            assert(q[i] == p[i]);
        }
    }
    assert forall|i: int| 0 <= i < q.len() implies alike(#[trigger] q[i], p[i], t, window) by {
        assert(alike(p[i], q[i], t, window));
    }
    assert(refreshed(p, t) =~= p);
    assert(refreshed(q, t) =~= q);
    if exists|a: Seq<KeyView>| attempted(rested, a, t, window, exclude, clock, r) {
        let a = choose|a: Seq<KeyView>| attempted(rested, a, t, window, exclude, clock, r);
        assert(attempted(q, a, t, window, exclude, clock, r));
        lemma_same_answer(q, p, a, t, window, exclude, clock, r);
        let b = choose|b: Seq<KeyView>| attempted(p, b, t, window, exclude, clock, r);
        assert(attempted(before, b, t, window, exclude, clock, r));
    }
    if exists|a: Seq<KeyView>| attempted(before, a, t, window, exclude, clock, r) {
        let a = choose|a: Seq<KeyView>| attempted(before, a, t, window, exclude, clock, r);
        assert(attempted(p, a, t, window, exclude, clock, r));
        lemma_same_answer(p, q, a, t, window, exclude, clock, r);
        let b = choose|b: Seq<KeyView>| attempted(q, b, t, window, exclude, clock, r);
        assert(attempted(rested, b, t, window, exclude, clock, r));
    }
}

/// What a key knows of its leases is what happened: when it was last used is when it was last
/// handed out, and it counts as many requests as it was handed out for.
proof fn lemma_leases_are_known(
    states: Seq<Seq<KeyView>>,
    events: Seq<Event>,
    window: Duration,
    i: int,
    n: nat,
)
    requires
        is_run(states, events, window),
        n <= events.len(),
        0 <= i < states[0].len(),
        states[0][i].last_used is None,
        states[0][i].stats.requests == 0,
        events.len() <= u64::MAX,
    ensures
        states[n as int].len() == states[0].len(),
        ({
            let times = leases_of(events, i, n);
            &&& times.len() <= n
            &&& states[n as int][i].stats.requests == times.len()
            &&& states[n as int][i].last_used == if times.len() == 0 {
                None
            } else {
                Some(times.last())
            }
        }),
    decreases n,
{
    if n > 0 {
        let m = (n - 1) as nat;
        lemma_leases_are_known(states, events, window, i, m);
        let before = states[m as int];
        let after = states[m as int + 1];
        let event = events[m as int];
        assert(event.leads(before, after, window));
        match event {
            Event::Attempt { now, exclude, .. } => {
                let keys = refreshed(before, now);
                assert(keys[i] == before[i].refreshed(now));
                let settled = scope(keys, now, window, exclude).settled(keys, keys.len() as int);
                assert(settled[i].last_used == before[i].last_used);
            },
            Event::Snapshot { clock } => {
                assert(after[i] == before[i].refreshed(clock.now).settled(clock.now, window));
            },
            _ => {},
        }
    }
}

/// A key counts the requests that it was handed out for: over any run from a key that was never
/// used, as many as there were leases of it.
pub proof fn law_requests_are_leases(
    states: Seq<Seq<KeyView>>,
    events: Seq<Event>,
    window: Duration,
    i: int,
)
    requires
        is_run(states, events, window),
        0 <= i < states[0].len(),
        states[0][i].last_used is None,
        states[0][i].stats.requests == 0,
        events.len() <= u64::MAX,
    ensures
        states[events.len() as int][i].stats.requests == leases_of(events, i, events.len()).len(),
{
    lemma_leases_are_known(states, events, window, i, events.len());
}

/// The key that is handed out is the one that was handed out longest ago: over any run from keys
/// that were never used, if an attempt leases one key while another one is free, and the request
/// has not tried that other one any more than the one it gets, then the other one was leased at or
/// after the time of the last lease of the one it gets, if that was ever leased.
pub proof fn law_the_longest_unused_key_is_leased(
    states: Seq<Seq<KeyView>>,
    events: Seq<Event>,
    window: Duration,
    n: nat,
    now: Instant,
    exclude: Seq<usize>,
    clock: Clock,
    lease: Lease,
    other: int,
)
    requires
        is_run(states, events, window),
        n < events.len() <= u64::MAX,
        forall|k: int|
            0 <= k < states[0].len() ==> (#[trigger] states[0][k]).last_used is None
                && states[0][k].stats.requests == 0,
        events[n as int] == (Event::Attempt { now, exclude, clock, result: Ok(lease) }),
        0 <= other < states[0].len(),
        exclude.contains(other as usize) ==> exclude.contains(lease.idx),
        states[n as int][other].refreshed(now).free(now, window),
    ensures
        lease.idx < states[0].len(),
        ({
            let own = leases_of(events, lease.idx as int, n);
            let others = leases_of(events, other, n);
            own.len() > 0 ==> others.len() > 0 && own.last().nanos <= others.last().nanos
        }),
{
    let i = lease.idx as int;
    lemma_leases_are_known(states, events, window, other, n);
    let before = states[n as int];
    let keys = refreshed(before, now);
    let ask = scope(keys, now, window, exclude);
    assert(events[n as int].leads(before, states[n as int + 1], window));
    assert(ask.is_choice(keys, keys.len() as int, i));
    lemma_leases_are_known(states, events, window, i, n);
    assert(keys[i] == before[i].refreshed(now) && keys[other] == before[other].refreshed(now));
    assert(ask.eligible(keys, i));
    assert(ask.eligible(keys, other));
}

proof fn lemma_last_lease(events: Seq<Event>, i: int, n: nat, a: int)
    requires
        n <= events.len(),
        0 <= a < n,
        events[a].leases(i),
        forall|j: int, k: int|
            0 <= j <= k < events.len() ==> (#[trigger] events[j]).time().nanos <= (
            #[trigger] events[k]).time().nanos,
    ensures
        leases_of(events, i, n).len() > 0,
        events[a].time().nanos <= leases_of(events, i, n).last().nanos,
    decreases n,
{
    if !events[n - 1].leases(i) {
        lemma_last_lease(events, i, (n - 1) as nat, a);
    }
}

proof fn lemma_leases_happened(events: Seq<Event>, i: int, n: nat)
    requires
        n <= events.len(),
        leases_of(events, i, n).len() > 0,
    ensures
        exists|c: int|
            0 <= c < n && (#[trigger] events[c]).leases(i) && events[c].time() == leases_of(
                events,
                i,
                n,
            ).last(),
    decreases n,
{
    if events[n - 1].leases(i) {
        assert(events[n - 1].time() == leases_of(events, i, n).last());
    } else {
        lemma_leases_happened(events, i, (n - 1) as nat);
    }
}

/// Free keys take turns: if a key is leased a second time while another one is free that the
/// request has not tried, then that other one was leased no earlier than the first time.
pub proof fn law_free_keys_take_turns(
    states: Seq<Seq<KeyView>>,
    events: Seq<Event>,
    window: Duration,
    a: int,
    b: int,
    now: Instant,
    exclude: Seq<usize>,
    clock: Clock,
    lease: Lease,
    other: int,
)
    requires
        is_run(states, events, window),
        0 <= a < b < events.len() <= u64::MAX,
        forall|k: int|
            0 <= k < states[0].len() ==> (#[trigger] states[0][k]).last_used is None
                && states[0][k].stats.requests == 0,
        events[a].leases(lease.idx as int),
        events[b] == (Event::Attempt { now, exclude, clock, result: Ok(lease) }),
        0 <= other < states[0].len(),
        !exclude.contains(other as usize),
        states[b][other].refreshed(now).free(now, window),
    ensures
        exists|c: int|
            0 <= c < b && (#[trigger] events[c]).leases(other) && events[a].time().nanos
                <= events[c].time().nanos,
{
    law_the_longest_unused_key_is_leased(
        states,
        events,
        window,
        b as nat,
        now,
        exclude,
        clock,
        lease,
        other,
    );
    lemma_last_lease(events, lease.idx as int, b as nat, a);
    lemma_leases_happened(events, other, b as nat);
}

} // verus!
