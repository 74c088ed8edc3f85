//! What holds of one key, whatever it went through before.

use vstd::prelude::*;

use crate::clock::{Duration, Instant};
use crate::key::{self, backoff_secs, label_of, live_sends, HealthView, KeyView};
use crate::laws;
use crate::outcome::{self, digested, verdict_of, OutcomeView, Verdict};
use crate::ratelimit::{RateLimitInfo, Windows};
use crate::text;

verus! {

/// True if two states of a key agree on its plan.
pub open spec fn same_plan(a: KeyView, b: KeyView) -> bool {
    &&& a.sec_limit == b.sec_limit
    &&& a.limits_learned == b.limits_learned
    &&& a.month_limit == b.month_limit
    &&& a.month_remaining == b.month_remaining
    &&& a.month_reset_at == b.month_reset_at
    &&& a.monthly_cap_override == b.monthly_cap_override
}

/// True if two states of a key agree on the record of its failures.
pub open spec fn same_record(a: KeyView, b: KeyView) -> bool {
    &&& a.consecutive_failures == b.consecutive_failures
    &&& a.consecutive_429 == b.consecutive_429
    &&& a.disable_strikes == b.disable_strikes
    &&& a.disabled_since == b.disabled_since
}

/// True if two states of a key agree on which key it is.
pub open spec fn same_key(a: KeyView, b: KeyView) -> bool {
    a.token == b.token && a.label == b.label
}

/// True if two states of a key agree on the requests that were sent with it.
pub open spec fn same_sends(a: KeyView, b: KeyView) -> bool {
    a.sends == b.sends && a.last_used == b.last_used && a.stats.requests == b.stats.requests
}

/// A send is the last of the sends and the last use, whatever was before, and counts as one
/// request. The key is being probed exactly if it has strikes. Nothing else changes.
pub proof fn law_sends_are_noted(k: KeyView, now: Instant)
    requires
        k.stats.requests < u64::MAX,
    ensures
        ({
            let s = k.sent(now);
            &&& s.last_used == Some(now)
            &&& s.sends.len() == k.sends.len() + 1
            &&& s.sends.last() == now
            &&& s.sends.drop_last() == k.sends
            &&& s.stats.requests == k.stats.requests + 1
            &&& s.probing <==> k.disable_strikes > 0
            &&& s.health == k.health
            &&& s.hold_until == k.hold_until
            &&& s.last_ok == k.last_ok
            &&& s.cycle_ok == k.cycle_ok
            &&& s.stats.ok == k.stats.ok
            &&& s.stats.upstream_429 == k.stats.upstream_429
            &&& s.stats.client_4xx == k.stats.client_4xx
            &&& s.stats.server_5xx == k.stats.server_5xx
            &&& s.stats.transport_errors == k.stats.transport_errors
            &&& s.stats.last_status == k.stats.last_status
            &&& s.stats.last_error == k.stats.last_error
            &&& same_plan(s, k)
            &&& same_record(s, k)
            &&& same_key(s, k)
        }),
{
    assert(k.sends.push(now).drop_last() =~= k.sends);
}

/// A send counts while it is less than a window ago: if the first `gone` sends are a window ago or
/// more, and the next one is less, the sends after those count.
pub proof fn law_sends_count_for_a_window(
    sends: Seq<Instant>,
    now: Instant,
    window: Duration,
    gone: int,
)
    requires
        0 <= gone <= sends.len(),
        forall|i: int|
            0 <= i < gone ==> (#[trigger] sends[i]).nanos + window.nanos <= now.nanos,
        gone < sends.len() ==> sends[gone].nanos + window.nanos > now.nanos,
        window.nanos > 0,
    ensures
        live_sends(sends, now, window) == sends.skip(gone),
    decreases gone,
{
    if gone > 0 {
        assert(sends[0].nanos + window.nanos <= now.nanos);
        let rest = sends.drop_first();
        assert forall|i: int| 0 <= i < gone - 1 implies (#[trigger] rest[i]).nanos + window.nanos
            <= now.nanos by {
            assert(rest[i] == sends[i + 1]);
        }
        law_sends_count_for_a_window(rest, now, window, gone - 1);
        assert(rest.skip(gone - 1) =~= sends.skip(gone));
    } else {
        assert(sends.skip(0) =~= sends);
    }
}

/// A request may be sent with a key exactly if it is healthy, no hold lasts beyond now, it is not
/// being probed, and fewer sends are inside the window than the plan allows in a second, or none
/// if the key has strikes.
pub proof fn law_when_a_key_is_free(k: KeyView, now: Instant, window: Duration, gone: int)
    requires
        k.wf(),
        0 <= gone <= k.sends.len(),
        forall|i: int|
            0 <= i < gone ==> (#[trigger] k.sends[i]).nanos + window.nanos <= now.nanos,
        gone < k.sends.len() ==> k.sends[gone].nanos + window.nanos > now.nanos,
        window.nanos > 0,
    ensures
        k.free(now, window) <==> {
            &&& k.health is Healthy
            &&& k.hold_until matches Some(h) ==> h.nanos <= now.nanos
            &&& !k.probing
            &&& k.disable_strikes == 0 ==> k.sends.len() - gone < k.sec_limit
            &&& k.disable_strikes > 0 ==> k.sends.len() == gone
        },
{
    law_sends_count_for_a_window(k.sends, now, window, gone);
}

/// Settling a key forgets nothing but a hold that is over and sends that do not count any more.
pub proof fn law_settling_keeps_the_rest(k: KeyView, now: Instant, window: Duration)
    ensures
        ({
            let s = k.settled(now, window);
            &&& s.health == k.health
            &&& s.probing == k.probing
            &&& s.last_used == k.last_used
            &&& s.last_ok == k.last_ok
            &&& s.cycle_ok == k.cycle_ok
            &&& s.stats == k.stats
            &&& same_plan(s, k)
            &&& same_record(s, k)
            &&& same_key(s, k)
            &&& k.hold_until matches Some(h) ==> (h.nanos > now.nanos ==> s == k)
            &&& !(k.health is Healthy) ==> s == k
            &&& k.health is Healthy && (k.hold_until matches Some(h) ==> h.nanos <= now.nanos)
                ==> s.hold_until is None && s.sends == live_sends(k.sends, now, window)
        }),
{
}

/// A key that was never used is healthy, free and without any record. It may burst as configured,
/// but always at least one request/second.
pub proof fn law_fresh_keys_are_ready(
    idx: nat,
    token: Seq<char>,
    default_rps: u32,
    cap: Option<u64>,
    now: Instant,
    window: Duration,
)
    ensures
        ({
            let k = KeyView::fresh(idx, token, default_rps, cap);
            &&& k.wf()
            &&& k.token == token
            &&& k.label == label_of(idx, token)
            &&& k.monthly_cap_override == cap
            &&& k.free(now, window)
            &&& k.sec_limit >= 1
            &&& default_rps >= 1 ==> k.sec_limit == default_rps
            &&& default_rps == 0 ==> k.sec_limit == 1
            &&& !k.limits_learned
            &&& k.month_limit is None && k.month_remaining is None && k.month_reset_at is None
            &&& k.last_used is None && k.last_ok is None
            &&& k.stats.requests == 0 && k.stats.ok == 0 && k.stats.upstream_429 == 0
            &&& k.stats.client_4xx == 0 && k.stats.server_5xx == 0
            &&& k.stats.transport_errors == 0
            &&& k.stats.last_status is None && k.stats.last_error is None
            &&& k.consecutive_failures == 0 && k.consecutive_429 == 0
            &&& k.disable_strikes == 0 && k.disabled_since is None
            &&& k.cycle_ok == 0
            &&& k.slots() == k.sec_limit
        }),
{
}

/// A label shows the position, counted from one, and no more of a token than its last four
/// characters.
pub proof fn law_labels_show_the_end(idx: nat, head: Seq<char>, tail: Seq<char>)
    requires
        tail.len() == 4 || tail.len() < 4 && head.len() == 0,
    ensures
        label_of(idx, head + tail) == "k"@ + text::dec(idx + 1) + ":.."@ + tail,
{
    let token = head + tail;
    if head.len() > 0 {
        assert(token.skip(token.len() - 4) =~= tail);
    } else {
        assert(token =~= tail);
    }
}

/// A cooldown ends at its time and not before. Where it ends, the key is healthy, and what was
/// known of the month that is over is forgotten; everything else stays.
pub proof fn law_cooldowns_end_in_time(k: KeyView, now: Instant)
    ensures
        ({
            let r = k.refreshed(now);
            let over = match k.health {
                HealthView::Healthy => true,
                HealthView::Disabled { until, .. } => until.nanos <= now.nanos,
                HealthView::Exhausted { until } => until.nanos <= now.nanos,
            };
            &&& over <==> r.health is Healthy
            &&& !over ==> r == k
            &&& k.health is Healthy ==> r == k
            &&& over && k.health is Exhausted ==> r.month_remaining is None && r.month_reset_at
                is None && r.cycle_ok == 0
            &&& !(k.health is Exhausted) ==> same_plan(r, k) && r.cycle_ok == k.cycle_ok
            &&& r.sec_limit == k.sec_limit
            &&& r.limits_learned == k.limits_learned
            &&& r.month_limit == k.month_limit
            &&& r.monthly_cap_override == k.monthly_cap_override
            &&& r.hold_until == k.hold_until
            &&& r.probing == k.probing
            &&& r.last_ok == k.last_ok
            &&& r.stats == k.stats
            &&& same_sends(r, k)
            &&& same_record(r, k)
            &&& same_key(r, k)
        }),
{
}

/// A key with a cap of its own has what its successes leave of the cap. One without has what Brave
/// says is left, and plenty if Brave has not said or the plan has no monthly cap.
pub proof fn law_quota_left(k: KeyView)
    ensures
        k.unlimited() <==> k.monthly_cap_override is None && k.month_limit == Some(0u64),
        k.monthly_cap_override matches Some(cap) ==> {
            &&& k.month_used() == k.cycle_ok
            &&& k.cycle_ok <= cap ==> k.ranking_quota() + k.cycle_ok == cap
            &&& k.cycle_ok > cap ==> k.ranking_quota() == 0
            &&& k.cap_used_up() <==> k.cycle_ok >= cap
        },
        k.monthly_cap_override is None ==> {
            &&& !k.cap_used_up()
            &&& k.month_remaining is None ==> k.month_used() == 0 && k.ranking_quota() == u64::MAX
            &&& k.month_limit is None ==> k.month_used() == 0
            &&& k.month_limit == Some(0u64) ==> k.month_used() == 0 && k.ranking_quota()
                == u64::MAX
            &&& k.month_remaining matches Some(r) ==> (k.month_limit != Some(0u64)
                ==> k.ranking_quota() == r)
            &&& k.month_limit matches Some(l) ==> (k.month_remaining matches Some(r) ==> {
                &&& r <= l ==> k.month_used() + r == l
                &&& r > l ==> k.month_used() == 0
            })
        },
{
}

/// A key that is being probed is asked about again a window later, or as soon as anything else that
/// keeps it busy lets go of it, whichever is later.
pub proof fn law_probes_are_given_a_window(k: KeyView, now: Instant, window: Duration)
    requires
        k.probing,
        now.in_range(),
        window.nanos <= key::WINDOW_MAX,
    ensures
        !k.free(now, window),
        ({
            let at = k.blocked_until(now, window).nanos;
            let unprobed = KeyView { probing: false, ..k };
            &&& at >= now.nanos + window.nanos
            &&& unprobed.free(now, window) ==> at == now.nanos + window.nanos
            &&& !unprobed.free(now, window) && unprobed.blocked_until(now, window).nanos
                <= now.nanos + window.nanos ==> at == now.nanos + window.nanos
            &&& !unprobed.free(now, window) && unprobed.blocked_until(now, window).nanos
                > now.nanos + window.nanos ==> at == unprobed.blocked_until(now, window).nanos
        }),
{
}

/// The monthly figures of a response replace what was known before, whatever that was and whatever
/// the status: the limit always, the quota that is left and the time of the reset unless the
/// response parks the key. Figures that a response does not carry stay as they were.
pub proof fn law_monthly_figures_are_cached(
    k: KeyView,
    now: Instant,
    status: u16,
    rl: RateLimitInfo,
    body_snippet: Option<Seq<char>>,
)
    requires
        now.in_range(),
    ensures
        ({
            let after = digested(
                k,
                now,
                OutcomeView::Response { status, rl: Some(rl), body_snippet },
            );
            let parks = after.health is Exhausted && (200 <= status <= 299 || status == 429);
            &&& rl.limit.month matches Some(l) ==> after.month_limit == Some(l)
            &&& rl.limit.month is None ==> after.month_limit == k.month_limit
            &&& rl.remaining.month matches Some(r) ==> (!parks ==> after.month_remaining
                == Some(r))
            &&& !parks && rl.remaining.month is None ==> after.month_remaining
                == k.month_remaining
            &&& rl.reset.month matches Some(s) ==> (!parks ==> after.month_reset_at == Some(
                Instant { nanos: (now.nanos + s * 1_000_000_000) as u128 },
            ))
            &&& !parks && rl.reset.month is None ==> after.month_reset_at == k.month_reset_at
        }),
{
}

/// An outcome without rate limits leaves what is known of the plan as it is, unless it parks the
/// key.
pub proof fn law_plans_are_kept(k: KeyView, now: Instant, o: OutcomeView)
    requires
        !(o matches OutcomeView::Response { rl: Some(_), .. }),
    ensures
        ({
            let after = digested(k, now, o);
            let succeeded = o matches OutcomeView::Response { status, .. } && 200 <= status <= 299;
            &&& after.sec_limit == k.sec_limit
            &&& after.limits_learned == k.limits_learned
            &&& after.month_limit == k.month_limit
            &&& !succeeded || !(after.health is Exhausted) ==> same_plan(after, k)
        }),
{
}

/// What a response says about the month is known until another one says otherwise: an outcome that
/// does not mention a figure, and does not park the key, leaves it.
pub proof fn law_cached_figures_last(
    k: KeyView,
    now: Instant,
    status: u16,
    rl: RateLimitInfo,
    body_snippet: Option<Seq<char>>,
    later: Instant,
    o: OutcomeView,
)
    requires
        now.in_range(),
        later.in_range(),
    ensures
        ({
            let first = digested(
                k,
                now,
                OutcomeView::Response { status, rl: Some(rl), body_snippet },
            );
            let second = digested(first, later, o);
            let told = match o {
                OutcomeView::Response { rl: Some(other), .. } => other,
                _ => RateLimitInfo {
                    limit: Windows { second: None, month: None },
                    remaining: Windows { second: None, month: None },
                    reset: Windows { second: None, month: None },
                    window: Windows { second: None, month: None },
                    retry_after: None,
                },
            };
            let parked = first.health is Exhausted || second.health is Exhausted;
            &&& rl.limit.month matches Some(l) ==> (told.limit.month is None ==> second.month_limit
                == Some(l))
            &&& rl.remaining.month matches Some(r) ==> (told.remaining.month is None && !parked
                ==> second.month_remaining == Some(r))
            &&& rl.reset.month is Some && told.reset.month is None && !parked
                ==> second.month_reset_at == first.month_reset_at
        }),
{
    law_monthly_figures_are_cached(k, now, status, rl, body_snippet);
}

/// The per-second figure of a response is believed up to a thousand, and one of zero not at all.
pub proof fn law_bursts_are_learned(
    k: KeyView,
    now: Instant,
    status: u16,
    rl: RateLimitInfo,
    body_snippet: Option<Seq<char>>,
)
    ensures
        ({
            let after = digested(
                k,
                now,
                OutcomeView::Response { status, rl: Some(rl), body_snippet },
            );
            &&& rl.limit.second matches Some(l) ==> {
                &&& 1 <= l <= 1000 ==> after.sec_limit == l
                &&& l > 1000 ==> after.sec_limit == 1000
            }
            &&& rl.limit.second is None || rl.limit.second == Some(0u64) ==> after.sec_limit
                == k.sec_limit
            &&& after.limits_learned <==> k.limits_learned || rl.limit.second is Some
                || rl.limit.month is Some
        }),
{
}

/// What to do after a response goes by its status alone: one in the two hundreds is a success,
/// 401, 403, 429 and the five hundreds are worth another key, and the rest is the client's.
pub proof fn law_verdicts_go_by_the_status(o: OutcomeView)
    ensures
        match o {
            OutcomeView::Transport(_) => verdict_of(o) == Verdict::RetryOtherKey,
            OutcomeView::Response { status, .. } => {
                &&& verdict_of(o) == Verdict::Success <==> 200 <= status <= 299
                &&& verdict_of(o) == Verdict::RetryOtherKey <==> status == 401 || status == 403
                    || status == 429 || 500 <= status <= 599
            },
        },
{
}

/// The text of an error is its status and, after a colon, what the body begins with, if there is
/// anything.
pub proof fn law_errors_quote_the_body(status: u16, s: Seq<char>)
    requires
        s.len() > 0,
    ensures
        outcome::status_text(status, None) == "HTTP "@ + text::dec(status as nat),
        outcome::status_text(status, Some(Seq::empty())) == outcome::status_text(status, None),
        outcome::status_text(status, Some(s)) == outcome::status_text(status, None) + ": "@ + s,
{
    let head = "HTTP "@ + text::dec(status as nat);
    assert(outcome::status_text(status, None) =~= head);
    assert(outcome::status_text(status, Some(Seq::empty())) =~= head);
    assert(outcome::status_text(status, Some(s)) =~= head + ": "@ + s);
}

/// Any outcome ends a probe, and none touches the sends, the last use or which key it is. Only a
/// success is a last success and counts in the cycle.
pub proof fn law_outcomes_keep_the_rest(k: KeyView, now: Instant, o: OutcomeView)
    ensures
        ({
            let after = digested(k, now, o);
            let succeeded = o matches OutcomeView::Response { status, .. } && 200 <= status <= 299;
            &&& !after.probing
            &&& same_sends(after, k)
            &&& same_key(after, k)
            &&& after.monthly_cap_override == k.monthly_cap_override
            &&& !succeeded ==> after.last_ok == k.last_ok && after.cycle_ok == k.cycle_ok
                && after.stats.ok == k.stats.ok
        }),
{
}

/// Every outcome is counted once, under what it is: a success, a 429, another rejection, a server
/// error or a transport error. The last status is the one of the response, and none after a
/// transport error; the last error is the text of the outcome, none after a success.
pub proof fn law_outcomes_are_counted(k: KeyView, now: Instant, o: OutcomeView)
    requires
        outcome::countable(k, o),
    ensures
        ({
            let a = digested(k, now, o).stats;
            let b = k.stats;
            match o {
                OutcomeView::Transport(e) => {
                    &&& a.transport_errors == b.transport_errors + 1
                    &&& a.ok == b.ok && a.upstream_429 == b.upstream_429
                    &&& a.client_4xx == b.client_4xx && a.server_5xx == b.server_5xx
                    &&& a.last_status is None
                    &&& a.last_error == Some(e)
                },
                OutcomeView::Response { status, body_snippet, .. } => {
                    &&& a.transport_errors == b.transport_errors
                    &&& a.ok == b.ok + if 200 <= status <= 299 { 1int } else { 0 }
                    &&& a.upstream_429 == b.upstream_429 + if status == 429 { 1int } else { 0 }
                    &&& a.client_4xx == b.client_4xx + if 400 <= status <= 499 && status != 429 {
                        1int
                    } else {
                        0
                    }
                    &&& a.server_5xx == b.server_5xx + if 500 <= status <= 599 { 1int } else { 0 }
                    &&& a.last_status == Some(status)
                    &&& 200 <= status <= 299 ==> a.last_error is None
                    &&& status == 429 ==> a.last_error == Some(
                        "HTTP 429"@ + outcome::detail_text(body_snippet),
                    )
                    &&& 400 <= status <= 599 && status != 429 ==> a.last_error == Some(
                        outcome::status_text(status, body_snippet),
                    )
                    &&& !(200 <= status <= 299) && !(400 <= status <= 599) ==> a.last_error
                        == b.last_error
                },
            }
        }),
{
}

/// A response that is neither a success nor the fault of the key leaves the key alone: whether it
/// is healthy, held or has strikes is as before. If it carries no rate limits and no probe was out,
/// the key is free at any time exactly if it was free then before.
pub proof fn law_client_faults_leave_the_key_alone(
    k: KeyView,
    now: Instant,
    status: u16,
    rl: Option<RateLimitInfo>,
    body_snippet: Option<Seq<char>>,
    t: Instant,
    window: Duration,
)
    requires
        !(200 <= status <= 299),
        status != 401,
        status != 403,
        status != 429,
        !(500 <= status <= 599),
    ensures
        ({
            let o = OutcomeView::Response { status, rl, body_snippet };
            let after = digested(k, now, o);
            &&& verdict_of(o) == Verdict::ReturnToClient
            &&& after.health == k.health
            &&& after.hold_until == k.hold_until
            &&& after.disable_strikes == k.disable_strikes
            &&& after.disabled_since == k.disabled_since
            &&& after.consecutive_429 == k.consecutive_429
            &&& after.consecutive_failures == 0
            &&& after.sends == k.sends
            &&& rl is None ==> same_plan(after, k)
            &&& rl is None && !k.probing ==> after.free(t, window) == k.free(t, window)
            &&& rl is None && !k.probing ==> after.refreshed(t).free(t, window) == k.refreshed(
                t,
            ).free(t, window)
        }),
{
}

/// A success wipes the record of failures, is the last success, counts once in the cycle and
/// leaves holds alone. The key stays in the health it was in, unless the month is used up.
pub proof fn law_successes_are_noted(
    k: KeyView,
    now: Instant,
    status: u16,
    rl: Option<RateLimitInfo>,
    body_snippet: Option<Seq<char>>,
)
    requires
        200 <= status <= 299,
        k.wf(),
        k.stats.ok < u64::MAX,
    ensures
        ({
            let after = digested(k, now, OutcomeView::Response { status, rl, body_snippet });
            let capped = k.monthly_cap_override matches Some(cap) && k.cycle_ok + 1 >= cap;
            let spent = rl matches Some(r) && r.remaining.month == Some(0u64);
            &&& after.last_ok == Some(now)
            &&& after.cycle_ok == k.cycle_ok + 1
            &&& after.consecutive_failures == 0
            &&& after.consecutive_429 == 0
            &&& after.disable_strikes == 0
            &&& after.disabled_since is None
            &&& after.hold_until == k.hold_until
            &&& !capped && !spent ==> after.health == k.health
            &&& capped ==> after.health is Exhausted
        }),
{
}

/// A month that is used up parks the key until the reset that the response reports. Without one it
/// is parked for six hours if Brave says that nothing is left, and for thirty days if it is the
/// key's own cap that is used up.
pub proof fn law_parked_until_the_reset(
    k: KeyView,
    now: Instant,
    status: u16,
    rl: Option<RateLimitInfo>,
    body_snippet: Option<Seq<char>>,
)
    requires
        now.in_range(),
        k.wf(),
        k.stats.ok < u64::MAX,
        200 <= status <= 299 || status == 429,
    ensures
        ({
            let after = digested(k, now, OutcomeView::Response { status, rl, body_snippet });
            let capped = 200 <= status <= 299 && (k.monthly_cap_override matches Some(cap)
                && k.cycle_ok + 1 >= cap);
            let uncapped = match rl {
                Some(r) if r.limit.month is Some => r.limit.month == Some(0u64),
                _ => k.month_limit == Some(0u64),
            };
            let spent = rl matches Some(r) && r.remaining.month == Some(0u64) && !uncapped;
            let reported = match rl {
                Some(r) => r.reset.month,
                None => None,
            };
            let secs = match reported {
                Some(s) => s as nat,
                None => if spent { 6 * 60 * 60 } else { 30 * 24 * 60 * 60 },
            };
            let until = Instant { nanos: (now.nanos + secs * 1_000_000_000) as u128 };
            &&& capped || spent ==> {
                &&& after.health == (HealthView::Exhausted { until })
                &&& after.month_remaining == Some(0u64)
                &&& after.month_reset_at == Some(until)
            }
            &&& !capped && !spent && 200 <= status <= 299 ==> after.health == k.health
            &&& !capped && !spent && !(k.health is Exhausted) ==> !(after.health is Exhausted)
            &&& spent && status == 429 ==> {
                &&& after.hold_until == k.hold_until
                &&& after.disable_strikes == k.disable_strikes
                &&& after.disabled_since == k.disabled_since
                &&& k.consecutive_429 < u32::MAX ==> after.consecutive_429 == k.consecutive_429 + 1
                &&& after.consecutive_failures == 0
            }
        }),
{
}

/// A 429 that does not say the month is used up holds the key from now on for as long as it asks,
/// two seconds if it carries no rate limits, and is one more since the last success. It is no
/// failure of the key: strikes stay, except that the fifth one without rate limits disables it.
pub proof fn law_limits_hold_the_key(
    k: KeyView,
    now: Instant,
    rl: Option<RateLimitInfo>,
    body_snippet: Option<Seq<char>>,
)
    requires
        now.in_range(),
        k.consecutive_429 < u32::MAX,
        rl matches Some(r) ==> r.remaining.month != Some(0u64) || r.limit.month == Some(0u64)
            || r.limit.month is None && k.month_limit == Some(0u64),
    ensures
        ({
            let after = digested(k, now, OutcomeView::Response { status: 429, rl, body_snippet });
            let secs = match rl {
                Some(r) => r.wait_secs(),
                None => 2,
            };
            &&& after.hold_until == Some(
                Instant { nanos: (now.nanos + secs * 1_000_000_000) as u128 },
            )
            &&& after.consecutive_failures == 0
            &&& rl is Some || k.consecutive_429 < 4 ==> {
                &&& after.health == k.health
                &&& after.consecutive_429 == k.consecutive_429 + 1
                &&& after.disable_strikes == k.disable_strikes
                &&& after.disabled_since == k.disabled_since
            }
            &&& rl is None && k.consecutive_429 >= 4 ==> {
                &&& after.health == (HealthView::Disabled {
                    until: Instant { nanos: (now.nanos + 300 * 1_000_000_000) as u128 },
                    reason: text::dec(k.consecutive_429 as nat + 1)
                        + " consecutive 429s without rate-limit headers"@ + outcome::detail_text(
                        body_snippet,
                    ),
                })
                &&& after.consecutive_429 == 0
                &&& k.disable_strikes < u32::MAX ==> after.disable_strikes == k.disable_strikes
                    + 1
            }
        }),
{
    let strikes = if k.disable_strikes < u32::MAX {
        (k.disable_strikes + 1) as nat
    } else {
        u32::MAX as nat
    };
    lemma_backoff_stays(300, 300, strikes);
}

proof fn lemma_doublings(n: nat)
    ensures
        key::doublings(n) >= 1,
    decreases n,
{
    if n > 0 {
        lemma_doublings((n - 1) as nat);
    }
}

/// A backoff is never shorter than its base.
proof fn lemma_backoff_stays(base: nat, max: nat, strikes: nat)
    requires
        base <= max,
    ensures
        base <= backoff_secs(base, max, strikes) <= max,
{
    let exponent = if strikes <= 1 {
        0
    } else if strikes - 1 > 16 {
        16
    } else {
        (strikes - 1) as nat
    };
    lemma_doublings(exponent);
    let d = key::doublings(exponent);
    assert(base * d >= base) by (nonlinear_arith)
        requires
            d >= 1,
    ;
}

/// How long a key is disabled for: the base at the first strike, twice as long with each one more,
/// and never longer than the maximum.
pub open spec fn cooldown(base: nat, max: nat, strikes: nat) -> nat
    decreases strikes,
{
    if strikes <= 1 {
        base
    } else {
        let twice = 2 * cooldown(base, max, (strikes - 1) as nat);
        if twice <= max {
            twice
        } else {
            max
        }
    }
}

proof fn lemma_cooldown(base: nat, max: nat, strikes: nat)
    requires
        base <= max <= base * 65536,
        1 <= strikes,
    ensures
        backoff_secs(base, max, strikes) == cooldown(base, max, strikes),
    decreases strikes,
{
    laws::law_backoff_doubles(base, max, 1);
    if strikes > 1 {
        lemma_cooldown(base, max, (strikes - 1) as nat);
        laws::law_backoff_doubles(base, max, (strikes - 1) as nat);
    }
}

/// A rejected key is disabled at once, for five minutes at the first strike, twice as long with
/// each one more, and an hour at most. It counts as disabled from its first strike on.
pub proof fn law_rejection_disables(
    k: KeyView,
    now: Instant,
    status: u16,
    rl: Option<RateLimitInfo>,
    body_snippet: Option<Seq<char>>,
)
    requires
        now.in_range(),
        status == 401 || status == 403,
        k.disable_strikes < u32::MAX,
    ensures
        ({
            let after = digested(k, now, OutcomeView::Response { status, rl, body_snippet });
            let secs = cooldown(300, 3600, k.disable_strikes as nat + 1);
            &&& after.health == (HealthView::Disabled {
                until: Instant { nanos: (now.nanos + secs * 1_000_000_000) as u128 },
                reason: outcome::status_text(status, body_snippet),
            })
            &&& after.disable_strikes == k.disable_strikes + 1
            &&& after.disabled_since == match k.disabled_since {
                Some(t) => Some(t),
                None => Some(now),
            }
            &&& after.consecutive_failures == 0
            &&& after.consecutive_429 == 0
            &&& after.hold_until == k.hold_until
        }),
{
    lemma_cooldown(300, 3600, k.disable_strikes as nat + 1);
}

/// A server error or a transport error is one more failure in a row. The third one disables the
/// key, for thirty seconds at the first strike, twice as long with each one more, and ten minutes
/// at most; before that it does nothing to the key.
pub proof fn law_failures_add_up(k: KeyView, now: Instant, o: OutcomeView)
    requires
        now.in_range(),
        k.wf(),
        k.disable_strikes < u32::MAX,
        match o {
            OutcomeView::Transport(_) => true,
            OutcomeView::Response { status, .. } => 500 <= status <= 599,
        },
    ensures
        ({
            let after = digested(k, now, o);
            let what = match o {
                OutcomeView::Transport(e) => "transport error: "@ + e,
                OutcomeView::Response { status, body_snippet, .. } => outcome::status_text(
                    status,
                    body_snippet,
                ),
            };
            let secs = cooldown(30, 600, k.disable_strikes as nat + 1);
            &&& after.hold_until == k.hold_until
            &&& k.consecutive_failures < 2 ==> {
                &&& after.consecutive_failures == k.consecutive_failures + 1
                &&& after.consecutive_429 == k.consecutive_429
                &&& after.health == k.health
                &&& after.disable_strikes == k.disable_strikes
                &&& after.disabled_since == k.disabled_since
            }
            &&& k.consecutive_failures >= 2 ==> {
                &&& after.health == (HealthView::Disabled {
                    until: Instant { nanos: (now.nanos + secs * 1_000_000_000) as u128 },
                    reason: what + " ("@ + text::dec(k.consecutive_failures as nat + 1)
                        + " consecutive failures)"@,
                })
                &&& after.disable_strikes == k.disable_strikes + 1
                &&& after.disabled_since == match k.disabled_since {
                    Some(t) => Some(t),
                    None => Some(now),
                }
                &&& after.consecutive_failures == 0
                &&& after.consecutive_429 == 0
            }
        }),
{
    lemma_cooldown(30, 600, k.disable_strikes as nat + 1);
}

/// A monthly limit is written as its number, but one of zero as what it means.
pub proof fn law_limits_of_zero_are_none(v: u64)
    ensures
        v > 0 ==> key::quota_text(v) == text::dec(v as nat),
        key::quota_text(0) == "unlimited"@,
{
}

} // verus!
