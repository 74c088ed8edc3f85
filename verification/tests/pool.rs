use brave_rotator::clock::{Clock, Duration, Instant};
use brave_rotator::key::{Health, KeyState, AUTH_BACKOFF_BASE};
use brave_rotator::outcome::{Outcome, Verdict};
use brave_rotator::pool::{AcquireError, Next, Pool, PoolConfig, Step};
use brave_rotator::ratelimit::{RateLimitInfo, Windows};

fn pool(n: usize) -> Pool {
    let keys: Vec<String> = (0..n).map(|i| format!("BSA{i:04}key")).collect();
    Pool::new(
        &keys,
        PoolConfig {
            window_margin: Duration::from_millis(100),
            default_rps: 1,
            monthly_limits: Vec::new(),
        },
    )
}

fn rl(limit: (u64, u64), remaining: (u64, u64), reset: (u64, u64)) -> RateLimitInfo {
    RateLimitInfo {
        limit: Windows { second: Some(limit.0), month: Some(limit.1) },
        remaining: Windows { second: Some(remaining.0), month: Some(remaining.1) },
        reset: Windows { second: Some(reset.0), month: Some(reset.1) },
        ..Default::default()
    }
}

fn start() -> Instant {
    Instant { nanos: 7_000_000_000_000 }
}

/// A reading of the clocks at `now`: the wall clock shows 2026-09-03T20:41:07Z at `start`.
fn clock(now: Instant) -> Clock {
    Clock { now, wall: 1_788_468_067_000_000_000 + now.nanos - start().nanos }
}

fn ms(t: Instant, millis: u64) -> Instant {
    t.plus(Duration::from_millis(millis))
}

fn secs(t: Instant, secs: u64) -> Instant {
    t.plus(Duration::from_secs(secs))
}

#[test]
fn rotates_round_robin_and_respects_per_second_window() {
    let mut p = pool(3);
    let t0 = start();
    let a = p.try_acquire(t0, &[], &clock(t0)).unwrap();
    let b = p.try_acquire(t0, &[], &clock(t0)).unwrap();
    let c = p.try_acquire(t0, &[], &clock(t0)).unwrap();
    assert_eq!([a.idx, b.idx, c.idx], [0, 1, 2]);

    // All three used within the window: nothing until the window (1s + 100ms margin) passes.
    match p.try_acquire(ms(t0, 500), &[], &clock(t0)) {
        Err(Next::At(at)) => assert_eq!(at, ms(t0, 1100)),
        other => panic!("expected wait, got {other:?}"),
    }
    // After the window the LRU key comes first again.
    let d = p.try_acquire(ms(t0, 1100), &[], &clock(t0)).unwrap();
    assert_eq!(d.idx, 0);
}

#[test]
fn learns_higher_rps_from_headers() {
    let mut p = pool(1);
    let t0 = start();
    let l = p.try_acquire(t0, &[], &clock(t0)).unwrap();
    p.record(
        t0,
        l.idx,
        Outcome::Response {
            status: 200,
            rl: Some(rl((20, 0), (19, 0), (1, 100))),
            body_snippet: None,
        },
    );
    // 19 more sends allowed inside the same window now.
    for _ in 0..19 {
        p.try_acquire(ms(t0, 10), &[], &clock(t0)).unwrap();
    }
    assert!(matches!(p.try_acquire(ms(t0, 20), &[], &clock(t0)), Err(Next::At(_))));
}

#[test]
fn monthly_exhaustion_parks_key_until_reset() {
    let mut p = pool(2);
    let t0 = start();
    let l = p.try_acquire(t0, &[], &clock(t0)).unwrap();
    assert_eq!(l.idx, 0);
    let v = p.record(
        t0,
        l.idx,
        Outcome::Response {
            status: 429,
            rl: Some(rl((1, 2000), (1, 0), (1, 3600))),
            body_snippet: Some("quota"),
        },
    );
    assert_eq!(v, Verdict::RetryOtherKey);
    let snap = p.snapshot(&clock(t0));
    assert_eq!(snap.keys[0].state, "exhausted");
    assert_eq!(snap.keys[0].monthly.remaining, Some(0));

    // Only key 1 serves from now on...
    let l2 = p.try_acquire(ms(t0, 10), &[0], &clock(t0)).unwrap();
    assert_eq!(l2.idx, 1);
    // ...and even after its window frees up, key 0 stays parked.
    let l3 = p.try_acquire(secs(t0, 5), &[], &clock(t0)).unwrap();
    assert_eq!(l3.idx, 1);
    // Until the reported reset passes.
    let l4 = p.try_acquire(secs(t0, 3601), &[], &clock(t0)).unwrap();
    assert_eq!(l4.idx, 0);
}

#[test]
fn auth_failure_disables_with_backoff_and_reports_unavailable() {
    let mut p = pool(1);
    let t0 = start();
    let l = p.try_acquire(t0, &[], &clock(t0)).unwrap();
    assert_eq!(
        p.record(
            t0,
            l.idx,
            Outcome::Response { status: 401, rl: None, body_snippet: Some("bad key") },
        ),
        Verdict::RetryOtherKey
    );
    match p.try_acquire(secs(t0, 2), &[], &clock(secs(t0, 2))) {
        Err(Next::Unavailable { earliest: Some(at), summary }) => {
            assert!(at >= secs(t0, AUTH_BACKOFF_BASE - 1));
            assert!(summary.contains("HTTP 401"), "{summary}");
        }
        other => panic!("expected unavailable, got {other:?}"),
    }
    // Probe after the backoff; failing again disables it once more.
    let l = p.try_acquire(secs(t0, AUTH_BACKOFF_BASE + 1), &[], &clock(t0)).unwrap();
    p.record(t0, l.idx, Outcome::Response { status: 401, rl: None, body_snippet: None });
    let snap = p.snapshot(&clock(t0));
    assert_eq!(snap.keys[0].state, "disabled");
    assert_eq!(snap.keys_healthy, 0);
}

#[test]
fn server_errors_need_three_strikes() {
    let mut p = pool(1);
    let t0 = start();
    for i in 0..3 {
        let l = p.try_acquire(secs(t0, 2 * i), &[], &clock(t0)).unwrap();
        p.record(t0, l.idx, Outcome::Transport("connection reset".into()));
    }
    assert_eq!(p.snapshot(&clock(t0)).keys[0].state, "disabled");
}

#[test]
fn single_key_pool_may_reuse_excluded_key() {
    let mut p = pool(1);
    let t0 = start();
    let l = p.try_acquire(t0, &[], &clock(t0)).unwrap();
    p.record(
        t0,
        l.idx,
        Outcome::Response {
            status: 429,
            rl: Some(rl((1, 100), (0, 50), (1, 10))),
            body_snippet: None,
        },
    );
    // Excluded, but it is the only key: we get a wait time, not "unavailable".
    match p.try_acquire(ms(t0, 10), &[0], &clock(t0)) {
        Err(Next::At(at)) => assert!(at >= secs(t0, 1)),
        other => panic!("expected At, got {other:?}"),
    }
}

#[test]
fn plan_without_monthly_cap_is_never_exhausted_and_excluded_from_totals() {
    let mut p = pool(2);
    let t0 = start();
    let a = p.try_acquire(t0, &[], &clock(t0)).unwrap();
    // Brave reports "0" for both the monthly limit and remaining on plans without a cap.
    p.record(
        t0,
        a.idx,
        Outcome::Response {
            status: 200,
            rl: Some(rl((50, 0), (49, 0), (1, 100))),
            body_snippet: None,
        },
    );
    let b = p.try_acquire(t0, &[], &clock(t0)).unwrap();
    assert_eq!(b.idx, 1);
    p.record(
        t0,
        b.idx,
        Outcome::Response {
            status: 200,
            rl: Some(rl((1, 2000), (0, 1500), (1, 100))),
            body_snippet: None,
        },
    );
    let s = p.snapshot(&clock(t0));
    assert_eq!(s.keys[0].state, "ok");
    assert!(s.keys[0].monthly.unlimited);
    assert_eq!(s.keys[0].monthly.remaining, None);
    assert_eq!(s.month_unlimited_keys, 1);
    assert_eq!(s.month_limit_total, Some(2000));
    assert_eq!(s.month_remaining_total, Some(1500));
    assert_eq!(s.rps_capacity, 51);
    // Still usable after many successes: no quota to run out of.
    for i in 1..=10 {
        let l = p.try_acquire(ms(t0, i), &[1], &clock(t0)).unwrap();
        assert_eq!(l.idx, 0);
        p.record(
            t0,
            l.idx,
            Outcome::Response {
                status: 200,
                rl: Some(rl((50, 0), (40, 0), (1, 100))),
                body_snippet: None,
            },
        );
    }
    assert_eq!(p.snapshot(&clock(t0)).keys[0].state, "ok");
}

fn fail(p: &mut Pool, t: Instant) {
    p.record(t, 0, Outcome::Transport("connection reset".to_string()));
}

fn disabled_until(p: &Pool, idx: usize) -> Option<Instant> {
    match &p.inner[idx].health {
        Health::Disabled { until, .. } => Some(*until),
        _ => None,
    }
}

#[test]
fn new_keys_are_labelled_and_fresh() {
    let keys = vec!["BSAabcdWXYZ".to_string(), "xy".to_string()];
    let p = Pool::new(
        &keys,
        PoolConfig {
            window_margin: Duration::from_millis(100),
            default_rps: 0,
            monthly_limits: vec![Some(5)],
        },
    );
    assert_eq!(p.len(), 2);
    assert_eq!(p.inner[0].label, "k1:..WXYZ");
    assert_eq!(p.inner[1].label, "k2:..xy");
    assert_eq!(p.inner[0].sec_limit, 1);
    assert_eq!(p.inner[0].monthly_cap_override, Some(5));
    assert_eq!(p.inner[1].monthly_cap_override, None);
    assert_eq!(p.inner[0].health, Health::Healthy);
}

#[test]
fn leases_carry_the_token_and_count() {
    let mut p = pool(1);
    let t0 = start();
    let l = p.try_acquire(t0, &[], &clock(t0)).unwrap();
    assert_eq!(l.token, "BSA0000key");
    assert_eq!(l.label, "k1:..0key");
    assert_eq!(p.inner[0].stats.requests, 1);
    assert_eq!(p.inner[0].last_used, Some(t0));
}

#[test]
fn ties_go_to_the_key_with_more_quota() {
    let mut p = pool(2);
    let t0 = start();
    p.inner[0].month_remaining = Some(10);
    p.inner[1].month_remaining = Some(20);
    assert_eq!(p.try_acquire(t0, &[], &clock(t0)).unwrap().idx, 1);
}

#[test]
fn auth_backoff_doubles_up_to_an_hour() {
    let mut p = pool(1);
    let mut t = start();
    for expected in [300u64, 600, 1200, 2400, 3600, 3600] {
        p.record(t, 0, Outcome::Response { status: 403, rl: None, body_snippet: None });
        assert_eq!(disabled_until(&p, 0), Some(secs(t, expected)));
        t = secs(t, expected);
        assert_eq!(p.try_acquire(t, &[], &clock(t)).unwrap().idx, 0);
    }
    // A success starts the backoff over.
    p.record(t, 0, Outcome::Response { status: 200, rl: None, body_snippet: None });
    p.record(t, 0, Outcome::Response { status: 401, rl: None, body_snippet: None });
    assert_eq!(disabled_until(&p, 0), Some(secs(t, 300)));
}

#[test]
fn failure_backoff_doubles_up_to_ten_minutes() {
    let mut p = pool(1);
    let t = start();
    for expected in [30u64, 60, 120, 240, 480, 600, 600] {
        fail(&mut p, t);
        fail(&mut p, t);
        let before = disabled_until(&p, 0);
        fail(&mut p, t);
        assert_eq!(disabled_until(&p, 0), Some(secs(t, expected)));
        assert!(before != disabled_until(&p, 0) || expected == 600);
    }
}

#[test]
fn a_success_between_failures_keeps_the_key() {
    let mut p = pool(1);
    let t = start();
    fail(&mut p, t);
    fail(&mut p, t);
    p.record(t, 0, Outcome::Response { status: 204, rl: None, body_snippet: None });
    fail(&mut p, t);
    fail(&mut p, t);
    assert_eq!(p.inner[0].health, Health::Healthy);
    p.record(t, 0, Outcome::Response { status: 503, rl: None, body_snippet: Some("down") });
    assert_eq!(disabled_until(&p, 0), Some(secs(t, 30)));
    assert_eq!(p.inner[0].stats.last_error.as_deref(), Some("HTTP 503: down"));
    assert_eq!(p.inner[0].stats.server_5xx, 1);
    assert_eq!(p.inner[0].stats.transport_errors, 4);
}

#[test]
fn unexplained_limits_hold_and_then_disable() {
    let mut p = pool(1);
    let t = start();
    for i in 1..5u32 {
        let v = p.record(t, 0, Outcome::Response { status: 429, rl: None, body_snippet: None });
        assert_eq!(v, Verdict::RetryOtherKey);
        assert_eq!(p.inner[0].consecutive_429, i);
        assert_eq!(p.inner[0].hold_until, Some(secs(t, 2)));
        assert_eq!(p.inner[0].health, Health::Healthy);
    }
    p.record(t, 0, Outcome::Response { status: 429, rl: None, body_snippet: Some("slow") });
    assert_eq!(
        p.inner[0].health,
        Health::Disabled {
            until: secs(t, 300),
            reason: "5 consecutive 429s without rate-limit headers: slow".to_string(),
        }
    );
}

#[test]
fn only_failures_in_a_row_disable() {
    let mut p = pool(1);
    let t = start();
    for status in [500u16, 404, 500, 404, 500, 302, 500, 500, 429, 500, 500] {
        p.record(t, 0, Outcome::Response { status, rl: None, body_snippet: None });
        assert_eq!(p.inner[0].health, Health::Healthy);
    }
    p.record(t, 0, Outcome::Response { status: 500, rl: None, body_snippet: None });
    assert_eq!(disabled_until(&p, 0), Some(secs(t, 30)));
}

#[test]
fn every_429_counts_towards_the_threshold() {
    let mut p = pool(1);
    let t = start();
    let explained = Some(rl((1, 100), (0, 50), (1, 10)));
    for i in 1..5u32 {
        p.record(t, 0, Outcome::Response { status: 429, rl: explained, body_snippet: None });
        assert_eq!(p.inner[0].consecutive_429, i);
        assert_eq!(p.inner[0].health, Health::Healthy);
    }
    // Other outcomes leave the count alone.
    for status in [404u16, 302, 500] {
        p.record(t, 0, Outcome::Response { status, rl: None, body_snippet: None });
    }
    p.record(t, 0, Outcome::Transport("x".to_string()));
    assert_eq!(p.inner[0].consecutive_429, 4);
    p.record(t, 0, Outcome::Response { status: 429, rl: None, body_snippet: None });
    assert_eq!(
        p.inner[0].health,
        Health::Disabled {
            until: secs(t, 300),
            reason: "5 consecutive 429s without rate-limit headers".to_string(),
        }
    );
    assert_eq!(p.inner[0].consecutive_429, 0);
    assert_eq!(p.inner[0].stats.upstream_429, 5);
    // Explained ones alone never disable.
    let mut p = pool(1);
    for _ in 0..20 {
        p.record(t, 0, Outcome::Response { status: 429, rl: explained, body_snippet: None });
    }
    assert_eq!(p.inner[0].health, Health::Healthy);
}

#[test]
fn probes_wait_for_their_outcome() {
    let mut p = pool(1);
    let t = start();
    p.record(t, 0, Outcome::Response { status: 401, rl: None, body_snippet: None });
    let end = secs(t, 300);
    assert!(p.try_acquire(end, &[], &clock(end)).is_ok());
    assert!(p.inner[0].probing);
    // However long the probe takes, no other request is sent.
    for later in [1u64, 5, 14, 60] {
        let now = secs(end, later);
        match p.try_acquire(now, &[], &clock(now)) {
            Err(Next::At(at)) => assert_eq!(at, ms(now, 1100)),
            other => panic!("expected At, got {other:?}"),
        }
        assert_eq!(p.snapshot(&clock(now)).slots_available_now, 0);
    }
    let now = secs(end, 61);
    p.record(now, 0, Outcome::Response { status: 500, rl: None, body_snippet: None });
    assert!(p.try_acquire(now, &[], &clock(now)).is_ok());
    assert!(p.try_acquire(secs(now, 9), &[], &clock(now)).is_err());
    // An outcome that never comes is given up on.
    p.abandon(0);
    p.abandon(7);
    assert!(p.try_acquire(secs(now, 9), &[], &clock(now)).is_ok());
    // After a success there is nothing to probe.
    p.record(secs(now, 9), 0, Outcome::Response { status: 200, rl: None, body_snippet: None });
    assert!(p.try_acquire(secs(now, 12), &[], &clock(now)).is_ok());
    assert!(!p.inner[0].probing);
    assert!(p.try_acquire(secs(now, 14), &[], &clock(now)).is_ok());
}

#[test]
fn plans_known_to_have_no_cap_are_not_parked() {
    let mut p = pool(1);
    let t = start();
    let info = rl((50, 0), (49, 0), (1, 100));
    p.record(t, 0, Outcome::Response { status: 200, rl: Some(info), body_snippet: None });
    let mut info = rl((50, 0), (48, 0), (1, 100));
    info.limit = Windows::default();
    p.record(t, 0, Outcome::Response { status: 200, rl: Some(info), body_snippet: None });
    assert_eq!(p.inner[0].health, Health::Healthy);
    p.record(t, 0, Outcome::Response { status: 429, rl: Some(info), body_snippet: None });
    assert_eq!(p.inner[0].health, Health::Healthy);
    assert_eq!(p.inner[0].hold_until, Some(secs(t, 1)));
    // A plan that turns out to have a cap is.
    let info = rl((50, 2000), (48, 0), (1, 100));
    p.record(t, 0, Outcome::Response { status: 200, rl: Some(info), body_snippet: None });
    assert_eq!(p.inner[0].health, Health::Exhausted { until: secs(t, 100) });
}

#[test]
fn availability_is_the_earliest_instant() {
    let t = start();
    let window = Duration::from_millis(1100);
    let mut k = KeyState::new(0, "BSA0000key".to_string(), 1, None);
    assert_eq!(k.availability(t, window), Ok(()));
    k.hold_until = Some(secs(t, 1));
    k.sends.push_back(t);
    assert_eq!(k.availability(t, window), Err(ms(t, 1100)));
    k.hold_until = Some(secs(t, 2));
    assert_eq!(k.availability(t, window), Err(secs(t, 2)));
    k.hold_until = None;
    assert_eq!(k.availability(ms(t, 1099), window), Err(ms(t, 1100)));
    assert_eq!(k.availability(ms(t, 1100), window), Ok(()));
    // More sends on record than the plan allows now.
    k.sec_limit = 2;
    for i in [1200u64, 1300, 1400, 1500] {
        k.sends.push_back(ms(t, i));
    }
    assert_eq!(k.availability(ms(t, 1500), window), Err(ms(t, 2500)));
    assert_eq!(k.availability(ms(t, 2499), window), Err(ms(t, 2500)));
    assert_eq!(k.availability(ms(t, 2500), window), Ok(()));
    // A hold that outlasts a cooldown.
    k.hold_until = Some(secs(t, 60));
    k.health = Health::Disabled { until: secs(t, 30), reason: String::new() };
    assert_eq!(k.availability(ms(t, 2500), window), Err(secs(t, 60)));
    k.health = Health::Exhausted { until: secs(t, 90) };
    assert_eq!(k.availability(ms(t, 2500), window), Err(secs(t, 90)));
}

#[test]
fn free_slots_are_further_sends() {
    let t = start();
    let window = Duration::from_millis(1100);
    let mut k = KeyState::new(0, "BSA0000key".to_string(), 3, None);
    for left in [3u32, 2, 1] {
        assert_eq!(k.availability(t, window), Ok(()));
        assert_eq!(k.free_slots(), left);
        k.send(t);
    }
    assert_eq!(k.availability(t, window), Err(ms(t, 1100)));
    assert_eq!(k.free_slots(), 0);
}

#[test]
fn disabled_keys_are_probed_with_one_request() {
    let mut p = pool(1);
    let t = start();
    let info = rl((20, 0), (19, 0), (1, 100));
    p.record(t, 0, Outcome::Response { status: 200, rl: Some(info), body_snippet: None });
    p.record(t, 0, Outcome::Response { status: 401, rl: None, body_snippet: None });
    let end = secs(t, 300);
    assert!(p.try_acquire(end, &[], &clock(end)).is_ok());
    match p.try_acquire(end, &[], &clock(end)) {
        Err(Next::At(at)) => assert_eq!(at, ms(end, 1100)),
        other => panic!("expected At, got {other:?}"),
    }
    // The plan is as it was, and its rate is back after a success.
    assert_eq!(p.snapshot(&clock(end)).rps_capacity, 20);
    p.record(end, 0, Outcome::Response { status: 200, rl: None, body_snippet: None });
    assert_eq!(p.inner[0].disabled_since, None);
    for _ in 0..19 {
        assert!(p.try_acquire(end, &[], &clock(end)).is_ok());
    }
    assert!(p.try_acquire(end, &[], &clock(end)).is_err());
}

#[test]
fn own_caps_start_over_with_a_new_cycle() {
    let keys = vec!["BSA0000key".to_string()];
    let mut p = Pool::new(
        &keys,
        PoolConfig {
            window_margin: Duration::from_millis(100),
            default_rps: 1,
            monthly_limits: vec![Some(2)],
        },
    );
    let t = start();
    for _ in 0..2 {
        p.record(t, 0, Outcome::Response { status: 200, rl: None, body_snippet: None });
    }
    assert!(p.inner[0].override_cap_exhausted());
    let end = secs(t, 2_592_000);
    assert_eq!(p.inner[0].health, Health::Exhausted { until: end });
    p.inner[0].refresh(end);
    assert!(!p.inner[0].override_cap_exhausted());
    assert_eq!(p.inner[0].effective_month_used(), 0);
    assert_eq!(p.inner[0].month_remaining_for_ranking(), 2);
    assert_eq!(p.inner[0].stats.ok, 2);
    p.record(end, 0, Outcome::Response { status: 200, rl: None, body_snippet: None });
    assert_eq!(p.inner[0].health, Health::Healthy);
    p.record(end, 0, Outcome::Response { status: 200, rl: None, body_snippet: None });
    assert_eq!(p.inner[0].health, Health::Exhausted { until: secs(end, 2_592_000) });
}

#[test]
fn explained_limits_hold_as_long_as_asked() {
    let mut p = pool(1);
    let t = start();
    let mut info = rl((1, 100), (0, 50), (3, 10));
    p.record(t, 0, Outcome::Response { status: 429, rl: Some(info), body_snippet: None });
    assert_eq!(p.inner[0].hold_until, Some(secs(t, 3)));
    info.retry_after = Some(7);
    p.record(t, 0, Outcome::Response { status: 429, rl: Some(info), body_snippet: None });
    assert_eq!(p.inner[0].hold_until, Some(secs(t, 7)));
    let snap = p.snapshot(&clock(t));
    assert_eq!(snap.keys[0].state, "cooling");
    assert_eq!(snap.keys[0].reason.as_deref(), Some("upstream asked us to slow down"));
    assert_eq!(snap.keys[0].until_in.as_deref(), Some("7s"));
    match p.try_acquire(secs(t, 1), &[], &clock(t)) {
        Err(Next::At(at)) => assert_eq!(at, secs(t, 7)),
        other => panic!("expected At, got {other:?}"),
    }
}

#[test]
fn rejected_requests_do_not_harm_the_key() {
    let mut p = pool(1);
    let t = start();
    let v = p.record(t, 0, Outcome::Response { status: 422, rl: None, body_snippet: Some("") });
    assert_eq!(v, Verdict::ReturnToClient);
    assert_eq!(p.inner[0].health, Health::Healthy);
    assert_eq!(p.inner[0].stats.client_4xx, 1);
    assert_eq!(p.inner[0].stats.last_error.as_deref(), Some("HTTP 422"));
    let v = p.record(t, 0, Outcome::Response { status: 302, rl: None, body_snippet: None });
    assert_eq!(v, Verdict::ReturnToClient);
    assert_eq!(p.inner[0].stats.last_status, Some(302));
    let v = p.record(t, 9, Outcome::Response { status: 200, rl: None, body_snippet: None });
    assert_eq!(v, Verdict::ReturnToClient);
}

#[test]
fn quota_spent_by_a_success_parks_the_key() {
    let mut p = pool(1);
    let t = start();
    let mut info = rl((1, 2000), (0, 0), (1, 0));
    info.reset.month = None;
    let v = p.record(t, 0, Outcome::Response { status: 200, rl: Some(info), body_snippet: None });
    assert_eq!(v, Verdict::Success);
    assert_eq!(p.inner[0].health, Health::Exhausted { until: secs(t, 21_600) });
    assert_eq!(p.inner[0].month_remaining, Some(0));
    p.try_acquire(secs(t, 21_600), &[], &clock(t)).unwrap();
    assert_eq!(p.inner[0].month_remaining, None);
}

#[test]
fn own_caps_park_the_key() {
    let keys = vec!["a".to_string()];
    let mut p = Pool::new(
        &keys,
        PoolConfig {
            window_margin: Duration::from_millis(0),
            default_rps: 1,
            monthly_limits: vec![Some(2)],
        },
    );
    let t = start();
    p.record(t, 0, Outcome::Response { status: 200, rl: None, body_snippet: None });
    assert_eq!(p.inner[0].health, Health::Healthy);
    assert_eq!(p.inner[0].month_remaining_for_ranking(), 1);
    p.record(t, 0, Outcome::Response { status: 200, rl: None, body_snippet: None });
    assert_eq!(p.inner[0].health, Health::Exhausted { until: secs(t, 2_592_000) });
}

#[test]
fn absurd_limits_are_not_believed() {
    let mut p = pool(1);
    let t = start();
    let info = rl((1_000_000, 0), (1, 0), (1, 1));
    p.record(t, 0, Outcome::Response { status: 200, rl: Some(info), body_snippet: None });
    assert_eq!(p.inner[0].sec_limit, 1000);
    let info = rl((0, 0), (1, 0), (1, 1));
    p.record(t, 0, Outcome::Response { status: 200, rl: Some(info), body_snippet: None });
    assert_eq!(p.inner[0].sec_limit, 1000);
}

#[test]
fn acquire_waits_up_to_the_deadline() {
    let mut p = pool(1);
    let t0 = start();
    match p.acquire(t0, t0, &[], &clock(t0)) {
        Step::Granted(l) => assert_eq!(l.idx, 0),
        other => panic!("expected a lease, got {other:?}"),
    }
    match p.acquire(ms(t0, 100), ms(t0, 1100), &[], &clock(t0)) {
        Step::WaitUntil(at) => assert_eq!(at, ms(t0, 1100)),
        other => panic!("expected a wait, got {other:?}"),
    }
    match p.acquire(ms(t0, 100), ms(t0, 1099), &[], &clock(t0)) {
        Step::Failed(AcquireError::Saturated { retry_after }) => {
            assert_eq!(retry_after, Duration::from_millis(1000))
        }
        other => panic!("expected saturation, got {other:?}"),
    }
    p.record(t0, 0, Outcome::Response { status: 401, rl: None, body_snippet: None });
    match p.acquire(secs(t0, 100), secs(t0, 1000), &[], &clock(secs(t0, 100))) {
        Step::Failed(AcquireError::Unavailable { retry_after, summary }) => {
            assert_eq!(retry_after, Some(Duration::from_secs(200)));
            assert_eq!(summary, "k1:..0key disabled (HTTP 401) until 2026-09-03T20:46:07Z");
        }
        other => panic!("expected unavailable, got {other:?}"),
    }
}

#[test]
fn empty_pools_are_unavailable() {
    let mut p = pool(0);
    let t = start();
    match p.try_acquire(t, &[], &clock(t)) {
        Err(Next::Unavailable { earliest, summary }) => {
            assert_eq!(earliest, None);
            assert_eq!(summary, "");
        }
        other => panic!("expected unavailable, got {other:?}"),
    }
}

#[test]
fn snapshots_report_every_key() {
    let mut p = pool(3);
    let t0 = start();
    p.try_acquire(t0, &[], &clock(t0)).unwrap();
    p.record(
        t0,
        0,
        Outcome::Response {
            status: 200,
            rl: Some(rl((1, 2000), (0, 1500), (1, 86_400))),
            body_snippet: None,
        },
    );
    p.record(t0, 1, Outcome::Response { status: 401, rl: None, body_snippet: Some("no") });
    let at = ms(t0, 500);
    assert!(p.snapshot_fits(at));
    let s = p.snapshot(&clock(at));
    assert_eq!(s.now, "2026-09-03T20:41:07Z");
    assert_eq!((s.keys_total, s.keys_healthy), (3, 2));
    assert_eq!((s.rps_capacity, s.slots_available_now), (2, 1));
    assert_eq!((s.month_limit_total, s.month_remaining_total), (Some(2000), Some(1500)));
    assert_eq!(s.month_unlimited_keys, 0);
    assert_eq!((s.totals.requests, s.totals.ok, s.totals.client_4xx), (1, 1, 1));
    let k = &s.keys[0];
    assert_eq!((k.key.as_str(), k.state), ("k1:..0key", "busy"));
    assert_eq!((k.per_second.limit, k.per_second.in_window), (1, 1));
    assert!(k.per_second.limits_learned);
    assert_eq!(k.per_second.next_slot_in_ms, 600);
    assert_eq!(k.monthly.reset_at.as_deref(), Some("2026-09-04T20:41:07Z"));
    assert_eq!(k.monthly.reset_in.as_deref(), Some("23h 59m 59s"));
    assert_eq!(k.last_used_ago.as_deref(), Some("0s"));
    let k = &s.keys[1];
    assert_eq!((k.state, k.reason.as_deref()), ("disabled", Some("HTTP 401: no")));
    assert_eq!(k.until.as_deref(), Some("2026-09-03T20:46:07Z"));
    assert_eq!(k.until_in.as_deref(), Some("4m 59s"));
    assert_eq!(k.disabled_since.as_deref(), Some("2026-09-03T20:41:07Z"));
    assert_eq!(s.keys[2].state, "ok");
    assert_eq!(s.keys[2].last_used_ago, None);
}

#[test]
fn counters_that_are_full_are_noticed() {
    let mut p = pool(2);
    assert!(p.has_request_room());
    p.inner[1].stats.requests = u64::MAX;
    assert!(!p.has_request_room());
    p.inner[0].stats.requests = 1;
    assert!(!p.snapshot_fits(start()));
    p.inner[1].stats.requests = u64::MAX - 1;
    assert!(p.snapshot_fits(start()));
    let ok = Outcome::Response { status: 200, rl: None, body_snippet: None };
    assert!(p.has_outcome_room(0, &ok));
    p.inner[0].stats.ok = u64::MAX;
    assert!(!p.has_outcome_room(0, &ok));
    assert!(p.has_outcome_room(7, &ok));
}
