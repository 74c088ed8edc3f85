use brave_rotator::clock::{Clock, Duration, Instant};
use brave_rotator::key::Health;
use brave_rotator::outcome::Outcome;
use brave_rotator::pool::{Next, Pool, PoolConfig};
use brave_rotator::ratelimit::{RateLimitInfo, Windows};

const WINDOW_MS: u64 = 1100;

fn pool(n: usize, rps: u32) -> Pool {
    let keys: Vec<String> = (0..n).map(|i| format!("token-{i}")).collect();
    Pool::new(
        &keys,
        PoolConfig {
            window_margin: Duration::from_millis(WINDOW_MS - 1000),
            default_rps: rps,
            monthly_limits: Vec::new(),
        },
    )
}

fn at(millis: u64) -> Instant {
    Instant { nanos: 50_000_000_000 }.plus(Duration::from_millis(millis))
}

fn millis(t: Instant) -> u64 {
    ((t.nanos - at(0).nanos) / 1_000_000) as u64
}

fn clock(now: Instant) -> Clock {
    Clock { now, wall: 1_788_468_067_000_000_000 }
}

fn info(second: u64, month: u64, remaining: u64, reset: u64) -> RateLimitInfo {
    RateLimitInfo {
        limit: Windows { second: Some(second), month: Some(month) },
        remaining: Windows { second: Some(0), month: Some(remaining) },
        reset: Windows { second: Some(1), month: Some(reset) },
        ..Default::default()
    }
}

#[test]
fn no_window_ever_holds_more_than_the_plan() {
    let rps: u32 = 3;
    let mut p = pool(2, rps);
    let mut sends: Vec<Vec<u64>> = vec![Vec::new(), Vec::new()];
    let mut t: u64 = 0;
    while t < 20_000 {
        if let Ok(l) = p.try_acquire(at(t), &[], &clock(at(t))) {
            sends[l.idx].push(t);
        }
        // Snapshots in between settle the keys and must not matter.
        if t % 7 == 0 {
            p.snapshot(&clock(at(t)));
        }
        t += 13;
    }
    for list in &sends {
        assert!(list.len() > 50);
        for (i, s) in list.iter().enumerate() {
            let inside = list[..=i].iter().filter(|e| s - **e < WINDOW_MS).count();
            assert!(inside <= rps as usize);
        }
    }
}

#[test]
fn waiting_misses_no_free_key() {
    let mut p = pool(3, 2);
    for i in 0..6 {
        p.try_acquire(at(i * 50), &[], &clock(at(0))).unwrap();
    }
    let next = match p.try_acquire(at(400), &[], &clock(at(0))) {
        Err(Next::At(t)) => millis(t),
        other => panic!("expected a wait, got {other:?}"),
    };
    assert_eq!(next, WINDOW_MS);
    for t in 401..next {
        assert!(p.try_acquire(at(t), &[], &clock(at(0))).is_err());
    }
    assert_eq!(p.try_acquire(at(next), &[], &clock(at(0))).unwrap().idx, 0);
}

#[test]
fn rotation_goes_round() {
    let mut p = pool(4, 1);
    for round in 0..5u64 {
        let mut served: Vec<usize> = Vec::new();
        for i in 0..4u64 {
            let t = at(round * 1200 + i);
            served.push(p.try_acquire(t, &[], &clock(t)).unwrap().idx);
        }
        assert_eq!(served, [0, 1, 2, 3]);
    }
}

#[test]
fn snapshots_do_not_change_the_rotation() {
    let mut seen = pool(3, 2);
    let mut unseen = pool(3, 2);
    for i in 0..40u64 {
        let t = at(i * 97);
        seen.snapshot(&clock(t));
        let a = seen.try_acquire(t, &[], &clock(t)).map(|l| l.idx).ok();
        let b = unseen.try_acquire(t, &[], &clock(t)).map(|l| l.idx).ok();
        assert_eq!(a, b);
    }
}

#[test]
fn tried_keys_are_a_last_resort() {
    let mut p = pool(2, 5);
    assert_eq!(p.try_acquire(at(0), &[0], &clock(at(0))).unwrap().idx, 1);
    assert_eq!(p.try_acquire(at(1), &[0], &clock(at(0))).unwrap().idx, 1);
    p.record(at(2), 1, Outcome::Response { status: 401, rl: None, body_snippet: None });
    assert_eq!(p.try_acquire(at(3), &[0], &clock(at(0))).unwrap().idx, 0);
    // A key that is only busy is worth waiting for.
    let mut p = pool(2, 1);
    p.try_acquire(at(0), &[0], &clock(at(0))).unwrap();
    assert!(matches!(p.try_acquire(at(1), &[0], &clock(at(0))), Err(Next::At(_))));
}

#[test]
fn cooldowns_end_on_time() {
    let mut p = pool(1, 1);
    p.record(at(0), 0, Outcome::Response { status: 401, rl: None, body_snippet: None });
    assert!(p.try_acquire(at(299_999), &[], &clock(at(0))).is_err());
    assert!(p.try_acquire(at(300_000), &[], &clock(at(0))).is_ok());
    let spent = Some(info(1, 2000, 0, 60));
    p.record(at(400_000), 0, Outcome::Response { status: 200, rl: spent, body_snippet: None });
    assert_eq!(p.inner[0].health, Health::Exhausted { until: at(460_000) });
    assert_eq!(p.snapshot(&clock(at(459_999))).keys_healthy, 0);
    assert_eq!(p.snapshot(&clock(at(460_000))).keys_healthy, 1);
    assert_eq!(p.inner[0].month_remaining, None);
    assert_eq!(p.inner[0].month_reset_at, None);
}

#[test]
fn keys_stay_who_they_are() {
    let mut p = pool(2, 1);
    p.try_acquire(at(0), &[], &clock(at(0))).unwrap();
    p.record(at(1), 0, Outcome::Response { status: 500, rl: None, body_snippet: None });
    p.record(at(1), 0, Outcome::Transport("x".to_string()));
    p.record(
        at(1),
        0,
        Outcome::Response { status: 200, rl: Some(info(9, 0, 0, 1)), body_snippet: None },
    );
    p.snapshot(&clock(at(2)));
    assert_eq!((p.inner[0].token.as_str(), p.inner[0].label.as_str()), ("token-0", "k1:..en-0"));
    assert_eq!((p.inner[1].token.as_str(), p.inner[1].label.as_str()), ("token-1", "k2:..en-1"));
    assert_eq!(p.inner[0].sends.len(), 1);
}

#[test]
fn learned_limits_last() {
    let mut p = pool(1, 1);
    p.record(
        at(0),
        0,
        Outcome::Response { status: 404, rl: Some(info(20, 0, 0, 1)), body_snippet: None },
    );
    assert!(p.inner[0].limits_learned);
    p.record(at(1), 0, Outcome::Response { status: 200, rl: None, body_snippet: None });
    p.record(at(1), 0, Outcome::Transport("x".to_string()));
    assert_eq!(p.inner[0].sec_limit, 20);
}

#[test]
fn reported_slots_are_leases() {
    let mut p = pool(3, 4);
    for i in 0..5u64 {
        p.try_acquire(at(i * 100), &[], &clock(at(0))).unwrap();
    }
    p.record(at(500), 2, Outcome::Response { status: 429, rl: None, body_snippet: None });
    let now = at(1150);
    let slots = p.snapshot(&clock(now)).slots_available_now;
    assert_eq!(slots, 5);
    for _ in 0..slots {
        assert!(p.try_acquire(now, &[], &clock(now)).is_ok());
    }
    assert!(p.try_acquire(now, &[], &clock(now)).is_err());
    assert_eq!(p.snapshot(&clock(now)).slots_available_now, 0);
}

#[test]
fn snapshots_add_up() {
    let mut p = pool(4, 3);
    p.record(
        at(0),
        0,
        Outcome::Response { status: 200, rl: Some(info(20, 2000, 7, 60)), body_snippet: None },
    );
    p.record(
        at(0),
        1,
        Outcome::Response { status: 200, rl: Some(info(5, 500, 0, 60)), body_snippet: None },
    );
    p.record(
        at(0),
        2,
        Outcome::Response { status: 401, rl: Some(info(50, 0, 0, 60)), body_snippet: None },
    );
    let s = p.snapshot(&clock(at(1)));
    let usable = |k: &&brave_rotator::snapshot::KeySnapshot| {
        ["ok", "busy", "cooling"].contains(&k.state)
    };
    assert_eq!(s.keys.iter().filter(usable).count(), s.keys_healthy);
    let capacity: u64 = s.keys.iter().filter(usable).map(|k| k.per_second.limit as u64).sum();
    assert_eq!((capacity, s.rps_capacity), (23, 23));
    let limits: u64 = s.keys.iter().filter_map(|k| k.monthly.limit).sum();
    assert_eq!((Some(limits), s.month_limit_total), (Some(2500), Some(2500)));
    assert_eq!(s.month_remaining_total, Some(7));
    assert_eq!(s.keys.iter().map(|k| k.stats.ok).sum::<u64>(), s.totals.ok);
}
