use brave_rotator::clock::{Clock, Duration, Instant};
use brave_rotator::key::fmt_quota;
use brave_rotator::outcome::Outcome;
use brave_rotator::pool::{Pool, PoolConfig};
use brave_rotator::report::{
    key_warning, monthly, probe_host, probe_result, status_line, warnings,
};

fn pool() -> Pool {
    let keys = vec!["aaaa1111".to_string(), "bbbb2222".to_string()];
    Pool::new(
        &keys,
        PoolConfig {
            window_margin: Duration::from_millis(100),
            default_rps: 1,
            monthly_limits: vec![None, Some(1)],
        },
    )
}

fn clock() -> Clock {
    Clock { now: Instant { nanos: 9_000_000_000 }, wall: 1_788_468_067_000_000_000 }
}

#[test]
fn the_month_is_put_into_words() {
    assert_eq!(monthly(None, None, 0), "unknown yet");
    assert_eq!(monthly(None, None, 2), "no cap (2 key(s))");
    assert_eq!(monthly(Some(1812), Some(2000), 1), "1812 of 2000 + 1 key(s) without cap");
    assert_eq!(monthly(Some(5), None, 0), "5 of ?");
    assert_eq!(monthly(None, Some(5), 0), "? of 5");
}

#[test]
fn the_status_is_one_line() {
    let mut p = pool();
    let now = clock().now;
    assert_eq!(
        status_line(&p.snapshot(&clock())),
        "status: 2/2 keys healthy, capacity 2 req/s, monthly remaining unknown yet, upstream attempts 0 ok / 0 failed (0 were 429s)"
    );
    assert!(warnings(&p.snapshot(&clock())).is_empty());
    p.record(now, 0, Outcome::Response { status: 401, rl: None, body_snippet: Some("Invalid") });
    p.record(now, 0, Outcome::Response { status: 429, rl: None, body_snippet: None });
    p.record(now, 1, Outcome::Response { status: 200, rl: None, body_snippet: None });
    p.record(now, 1, Outcome::Transport("reset".to_string()));
    let s = p.snapshot(&clock());
    assert_eq!(
        status_line(&s),
        "status: 0/2 keys healthy, capacity 0 req/s, monthly remaining 0 of ?, upstream attempts 1 ok / 3 failed (1 were 429s)"
    );
    assert_eq!(
        warnings(&s),
        [
            "key k1:..1111 is DISABLED: HTTP 401: Invalid; retrying at 2026-09-03T20:46:07Z (in 5m)",
            "key k2:..2222 is EXHAUSTED: monthly quota used up; retrying at 2026-10-03T20:41:07Z (in 30days)",
        ]
    );
}

#[test]
fn usable_keys_get_no_warning() {
    let mut p = pool();
    let s = p.snapshot(&clock());
    assert_eq!(key_warning(&s.keys[0]), None);
}

#[test]
fn missing_details_are_marked() {
    let mut p = pool();
    let mut s = p.snapshot(&clock());
    s.keys[0].state = "exhausted";
    assert_eq!(
        key_warning(&s.keys[0]).as_deref(),
        Some("key k1:..1111 is EXHAUSTED: -; retrying at ? (in ?)")
    );
}

#[test]
fn probes_go_to_the_loopback() {
    assert_eq!(probe_host("0.0.0.0", true, true), "127.0.0.1");
    assert_eq!(probe_host("::", true, false), "::1");
    assert_eq!(probe_host("10.0.0.1", false, true), "10.0.0.1");
}

#[test]
fn probes_want_a_success() {
    assert_eq!(probe_result(b"HTTP/1.1 200 OK\r\n\r\n\xff"), 0);
    assert_eq!(probe_result(b"HTTP/1.0 200"), 0);
    assert_eq!(probe_result(b"HTTP/1.1 503 Service Unavailable\r\n"), 1);
    assert_eq!(probe_result(b"HTTP/1.1 20"), 1);
    assert_eq!(probe_result(b""), 1);
}

#[test]
fn quotas_are_put_into_words() {
    assert_eq!(fmt_quota(0), "unlimited");
    assert_eq!(fmt_quota(2000), "2000");
}
