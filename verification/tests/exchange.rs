use brave_rotator::clock::{Clock, Duration, Instant};
use brave_rotator::exchange::{
    body_too_large, error_excerpt, has_failure_room, has_response_room, refusal, unauthorized,
    Action, Answer, Exchange,
};
use brave_rotator::outcome::Verdict;
use brave_rotator::pool::{AcquireError, Lease, Pool, PoolConfig};
use brave_rotator::upstream::{UpstreamError, UpstreamResponse};
use http::{HeaderMap, HeaderValue};

fn pool(n: usize) -> Pool {
    let keys: Vec<String> = (0..n).map(|i| format!("key{i}")).collect();
    Pool::new(
        &keys,
        PoolConfig {
            window_margin: Duration::from_millis(100),
            default_rps: 1,
            monthly_limits: Vec::new(),
        },
    )
}

fn at(millis: u64) -> Instant {
    Instant { nanos: 1_000_000_000_000 }.plus(Duration::from_millis(millis))
}

fn clock() -> Clock {
    Clock { now: at(0), wall: 1_788_468_067_000_000_000 }
}

fn response(status: u16, body: &str) -> UpstreamResponse {
    UpstreamResponse { status, headers: HeaderMap::new(), body: body.as_bytes().to_vec() }
}

fn lease(a: Action) -> Lease {
    match a {
        Action::Send(l) => l,
        Action::WaitUntil(_) => panic!("told to wait"),
        Action::Refuse(e) => panic!("refused: {}", e.detail),
    }
}

fn start(p: &Pool) -> Exchange {
    Exchange::new(p.len(), at(0), Duration::from_millis(5000))
}

#[test]
fn attempts_follow_the_number_of_keys() {
    for (keys, attempts) in [(0usize, 2u32), (1, 2), (2, 2), (3, 3), (5, 5), (6, 5), (100, 5)] {
        let e = Exchange::new(keys, at(0), Duration::from_millis(5000));
        assert_eq!(e.max_attempts, attempts);
        assert_eq!(e.deadline, at(5000));
        assert!(e.may_try());
    }
}

#[test]
fn a_success_is_the_answer() {
    let mut p = pool(2);
    let mut e = start(&p);
    let l = lease(e.next(&mut p, at(0), &clock()));
    assert_eq!((l.idx, e.attempts), (0, 1));
    assert_eq!(e.tried, [0]);
    let mut r = response(200, "{}");
    r.headers.insert("x-ratelimit-limit", HeaderValue::from_static("20, 0"));
    assert!(has_response_room(&p, l.idx, &r));
    assert_eq!(e.response(&mut p, at(10), l, r), Verdict::Success);
    assert!(!e.may_try());
    assert_eq!(p.inner[0].sec_limit, 20);
    assert_eq!(p.inner[0].stats.ok, 1);
    match e.conclude() {
        Answer::Upstream { response, label, attempts } => {
            assert_eq!(response.status, 200);
            assert_eq!(response.body, b"{}");
            assert_eq!(label, "k1:..key0");
            assert_eq!(attempts, 1);
        }
        Answer::Error(_) => panic!("expected a response"),
    }
}

#[test]
fn rejected_requests_are_answered_as_they_are() {
    let mut p = pool(2);
    let mut e = start(&p);
    let l = lease(e.next(&mut p, at(0), &clock()));
    let r = response(404, "  nope\n");
    assert_eq!(error_excerpt(&r).as_deref(), Some("nope"));
    assert_eq!(e.response(&mut p, at(10), l, r), Verdict::ReturnToClient);
    assert!(!e.may_try());
    assert_eq!(p.inner[0].stats.last_error.as_deref(), Some("HTTP 404: nope"));
    assert_eq!(error_excerpt(&response(204, "x")), None);
}

#[test]
fn bad_keys_are_retried_on_another() {
    let mut p = pool(2);
    let mut e = start(&p);
    let l = lease(e.next(&mut p, at(0), &clock()));
    assert_eq!(e.response(&mut p, at(10), l, response(401, "bad")), Verdict::RetryOtherKey);
    assert!(e.may_try());
    let l = lease(e.next(&mut p, at(20), &clock()));
    assert_eq!(l.idx, 1);
    let broken = UpstreamError::Timeout(Duration::from_millis(15000));
    assert!(has_failure_room(&p, l.idx, &broken));
    e.failure(&mut p, at(30), l.idx, &broken);
    assert!(!e.may_try());
    assert_eq!(e.tried, [0, 1]);
    assert_eq!(e.last_error.as_deref(), Some("upstream timed out after 15000ms"));
    assert_eq!(p.inner[1].stats.transport_errors, 1);
    // The response of the bad key is better than no response.
    match e.conclude() {
        Answer::Upstream { response, label, attempts } => {
            assert_eq!(response.status, 401);
            assert_eq!(label, "k1:..key0");
            assert_eq!(attempts, 2);
        }
        Answer::Error(_) => panic!("expected a response"),
    }
}

#[test]
fn nothing_but_failures_is_unreachable() {
    let mut p = pool(2);
    let mut e = start(&p);
    for t in [0, 10] {
        let l = lease(e.next(&mut p, at(t), &clock()));
        e.failure(&mut p, at(t), l.idx, &UpstreamError::Request(format!("no {t}")));
    }
    match e.conclude() {
        Answer::Error(r) => {
            assert_eq!((r.status, r.error), (502, "upstream_unreachable"));
            assert_eq!(r.detail, "upstream request failed: no 10");
            assert_eq!(r.retry_after_ms, None);
        }
        Answer::Upstream { .. } => panic!("expected an error"),
    }
    match start(&p).conclude() {
        Answer::Error(r) => assert_eq!(r.detail, "no attempt could be made"),
        Answer::Upstream { .. } => panic!("expected an error"),
    }
}

#[test]
fn busy_pools_make_a_request_wait() {
    let mut p = pool(1);
    let mut e = start(&p);
    lease(e.next(&mut p, at(0), &clock()));
    let mut other = start(&p);
    match other.next(&mut p, at(100), &clock()) {
        Action::WaitUntil(t) => assert_eq!(t, at(1100)),
        _ => panic!("expected a wait"),
    }
    assert_eq!(other.attempts, 0);
    assert_eq!(lease(other.next(&mut p, at(1100), &clock())).idx, 0);
}

#[test]
fn saturated_pools_refuse() {
    let mut p = pool(1);
    let mut e = start(&p);
    lease(e.next(&mut p, at(0), &clock()));
    let mut hasty = Exchange::new(1, at(100), Duration::from_millis(500));
    match hasty.next(&mut p, at(100), &clock()) {
        Action::Refuse(r) => {
            assert_eq!((r.status, r.error), (429, "rotator_saturated"));
            assert_eq!(
                r.detail,
                "every key's per-second budget is spent; next slot in 1000ms"
            );
            assert_eq!(r.retry_after_ms, Some(1000));
        }
        _ => panic!("expected a refusal"),
    }
}

#[test]
fn pools_without_a_usable_key_refuse() {
    let mut p = pool(1);
    let mut e = start(&p);
    let l = lease(e.next(&mut p, at(0), &clock()));
    e.response(&mut p, at(0), l, response(403, ""));
    assert!(e.may_try());
    match e.next(&mut p, at(1000), &clock()) {
        Action::Refuse(r) => {
            assert_eq!((r.status, r.error), (503, "no_usable_key"));
            assert_eq!(
                r.detail,
                "k1:..key0 disabled (HTTP 403) until 2026-09-03T20:46:07Z"
            );
            assert_eq!(r.retry_after_ms, Some(299_000));
        }
        _ => panic!("expected a refusal"),
    }
    let r = refusal(AcquireError::Unavailable { retry_after: None, summary: "s".to_string() });
    assert_eq!((r.status, r.retry_after_ms), (503, None));
}

#[test]
fn a_lone_retry_after_holds_the_key() {
    let mut p = pool(1);
    let mut e = start(&p);
    let l = lease(e.next(&mut p, at(0), &clock()));
    let mut r = response(429, "");
    r.headers.insert("retry-after", HeaderValue::from_static("30"));
    assert_eq!(e.response(&mut p, at(0), l, r), Verdict::RetryOtherKey);
    assert_eq!(p.inner[0].hold_until, Some(at(30_000)));
    assert_eq!(p.inner[0].consecutive_429, 1);
    assert!(!p.inner[0].limits_learned);
    match e.next(&mut p, at(0), &clock()) {
        Action::Refuse(r) => {
            assert_eq!((r.status, r.error), (429, "rotator_saturated"));
            assert_eq!(r.retry_after_ms, Some(30_000));
        }
        _ => panic!("expected a refusal"),
    }
    assert_eq!(e.attempts, 1);
    // Only after a 429 does it say anything about the limits.
    let mut p = pool(1);
    let mut e = start(&p);
    let l = lease(e.next(&mut p, at(0), &clock()));
    let mut r = response(503, "");
    r.headers.insert("retry-after", HeaderValue::from_static("30"));
    e.response(&mut p, at(0), l, r);
    assert_eq!(p.inner[0].hold_until, None);
}

#[test]
fn leases_of_no_key_are_answered() {
    let mut p = pool(1);
    let mut e = start(&p);
    let l = Lease { idx: 5, token: "t".to_string(), label: "k6".to_string() };
    assert_eq!(e.response(&mut p, at(0), l, response(500, "")), Verdict::ReturnToClient);
    assert!(!e.may_try());
    assert_eq!(p.inner[0].stats.server_5xx, 0);
}

#[test]
fn other_refusals_have_their_words() {
    let r = unauthorized();
    assert_eq!((r.status, r.error), (401, "unauthorized"));
    assert_eq!(r.detail, "missing or wrong X-Proxy-Token");
    let r = body_too_large("length limit exceeded".to_string());
    assert_eq!((r.status, r.error), (413, "body_too_large"));
    assert_eq!(r.detail, "length limit exceeded");
    assert_eq!(r.retry_after_ms, None);
}

#[test]
fn full_counters_leave_no_room() {
    let mut p = pool(1);
    p.inner[0].stats.transport_errors = u64::MAX;
    let e = UpstreamError::Body("x".to_string());
    assert!(!has_failure_room(&p, 0, &e));
    assert!(has_failure_room(&p, 1, &e));
    p.inner[0].stats.upstream_429 = u64::MAX;
    assert!(!has_response_room(&p, 0, &response(429, "")));
    assert!(has_response_room(&p, 0, &response(200, "")));
}
