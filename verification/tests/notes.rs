use brave_rotator::clock::{Clock, Duration, Instant};
use brave_rotator::notes::{
    cooldown_notes, failure_note, giving_up_note, learned_line, outcome_notes, refusal_note,
    response_note, unreachable_note, Answered, KeyMark, Level, Note,
};
use brave_rotator::outcome::{Outcome, Verdict};
use brave_rotator::pool::{Pool, PoolConfig};
use brave_rotator::ratelimit::{RateLimitInfo, Windows};
use brave_rotator::reply::ErrorReply;

fn pool() -> Pool {
    let keys = vec!["aaaaRECn".to_string()];
    Pool::new(
        &keys,
        PoolConfig {
            window_margin: Duration::from_millis(100),
            default_rps: 1,
            monthly_limits: Vec::new(),
        },
    )
}

fn clock() -> Clock {
    Clock { now: Instant { nanos: 9_000_000_000 }, wall: 1_788_468_067_000_000_000 }
}

fn info(month: u64, remaining: Option<u64>, reset: Option<u64>) -> RateLimitInfo {
    RateLimitInfo {
        limit: Windows { second: Some(1), month: Some(month) },
        remaining: Windows { second: Some(0), month: remaining },
        reset: Windows { second: Some(3), month: reset },
        ..Default::default()
    }
}

fn lines(notes: Vec<Note>) -> Vec<(Level, String)> {
    notes.into_iter().map(|n| (n.level, n.text)).collect()
}

/// What is said when a response arrives.
fn told(
    p: &mut Pool,
    status: u16,
    rl: Option<RateLimitInfo>,
    body: Option<&str>,
) -> Vec<(Level, String)> {
    let before = KeyMark::of(&p.inner[0]);
    p.record(clock().now, 0, Outcome::Response { status, rl, body_snippet: body });
    lines(outcome_notes(&before, &p.inner[0], &rl, &clock()))
}

#[test]
fn plans_and_first_successes_are_told() {
    let mut p = pool();
    // 27 days, 5 hours, 41 minutes and 4 seconds.
    let rl = Some(info(2000, Some(1997), Some(2_353_264)));
    assert_eq!(
        told(&mut p, 200, rl, None),
        [
            (
                Level::Info,
                "key k1:..RECn: plan limits learned: 1 req/s, 2000 req/month, 1997 remaining, month resets in 27days 5h 41m 4s".to_string()
            ),
            (Level::Info, "key k1:..RECn: first successful request (HTTP 200)".to_string()),
        ]
    );
    assert_eq!(told(&mut p, 200, rl, None), []);
    p.inner[0].month_limit = Some(0);
    assert_eq!(
        learned_line(&p.inner[0], &info(0, None, None), None),
        "key k1:..RECn: plan limits learned: 1 req/s, no monthly cap"
    );
    p.inner[0].month_limit = None;
    assert_eq!(
        learned_line(&p.inner[0], &info(0, None, None), None),
        "key k1:..RECn: plan limits learned: 1 req/s, ? req/month, ? remaining, month resets in ?"
    );
}

#[test]
fn trouble_is_told() {
    let mut p = pool();
    assert_eq!(
        told(&mut p, 500, None, Some("oops")),
        [(Level::Warn, "key k1:..RECn: HTTP 500: oops (1/3 before disabling)".to_string())]
    );
    let before = KeyMark::of(&p.inner[0]);
    p.record(clock().now, 0, Outcome::Transport("reset".to_string()));
    assert_eq!(
        lines(outcome_notes(&before, &p.inner[0], &None, &clock())),
        [(Level::Warn, "key k1:..RECn: transport error: reset (2/3 before disabling)".to_string())]
    );
    assert_eq!(
        told(&mut p, 401, None, None),
        [(
            Level::Warn,
            "key k1:..RECn: DISABLED for 5m (strike 1) - HTTP 401; will probe again at 2026-09-03T20:46:07Z".to_string()
        )]
    );
    assert_eq!(
        told(&mut p, 204, None, None),
        [
            (Level::Info, "key k1:..RECn: first successful request (HTTP 204)".to_string()),
            (Level::Info, "key k1:..RECn: recovered (HTTP 204)".to_string()),
        ]
    );
    p.inner[0].limits_learned = true;
    assert_eq!(
        told(&mut p, 429, Some(info(2000, Some(5), None)), None),
        [(
            Level::Debug,
            "key k1:..RECn: upstream per-second limit hit, holding 3s".to_string()
        )]
    );
    assert_eq!(
        told(&mut p, 429, Some(info(2000, Some(0), Some(60))), None),
        [(
            Level::Warn,
            "key k1:..RECn: monthly quota EXHAUSTED (2000 req/month); parked until 2026-09-03T20:42:07Z (in 1m)".to_string()
        )]
    );
    assert_eq!(told(&mut p, 429, Some(info(2000, Some(0), Some(60))), None), []);
}

#[test]
fn ends_of_cooldowns_are_told() {
    let mut p = pool();
    let t = clock().now;
    p.record(t, 0, Outcome::Response { status: 401, rl: None, body_snippet: Some("no") });
    let before = KeyMark::all(&p);
    assert_eq!(lines(cooldown_notes(&before, &p)), []);
    p.inner[0].refresh(t.plus(Duration::from_secs(300)));
    assert_eq!(
        lines(cooldown_notes(&before, &p)),
        [(
            Level::Info,
            "key k1:..RECn: cooldown over, probing again (was: HTTP 401: no)".to_string()
        )]
    );
    p.record(
        t,
        0,
        Outcome::Response { status: 200, rl: Some(info(9, Some(0), Some(5))), body_snippet: None },
    );
    let before = KeyMark::all(&p);
    p.inner[0].refresh(t.plus(Duration::from_secs(5)));
    assert_eq!(
        lines(cooldown_notes(&before, &p)),
        [(
            Level::Info,
            "key k1:..RECn: monthly quota should have reset, probing again".to_string()
        )]
    );
}

#[test]
fn responses_are_told() {
    let none: Option<String> = None;
    let mut a = Answered {
        req: "GET /res/v1/web/search q=\"rust\"",
        status: 200,
        label: "k2:..wOrd",
        elapsed_ms: 311,
        attempts: 1,
        excerpt: &none,
        path: "/res/v1/web/search",
    };
    let n = response_note(Verdict::Success, true, &a);
    assert_eq!(n.level, Level::Info);
    assert_eq!(n.text, "GET /res/v1/web/search q=\"rust\" -> 200 via k2:..wOrd in 311ms");
    a.attempts = 2;
    let n = response_note(Verdict::Success, false, &a);
    assert_eq!(n.level, Level::Debug);
    assert!(n.text.ends_with("in 311ms (attempt 2)"));
    let said = Some("{}".to_string());
    a.status = 422;
    a.excerpt = &said;
    let n = response_note(Verdict::ReturnToClient, true, &a);
    assert_eq!(n.level, Level::Warn);
    assert_eq!(
        n.text,
        "GET /res/v1/web/search q=\"rust\" -> 422 via k2:..wOrd in 311ms: {} (hint: Brave rejected the query parameters, see its detail above)"
    );
    a.status = 401;
    a.excerpt = &none;
    let n = response_note(Verdict::RetryOtherKey, true, &a);
    assert_eq!(n.level, Level::Warn);
    assert!(n.text.ends_with(" in 311ms: (empty body); trying another key"));
}

#[test]
fn ends_of_requests_are_told() {
    assert_eq!(failure_note("R", "k1", "e").text, "R via k1 failed: e; trying another key");
    assert_eq!(
        giving_up_note("R", 3, 503, "k1").text,
        "R: giving up after 3 attempts, returning upstream 503 from k1"
    );
    assert_eq!(unreachable_note("R", "d").text, "R: upstream unreachable: d");
    let mut e = ErrorReply {
        status: 429,
        error: "rotator_saturated",
        detail: "d".to_string(),
        retry_after_ms: Some(700),
    };
    assert_eq!(
        refusal_note("R", &e).text,
        "R: all keys busy for another 700ms (> MAX_QUEUE_WAIT_MS); rejecting with 429"
    );
    e.status = 503;
    assert_eq!(refusal_note("R", &e).text, "R: no usable key (d)");
    e.retry_after_ms = None;
    assert_eq!(refusal_note("R", &e).level, Level::Warn);
}
