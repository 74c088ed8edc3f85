use brave_rotator::clock::{fmt_dur, fmt_instant, Clock, Duration, Instant};
use brave_rotator::config::{Config, EnvVars};
use brave_rotator::header::{has_room, text_of};
use brave_rotator::key::Stats;
use brave_rotator::proxy::{
    authorized, describe_request, excerpt, forward_headers, hint_for, hop_by_hop, request_line,
    return_headers, snippet, strip_request_header, strip_response_header,
};
use brave_rotator::query::{find_param, hex, percent_decode, query_pairs, query_param, url_decode};
use brave_rotator::reply::{build_response, health, ErrorReply};
use brave_rotator::snapshot::PoolSnapshot;
use brave_rotator::text::{decimal, parse_number, short, split, split_once, trim};
use brave_rotator::upstream::{
    accept_target, connect_timeout, request_headers, target, UpstreamError, UpstreamResponse,
    UriParts,
};
use http::{HeaderMap, HeaderName, HeaderValue};

fn headers(pairs: &[(&str, &str)]) -> HeaderMap {
    let mut h = HeaderMap::new();
    for (k, v) in pairs {
        h.append(
            HeaderName::from_bytes(k.as_bytes()).unwrap(),
            HeaderValue::from_str(v).unwrap(),
        );
    }
    h
}

fn values(h: &HeaderMap, name: &str) -> Vec<String> {
    h.get_all(name).iter().map(|v| v.to_str().unwrap().to_string()).collect()
}

fn config(token: Option<&str>) -> Config {
    let env = EnvVars {
        brave_api_keys: Some("k".to_string()),
        brave_keys: None,
        listen_addr: None,
        brave_base_url: None,
        proxy_token: token.map(|t| t.to_string()),
        upstream_timeout_ms: None,
        max_queue_wait_ms: None,
        report_interval_secs: None,
        window_margin_ms: None,
        default_rps_per_key: None,
        max_body_bytes: None,
        worker_threads: None,
        access_log: None,
    };
    Config::from_env(&env, Ok(())).unwrap()
}

fn snapshot() -> PoolSnapshot {
    PoolSnapshot {
        now: String::new(),
        keys_total: 3,
        keys_healthy: 2,
        rps_capacity: 51,
        slots_available_now: 50,
        month_limit_total: Some(2000),
        month_remaining_total: None,
        month_unlimited_keys: 0,
        totals: Stats::default(),
        keys: Vec::new(),
    }
}

#[test]
fn only_the_connection_is_hop_by_hop() {
    for name in [
        "connection",
        "keep-alive",
        "proxy-authenticate",
        "proxy-authorization",
        "te",
        "trailer",
        "transfer-encoding",
        "upgrade",
        "content-length",
    ] {
        assert!(hop_by_hop(name));
        assert!(strip_request_header(name));
        assert!(strip_response_header(name));
    }
    for name in
        ["host", "expect", "x-subscription-token", "x-api-key", "x-proxy-token", "authorization"]
    {
        assert!(!hop_by_hop(name));
        assert!(strip_request_header(name));
        assert!(!strip_response_header(name));
    }
    assert!(strip_response_header("x-ratelimit-reset"));
    assert!(!strip_response_header("x-ratelimit"));
    assert!(!strip_request_header("x-ratelimit-reset"));
    assert!(!strip_request_header("accept"));
}

#[test]
fn requests_are_forwarded_without_credentials() {
    let h = headers(&[
        ("Host", "localhost"),
        ("Accept", "a"),
        ("X-Subscription-Token", "mine"),
        ("Accept", "b"),
        ("Connection", "close"),
        ("Authorization", "Bearer x"),
    ]);
    let out = forward_headers(&h);
    assert_eq!(out.len(), 2);
    assert_eq!(values(&out, "accept"), ["a", "b"]);
}

#[test]
fn responses_come_back_without_the_limits_of_the_key() {
    let h = headers(&[
        ("X-RateLimit-Limit", "1"),
        ("X-RateLimit-Reset", "2"),
        ("Content-Type", "text/html"),
        ("Set-Cookie", "a"),
        ("Set-Cookie", "b"),
        ("Content-Length", "3"),
    ]);
    let out = return_headers(&h);
    assert_eq!(out.len(), 3);
    assert_eq!(values(&out, "content-type"), ["text/html"]);
    assert_eq!(values(&out, "set-cookie"), ["a", "b"]);
}

#[test]
fn odd_names_are_stripped_too() {
    let mut h = HeaderMap::new();
    let name = HeaderName::from_lowercase(b"x-ratelimit-\"a").unwrap();
    h.insert(name.clone(), HeaderValue::from_static("1"));
    h.append(name, HeaderValue::from_static("2"));
    let kept = HeaderName::from_lowercase(b"x-\"kept").unwrap();
    h.insert(kept, HeaderValue::from_static("3"));
    let out = return_headers(&h);
    assert_eq!(out.len(), 1);
    assert_eq!(out.keys().next().unwrap().as_str(), "x-\"kept");
    assert_eq!(forward_headers(&h).len(), 3);
    assert_eq!(text_of(&h, "x-ratelimit-\"a").as_deref(), Some("1"));
    assert_eq!(text_of(&h, "no such name"), None);
    let up = UpstreamResponse { status: 200, headers: h, body: Vec::new() };
    let r = build_response(up, &snapshot(), "k1:..abcd", 1);
    assert!(r.headers.keys().all(|n| n.as_str() != "x-ratelimit-\"a"));
}

#[test]
fn the_secret_opens_the_proxy() {
    assert!(authorized(&config(None), &HeaderMap::new()));
    let cfg = config(Some("s3cret"));
    assert!(!authorized(&cfg, &HeaderMap::new()));
    assert!(authorized(&cfg, &headers(&[("X-Proxy-Token", "s3cret")])));
    assert!(authorized(&cfg, &headers(&[("X-Subscription-Token", "s3cret")])));
    assert!(!authorized(&cfg, &headers(&[("X-Proxy-Token", "S3CRET")])));
    assert!(!authorized(&cfg, &headers(&[("Authorization", "s3cret")])));
    // Only the first value of a header counts.
    assert!(!authorized(&cfg, &headers(&[("X-Proxy-Token", "no"), ("X-Proxy-Token", "s3cret")])));
    assert!(authorized(
        &cfg,
        &headers(&[("X-Proxy-Token", "no"), ("X-Subscription-Token", "s3cret")])
    ));
}

#[test]
fn hexadecimal_digits_have_values() {
    assert_eq!(hex(b'0'), Some(0));
    assert_eq!(hex(b'9'), Some(9));
    assert_eq!(hex(b'a'), Some(10));
    assert_eq!(hex(b'F'), Some(15));
    assert_eq!(hex(b'g'), None);
    assert_eq!(hex(b'/'), None);
}

#[test]
fn query_components_are_decoded() {
    assert_eq!(url_decode("rust+async%20runtime"), "rust async runtime");
    assert_eq!(url_decode("caf%C3%A9"), "caf\u{e9}");
    assert_eq!(url_decode("caf\u{e9}"), "caf\u{e9}");
    assert_eq!(url_decode("100%"), "100%");
    assert_eq!(url_decode("%4"), "%4");
    assert_eq!(url_decode("%zz%41"), "%zzA");
    assert_eq!(url_decode("%2525"), "%25");
    assert_eq!(url_decode("%ff!"), "\u{fffd}!");
    assert_eq!(percent_decode(b"%ff+"), [0xff, b' ']);
    assert_eq!(url_decode(""), "");
}

#[test]
fn parameters_are_found() {
    assert_eq!(query_param("/s?a=1&q=x%26y&q=z", "q").as_deref(), Some("x&y"));
    assert_eq!(query_param("/s?%71=1", "q").as_deref(), Some("1"));
    assert_eq!(query_param("/s?q", "q").as_deref(), Some(""));
    assert_eq!(query_param("/s?q=a=b?c", "q").as_deref(), Some("a=b?c"));
    assert_eq!(query_param("/s?p=1", "q"), None);
    assert_eq!(query_param("/q=1", "q"), None);
    let pairs = query_pairs("a=1&&b");
    assert_eq!(pairs.len(), 3);
    assert_eq!(find_param(&pairs, "a").as_deref(), Some("1"));
    assert_eq!(find_param(&pairs, "").as_deref(), Some(""));
    assert_eq!(find_param(&pairs, "c"), None);
}

#[test]
fn long_texts_are_shortened() {
    assert_eq!(short("abc", 3), "abc");
    assert_eq!(short("abcd", 3), "abc...");
    assert_eq!(short("\u{e9}\u{e9}", 1), "\u{e9}...");
}

#[test]
fn requests_are_described() {
    assert_eq!(
        describe_request("GET", "/res/v1/web/search?q=rust+%22async%22&count=3"),
        "GET /res/v1/web/search q=\"rust \\\"async\\\"\""
    );
    assert_eq!(describe_request("POST", "/x?count=3"), "POST /x ?count=3");
    assert_eq!(describe_request("GET", "/x?"), "GET /x");
    assert_eq!(describe_request("GET", "/x"), "GET /x");
    assert_eq!(request_line("GET", "/x?q=1", Some("Q".to_string())), "GET /x q=Q");
    let long = format!("/x?q={}", "a".repeat(130));
    assert_eq!(describe_request("GET", &long), format!("GET /x q=\"{}...\"", "a".repeat(120)));
}

#[test]
fn hints_fit_the_mistake() {
    assert!(hint_for(404, "/search").contains("live under /res/v1/, e.g. /res/v1/web/search?q=...;"));
    assert!(hint_for(404, "/res/v1/x").contains("unknown endpoint"));
    let rejected = " (hint: Brave rejected the query parameters, see its detail above)";
    assert_eq!(hint_for(400, "/"), rejected);
    assert_eq!(hint_for(422, "/res/v1/web/search"), rejected);
    assert_eq!(hint_for(500, "/search"), "");
}

#[test]
fn snippets_are_printable_and_short() {
    assert_eq!(snippet(b" {\"a\":\n\t1}\r\n"), "{\"a\":1}");
    assert_eq!(snippet(b"a\xffb"), "a\u{fffd}b");
    assert_eq!(snippet(b""), "");
    let body = "x".repeat(161);
    assert_eq!(snippet(body.as_bytes()), format!("{}...", "x".repeat(160)));
    let body = "x".repeat(160);
    assert_eq!(snippet(body.as_bytes()), body);
    assert_eq!(excerpt("\u{7f}\u{9f}\u{a0}ok\u{85}"), "ok");
}

#[test]
fn errors_are_json() {
    let e = ErrorReply {
        status: 429,
        error: "rotator_saturated",
        detail: "say \"when\"".to_string(),
        retry_after_ms: Some(1001),
    };
    let r = e.respond();
    assert_eq!(r.status, 429);
    assert_eq!(values(&r.headers, "content-type"), ["application/json"]);
    assert_eq!(values(&r.headers, "retry-after"), ["2"]);
    let body: serde_json::Value = serde_json::from_slice(&r.body).unwrap();
    assert_eq!(body["error"], "rotator_saturated");
    assert_eq!(body["detail"], "say \"when\"");
    assert_eq!(body["status"], 429);
    assert_eq!(body["retry_after_ms"], 1001);
}

#[test]
fn errors_may_have_no_retry_time() {
    let e = ErrorReply {
        status: 502,
        error: "upstream_unreachable",
        detail: "x".to_string(),
        retry_after_ms: None,
    };
    let r = e.respond();
    assert_eq!(r.headers.len(), 1);
    assert_eq!(
        String::from_utf8(r.body).unwrap(),
        "{\"detail\":\"x\",\"error\":\"upstream_unreachable\",\"status\":502}"
    );
    for (ms, secs) in [(0u128, "1"), (1, "1"), (1000, "1"), (5000, "5"), (5999, "6")] {
        let e = ErrorReply {
            status: 503,
            error: "no_usable_key",
            detail: String::new(),
            retry_after_ms: Some(ms),
        };
        assert_eq!(values(&e.respond().headers, "retry-after"), [secs]);
    }
}

#[test]
fn responses_carry_the_figures_of_the_pool() {
    let up = UpstreamResponse {
        status: 206,
        headers: headers(&[
            ("X-RateLimit-Limit", "1, 2"),
            ("X-RateLimit-Policy", "1;w=1"),
            ("Content-Type", "application/json"),
            ("X-Rotator-Key", "forged"),
        ]),
        body: b"{}".to_vec(),
    };
    assert!(has_room(&up.headers, 4));
    let r = build_response(up, &snapshot(), "k2:..wOrd", 3);
    assert_eq!(r.status, 206);
    assert_eq!(r.body, b"{}");
    assert_eq!(r.headers.len(), 5);
    assert_eq!(values(&r.headers, "x-ratelimit-limit"), ["51, 2000"]);
    assert_eq!(values(&r.headers, "x-ratelimit-remaining"), ["50, ?"]);
    assert_eq!(values(&r.headers, "x-rotator-key"), ["k2:..wOrd"]);
    assert_eq!(values(&r.headers, "x-rotator-attempts"), ["3"]);
    assert_eq!(values(&r.headers, "content-type"), ["application/json"]);
}

#[test]
fn a_pool_without_cap_says_zero() {
    let up = UpstreamResponse { status: 200, headers: HeaderMap::new(), body: Vec::new() };
    let snap = PoolSnapshot { month_unlimited_keys: 1, ..snapshot() };
    let r = build_response(up, &snap, "k1:..\u{1}", 1);
    assert_eq!(values(&r.headers, "x-ratelimit-limit"), ["51, 0"]);
    assert_eq!(values(&r.headers, "x-ratelimit-remaining"), ["50, 0"]);
    // A label that no header can carry is left out.
    assert!(r.headers.get("x-rotator-key").is_none());
    assert_eq!(text_of(&r.headers, "x-rotator-attempts").as_deref(), Some("1"));
}

#[test]
fn health_depends_on_usable_keys() {
    let r = health(&snapshot());
    assert_eq!(r.status, 200);
    assert_eq!(
        String::from_utf8(r.body).unwrap(),
        "{\"keys_healthy\":2,\"keys_total\":3,\"status\":\"ok\"}"
    );
    let r = health(&PoolSnapshot { keys_healthy: 0, ..snapshot() });
    assert_eq!(r.status, 503);
    let body: serde_json::Value = serde_json::from_slice(&r.body).unwrap();
    assert_eq!(body["status"], "degraded");
    assert_eq!(values(&r.headers, "content-type"), ["application/json"]);
}

#[test]
fn the_key_replaces_every_token() {
    let h = headers(&[("X-Subscription-Token", "a"), ("X-Subscription-Token", "b")]);
    let out = request_headers(&h, "KEY", "brave-rotator/0.1.0").unwrap();
    assert_eq!(out.len(), 3);
    assert_eq!(values(&out, "x-subscription-token"), ["KEY"]);
    assert_eq!(values(&out, "accept"), ["application/json"]);
    assert_eq!(values(&out, "user-agent"), ["brave-rotator/0.1.0"]);
    let h = headers(&[("Accept", "text/html"), ("User-Agent", "me")]);
    let out = request_headers(&h, "KEY", "brave-rotator/0.1.0").unwrap();
    assert_eq!(values(&out, "accept"), ["text/html"]);
    assert_eq!(values(&out, "user-agent"), ["me"]);
    match request_headers(&h, "bad\nkey", "x") {
        Err(UpstreamError::Request(e)) => assert_eq!(e, "key contains invalid header characters"),
        _ => panic!("expected an error"),
    }
}

#[test]
fn paths_are_forwarded_verbatim() {
    let base = "https://api.search.brave.com";
    let t = target(base, "/res/v1/web/search?q=a+b&x=%20").unwrap();
    assert_eq!(t, "https://api.search.brave.com/res/v1/web/search?q=a+b&x=%20");
    match target(base, "/a b") {
        Err(UpstreamError::Request(e)) => assert_eq!(
            e,
            "invalid request for https://api.search.brave.com/a b: invalid uri character"
        ),
        other => panic!("expected an error, got {other:?}"),
    }
    match accept_target("u".to_string(), Err("bad".to_string())) {
        Err(UpstreamError::Request(e)) => assert_eq!(e, "invalid request for u: bad"),
        other => panic!("expected an error, got {other:?}"),
    }
    let parts = UriParts { scheme: None, authority: None };
    assert_eq!(accept_target("u".to_string(), Ok(parts)).unwrap(), "u");
}

#[test]
fn upstream_errors_have_messages() {
    assert_eq!(
        UpstreamError::Timeout(Duration::from_millis(1500)).message(),
        "upstream timed out after 1500ms"
    );
    assert_eq!(UpstreamError::Request("x".to_string()).message(), "upstream request failed: x");
    assert_eq!(UpstreamError::Body("y".to_string()).message(), "upstream body error: y");
    assert_eq!(connect_timeout(Duration::from_secs(15)), Duration::from_secs(10));
    assert_eq!(connect_timeout(Duration::from_secs(3)), Duration::from_secs(3));
}

#[test]
fn room_for_headers_is_counted() {
    let mut h = HeaderMap::new();
    assert!(has_room(&h, 6554));
    assert!(!has_room(&h, 6555));
    for i in 0..6553 {
        let name = HeaderName::from_bytes(format!("x-{i}").as_bytes()).unwrap();
        h.insert(name, HeaderValue::from_static("v"));
    }
    assert!(has_room(&h, 1));
    assert!(!has_room(&h, 2));
    h.insert("last", HeaderValue::from_static("v"));
    assert!(!has_room(&h, 1));
    assert!(has_room(&h, 0));
}

#[test]
fn times_are_written_for_people() {
    assert_eq!(fmt_dur(Duration::from_millis(252_900)), "4m 12s");
    assert_eq!(fmt_dur(Duration { nanos: 0 }), "0s");
    let clock = Clock { now: Instant { nanos: 5_000_000_000 }, wall: 1_000_000_000 };
    assert_eq!(fmt_instant(Instant { nanos: 5_000_000_000 }, &clock), "1970-01-01T00:00:01Z");
    assert_eq!(fmt_instant(Instant { nanos: 4_000_000_000 }, &clock), "1970-01-01T00:00:00Z");
    assert_eq!(fmt_instant(Instant { nanos: 3_999_999_999 }, &clock), "");
}

#[test]
fn text_is_cut_and_counted() {
    assert_eq!(trim("\u{3000} a b\t"), "a b");
    assert_eq!(split("a,,b", ','), ["a", "", "b"]);
    assert_eq!(split_once("a=b=c", '='), Some(("a", "b=c")));
    assert_eq!(split_once("a", '='), None);
    assert_eq!(decimal(0), "0");
    assert_eq!(decimal(u128::MAX), "340282366920938463463374607431768211455");
    assert_eq!(parse_number("+042", 100), Some(42));
    assert_eq!(parse_number("101", 100), None);
    assert_eq!(parse_number("++1", 100), None);
}
