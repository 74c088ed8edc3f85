use brave_rotator::clock::Duration;
use brave_rotator::ratelimit::{parse_policy_windows, parse_windows, RateLimitInfo, Windows};
use http::{HeaderMap, HeaderValue};

fn headers(pairs: &[(&str, &str)]) -> HeaderMap {
    let mut h = HeaderMap::new();
    for (k, v) in pairs {
        h.insert(
            http::HeaderName::from_bytes(k.as_bytes()).unwrap(),
            HeaderValue::from_str(v).unwrap(),
        );
    }
    h
}

#[test]
fn parses_documented_example() {
    let h = headers(&[
        ("X-RateLimit-Limit", "1, 15000"),
        ("X-RateLimit-Policy", "1;w=1, 15000;w=2592000"),
        ("X-RateLimit-Remaining", "0, 14523"),
        ("X-RateLimit-Reset", "1, 1234567"),
    ]);
    let rl = RateLimitInfo::from_headers(&h).expect("headers present");
    assert_eq!(rl.limit, Windows { second: Some(1), month: Some(15000) });
    assert_eq!(rl.remaining, Windows { second: Some(0), month: Some(14523) });
    assert_eq!(rl.reset, Windows { second: Some(1), month: Some(1234567) });
    assert_eq!(rl.window, Windows { second: Some(1), month: Some(2592000) });
    assert!(!rl.month_exhausted());
    assert_eq!(rl.second_wait(), Duration::from_secs(1));
    assert_eq!(rl.month_reset(), Some(Duration::from_secs(1234567)));
}

#[test]
fn detects_monthly_exhaustion_and_unlimited_plans() {
    let h = headers(&[("X-RateLimit-Limit", "1, 2000"), ("X-RateLimit-Remaining", "1, 0")]);
    assert!(RateLimitInfo::from_headers(&h).unwrap().month_exhausted());

    let h = headers(&[("X-RateLimit-Limit", "50, 0"), ("X-RateLimit-Remaining", "49, 0")]);
    assert!(
        !RateLimitInfo::from_headers(&h).unwrap().month_exhausted(),
        "0 limit = unlimited"
    );
}

#[test]
fn honours_retry_after_and_odd_formatting() {
    let h = headers(&[
        ("X-RateLimit-Remaining", " 0 ,  10 "),
        ("X-RateLimit-Reset", "2,100"),
        ("Retry-After", "5"),
    ]);
    let rl = RateLimitInfo::from_headers(&h).unwrap();
    assert_eq!(rl.remaining, Windows { second: Some(0), month: Some(10) });
    assert_eq!(rl.second_wait(), Duration::from_secs(5));
    assert_eq!(rl.limit, Windows::default());
}

#[test]
fn absent_headers_yield_none() {
    assert!(RateLimitInfo::from_headers(&HeaderMap::new()).is_none());
    let h = headers(&[("Content-Type", "application/json")]);
    assert!(RateLimitInfo::from_headers(&h).is_none());
}

#[test]
fn retry_after_alone_is_not_a_limit() {
    assert!(RateLimitInfo::from_headers(&headers(&[("Retry-After", "5")])).is_none());
}

#[test]
fn retry_after_alone_explains_a_429() {
    let h = headers(&[("Retry-After", " 5 ")]);
    let rl = RateLimitInfo::from_response(429, &h).unwrap();
    assert_eq!(rl, RateLimitInfo { retry_after: Some(5), ..RateLimitInfo::default() });
    assert!(RateLimitInfo::from_response(200, &h).is_none());
    let h = headers(&[("Retry-After", "Fri, 31 Dec 1999 23:59:59 GMT")]);
    assert!(RateLimitInfo::from_response(429, &h).is_none());
    let h = headers(&[("X-RateLimit-Limit", "1")]);
    assert_eq!(RateLimitInfo::from_response(200, &h), RateLimitInfo::from_headers(&h));
    assert_eq!(RateLimitInfo::from_response(429, &h), RateLimitInfo::from_headers(&h));
}

#[test]
fn written_pairs_are_read_back() {
    let both = Windows { second: Some(0), month: Some(u64::MAX) };
    for text in [
        "0, 18446744073709551615",
        " 0 ,  18446744073709551615 ",
        "0;w=7, 18446744073709551615;w=8",
    ] {
        assert_eq!(parse_windows(text), both);
    }
    assert_eq!(
        parse_policy_windows("0;w=7, 18446744073709551615;w=8"),
        Windows { second: Some(7), month: Some(8) }
    );
    assert_eq!(parse_windows("?, 3"), Windows { second: None, month: Some(3) });
}

#[test]
fn the_first_of_two_values_counts() {
    let mut h = headers(&[("X-RateLimit-Limit", "3")]);
    h.append("x-ratelimit-limit", HeaderValue::from_static("9"));
    let rl = RateLimitInfo::from_headers(&h).unwrap();
    assert_eq!(rl.limit, Windows { second: Some(3), month: None });
}

#[test]
fn values_that_are_not_text_are_ignored() {
    let mut h = HeaderMap::new();
    h.insert("x-ratelimit-limit", HeaderValue::from_bytes(b"1\xff").unwrap());
    assert!(RateLimitInfo::from_headers(&h).is_none());
    h.insert("x-ratelimit-reset", HeaderValue::from_static("4"));
    let rl = RateLimitInfo::from_headers(&h).unwrap();
    assert_eq!(rl.limit, Windows::default());
    assert_eq!(rl.reset, Windows { second: Some(4), month: None });
}

#[test]
fn items_are_read_one_by_one() {
    assert_eq!(parse_windows("7"), Windows { second: Some(7), month: None });
    assert_eq!(parse_windows("x, 8, 9"), Windows { second: None, month: Some(8) });
    assert_eq!(parse_windows("-1, +2"), Windows { second: None, month: Some(2) });
    assert_eq!(
        parse_windows("18446744073709551615, 18446744073709551616"),
        Windows { second: Some(u64::MAX), month: None }
    );
    assert_eq!(parse_windows(""), Windows::default());
    assert_eq!(
        parse_policy_windows("1; w= 5 ,2;q=1;w=6;w=7"),
        Windows { second: Some(5), month: Some(6) }
    );
    assert_eq!(parse_policy_windows("w=x;w=3, 4"), Windows::default());
}

#[test]
fn waits_are_between_a_second_and_a_minute() {
    let mut rl = RateLimitInfo::default();
    assert_eq!(rl.second_wait(), Duration::from_secs(1));
    rl.reset.second = Some(0);
    assert_eq!(rl.second_wait(), Duration::from_secs(1));
    rl.reset.second = Some(61);
    assert_eq!(rl.second_wait(), Duration::from_secs(60));
    rl.reset.second = Some(3);
    rl.retry_after = Some(9);
    assert_eq!(rl.second_wait(), Duration::from_secs(9));
    assert_eq!(rl.month_reset(), None);
}
