use brave_rotator::clock::Duration;
use brave_rotator::config::{
    check_base_url, env_or, first_env, parse_bool, parse_env, parse_keys, Config, EnvVars,
};
use brave_rotator::upstream::UriParts;

fn nothing() -> EnvVars {
    EnvVars {
        brave_api_keys: None,
        brave_keys: None,
        listen_addr: None,
        brave_base_url: None,
        proxy_token: None,
        upstream_timeout_ms: None,
        max_queue_wait_ms: None,
        report_interval_secs: None,
        window_margin_ms: None,
        default_rps_per_key: None,
        max_body_bytes: None,
        worker_threads: None,
        access_log: None,
    }
}

fn with_keys() -> EnvVars {
    EnvVars { brave_api_keys: set("a"), ..nothing() }
}

fn set(s: &str) -> Option<String> {
    Some(s.to_string())
}

fn error_of(env: &EnvVars) -> String {
    Config::from_env(env, Ok(())).unwrap_err()
}

#[test]
fn unset_variables_have_their_defaults() {
    let env = with_keys();
    assert_eq!(env.listen_text(), "0.0.0.0:8080");
    let c = Config::from_env(&env, Ok(())).unwrap();
    assert_eq!(c.keys, ["a"]);
    assert_eq!(c.duplicate_keys, 0);
    assert_eq!(c.listen, "0.0.0.0:8080");
    assert_eq!(c.upstream_base, "https://api.search.brave.com");
    assert_eq!(c.upstream_timeout, Duration::from_secs(15));
    assert_eq!(c.max_queue_wait, Duration::from_secs(5));
    assert_eq!(c.report_interval, Duration::from_secs(60));
    assert_eq!(c.window_margin, Duration::from_millis(100));
    assert_eq!(c.default_rps_per_key, 1);
    assert_eq!(c.max_body_bytes, 4_194_304);
    assert_eq!(c.proxy_token, None);
    assert_eq!(c.worker_threads, 2);
    assert!(c.access_log);
}

#[test]
fn set_variables_are_read() {
    let env = EnvVars {
        brave_api_keys: set("  "),
        brave_keys: set("b c,b"),
        listen_addr: set(" 127.0.0.1:9 "),
        brave_base_url: set("http://localhost:1234//"),
        proxy_token: set(" secret "),
        upstream_timeout_ms: set(" 1 "),
        max_queue_wait_ms: set("0"),
        report_interval_secs: set("0"),
        window_margin_ms: set("+7"),
        default_rps_per_key: set("0"),
        max_body_bytes: set("10"),
        worker_threads: set("0"),
        access_log: set("Off"),
    };
    assert_eq!(env.listen_text(), "127.0.0.1:9");
    let c = Config::from_env(&env, Ok(())).unwrap();
    assert_eq!(c.keys, ["b", "c"]);
    assert_eq!(c.duplicate_keys, 1);
    assert_eq!(c.listen, "127.0.0.1:9");
    assert_eq!(c.upstream_base, "http://localhost:1234");
    assert_eq!(c.upstream_timeout, Duration::from_millis(1));
    assert_eq!(c.max_queue_wait, Duration::from_millis(0));
    assert_eq!(c.report_interval, Duration::from_secs(1));
    assert_eq!(c.window_margin, Duration::from_millis(7));
    assert_eq!(c.default_rps_per_key, 1);
    assert_eq!(c.max_body_bytes, 10);
    assert_eq!(c.proxy_token.as_deref(), Some("secret"));
    assert_eq!(c.worker_threads, 1);
    assert!(!c.access_log);
}

#[test]
fn keys_are_split_and_deduplicated() {
    let (keys, dropped) = parse_keys(" a,b;;c\t a\nd ,c");
    assert_eq!(keys, ["a", "b", "c", "d"]);
    assert_eq!(dropped, 2);
    let (keys, dropped) = parse_keys(" ,;\n");
    assert!(keys.is_empty());
    assert_eq!(dropped, 0);
}

#[test]
fn missing_keys_are_an_error() {
    assert_eq!(
        error_of(&nothing()),
        "BRAVE_API_KEYS is empty. Provide one or more comma-separated Brave Search API keys."
    );
}

#[test]
fn bad_addresses_are_an_error() {
    let env = EnvVars { listen_addr: set(" here\" "), ..with_keys() };
    let r = Config::from_env(&env, Err("invalid socket address syntax".to_string()));
    assert_eq!(
        r.unwrap_err(),
        "LISTEN_ADDR=\" here\\\" \" is invalid: invalid socket address syntax"
    );
}

#[test]
fn bad_base_urls_are_an_error() {
    let env = EnvVars { brave_base_url: set("http://a b"), ..with_keys() };
    assert_eq!(error_of(&env), "BRAVE_BASE_URL is not a valid URL: invalid uri character");
    let must = "BRAVE_BASE_URL must include scheme and host, e.g. https://api.search.brave.com";
    let env = EnvVars { brave_base_url: set("localhost"), ..with_keys() };
    assert_eq!(error_of(&env), must);
    let none = UriParts { scheme: None, authority: set("a") };
    assert_eq!(check_base_url(Ok(none)).as_deref(), Some(must));
    let both = UriParts { scheme: set("http"), authority: set("a") };
    assert_eq!(check_base_url(Ok(both)), None);
    assert_eq!(
        check_base_url(Err("no".to_string())).as_deref(),
        Some("BRAVE_BASE_URL is not a valid URL: no")
    );
}

#[test]
fn bad_numbers_are_an_error() {
    let env = EnvVars { upstream_timeout_ms: set("1s"), ..with_keys() };
    assert_eq!(
        error_of(&env),
        "UPSTREAM_TIMEOUT_MS=\"1s\" is invalid: invalid digit found in string"
    );
    let env = EnvVars { max_queue_wait_ms: set("18446744073709551616"), ..with_keys() };
    assert_eq!(
        error_of(&env),
        "MAX_QUEUE_WAIT_MS=\"18446744073709551616\" is invalid: number too large to fit in target type"
    );
    let env = EnvVars { report_interval_secs: set("-1"), ..with_keys() };
    assert_eq!(
        error_of(&env),
        "REPORT_INTERVAL_SECS=\"-1\" is invalid: invalid digit found in string"
    );
    let env = EnvVars { window_margin_ms: set("+"), ..with_keys() };
    assert_eq!(
        error_of(&env),
        "WINDOW_MARGIN_MS=\"+\" is invalid: invalid digit found in string"
    );
    let env = EnvVars { default_rps_per_key: set("4294967296"), ..with_keys() };
    assert_eq!(
        error_of(&env),
        "DEFAULT_RPS_PER_KEY=\"4294967296\" is invalid: number too large to fit in target type"
    );
    let env = EnvVars { max_body_bytes: set("lots"), ..with_keys() };
    assert_eq!(
        error_of(&env),
        "MAX_BODY_BYTES=\"lots\" is invalid: invalid digit found in string"
    );
    let env = EnvVars { worker_threads: set("2.0"), ..with_keys() };
    assert_eq!(
        error_of(&env),
        "WORKER_THREADS=\"2.0\" is invalid: invalid digit found in string"
    );
}

#[test]
fn switches_have_several_spellings() {
    for on in ["1", "true", "YES", " On "] {
        assert_eq!(parse_bool("X", &set(on), false), Ok(true));
    }
    for off in ["0", "False", "no", "OFF"] {
        assert_eq!(parse_bool("X", &set(off), true), Ok(false));
    }
    assert_eq!(parse_bool("X", &set("  "), true), Ok(true));
    assert_eq!(parse_bool("X", &None, false), Ok(false));
    let env = EnvVars { access_log: set("maybe"), ..with_keys() };
    assert_eq!(error_of(&env), "ACCESS_LOG=\"maybe\" is invalid: expected true or false");
}

#[test]
fn blank_variables_count_as_unset() {
    assert_eq!(first_env(&set(" "), &set("b")), set("b"));
    assert_eq!(first_env(&set("a"), &set("b")), set("a"));
    assert_eq!(first_env(&None, &set("\t")), None);
    assert_eq!(env_or(&set(""), "d"), "d");
    assert_eq!(env_or(&set(" x "), "d"), " x ");
    assert_eq!(parse_env("N", "r", Ok::<u8, String>(3)), Ok(3));
    assert_eq!(
        parse_env("N", "r", Err::<u8, String>("why".to_string())),
        Err("N=\"r\" is invalid: why".to_string())
    );
}
