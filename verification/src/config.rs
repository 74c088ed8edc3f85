//! Runtime configuration, made once from environment variables.

use vstd::prelude::*;

use crate::clock::Duration;
use crate::key::opt_text;
use crate::text;
use crate::upstream::{self, UriParts};

verus! {

/// The environment variables that the configuration is made from, as far as they are set.
#[derive(Debug)]
pub struct EnvVars {
    pub brave_api_keys: Option<String>,
    pub brave_keys: Option<String>,
    pub listen_addr: Option<String>,
    pub brave_base_url: Option<String>,
    pub proxy_token: Option<String>,
    pub upstream_timeout_ms: Option<String>,
    pub max_queue_wait_ms: Option<String>,
    pub report_interval_secs: Option<String>,
    pub window_margin_ms: Option<String>,
    pub default_rps_per_key: Option<String>,
    pub max_body_bytes: Option<String>,
    pub worker_threads: Option<String>,
    pub access_log: Option<String>,
}

/// The runtime configuration.
#[derive(Debug, Clone)]
pub struct Config {
    /// Brave Search API subscription tokens to rotate between (deduplicated, in the order given).
    pub keys: Vec<String>,
    /// Number of duplicate keys dropped (reported at startup).
    pub duplicate_keys: usize,
    /// Address the proxy listens on.
    pub listen: String,
    /// Upstream base URL, without trailing slash.
    pub upstream_base: String,
    /// Total time budget for one upstream request/response.
    pub upstream_timeout: Duration,
    /// How long a client request may wait for a free rate-limit slot before it is rejected with
    /// 429.
    pub max_queue_wait: Duration,
    /// How often the health/quota summary is printed to the console.
    pub report_interval: Duration,
    /// Safety margin added to Brave's 1-second sliding window (network jitter).
    pub window_margin: Duration,
    /// Per-key requests/second assumed until Brave tells us the real plan limit.
    pub default_rps_per_key: u32,
    /// Largest request or response body we buffer.
    pub max_body_bytes: usize,
    /// Optional shared secret clients must present (X-Proxy-Token or X-Subscription-Token).
    pub proxy_token: Option<String>,
    /// Tokio worker threads.
    pub worker_threads: usize,
    /// Log every proxied request (method, path, search query, key, status, timing) at INFO.
    pub access_log: bool,
}

/// The models of the strings.
pub open spec fn texts(v: Seq<String>) -> Seq<Seq<char>> {
    v.map_values(|s: String| s@)
}

/// True for the characters that separate keys.
pub open spec fn separator(c: char) -> bool {
    c == ',' || c == ';' || text::whitespace(c)
}

/// How many characters come before the first separator.
pub open spec fn word_len(s: Seq<char>) -> nat
    decreases s.len(),
{
    if s.len() == 0 || separator(s[0]) {
        0
    } else {
        1 + word_len(s.drop_first())
    }
}

/// The words between the separators, in order.
pub open spec fn words(s: Seq<char>) -> Seq<Seq<char>>
    decreases s.len(),
{
    if s.len() == 0 {
        Seq::empty()
    } else if word_len(s) == 0 {
        words(s.drop_first())
    } else {
        proof {
            lemma_word_len(s);
        }
        seq![s.take(word_len(s) as int)] + words(s.skip(word_len(s) as int))
    }
}

/// A word ends at a separator or at the end of the text.
pub proof fn lemma_word_len(s: Seq<char>)
    ensures
        word_len(s) <= s.len(),
        word_len(s) < s.len() ==> separator(s[word_len(s) as int]),
    decreases s.len(),
{
    if s.len() > 0 && !separator(s[0]) {
        lemma_word_len(s.drop_first());
    }
}

/// The list without repetitions, each word where it first occurs.
pub open spec fn distinct(list: Seq<Seq<char>>) -> Seq<Seq<char>>
    decreases list.len(),
{
    if list.len() == 0 {
        Seq::empty()
    } else if distinct(list.drop_last()).contains(list.last()) {
        distinct(list.drop_last())
    } else {
        distinct(list.drop_last()).push(list.last())
    }
}

/// The keys that a text lists, and how many of them were dropped as duplicates.
pub fn parse_keys(raw: &str) -> (r: (Vec<String>, usize))
    ensures
        texts(r.0@) == distinct(words(raw@)),
        r.1 == words(raw@).len() - distinct(words(raw@)).len(),
{
    let chars = text::chars_of(raw);
    let n: usize = chars.len();
    let mut keys: Vec<String> = Vec::new();
    let mut dropped: usize = 0;
    let mut i: usize = 0;
    let ghost mut done: Seq<Seq<char>> = Seq::empty();
    assert(raw@.skip(0) =~= raw@);
    assert(done + words(raw@) =~= words(raw@));
    assert(texts(keys@) =~= distinct(done));
    while i < n
        invariant
            i <= n == raw@.len(),
            chars@ == raw@,
            words(raw@) == done + words(raw@.skip(i as int)),
            texts(keys@) == distinct(done),
            dropped + keys@.len() == done.len(),
            done.len() <= i,
        decreases n - i,
    {
        let mut j: usize = i;
        let ghost rest = raw@.skip(i as int);
        while j < n && !(chars[j] == ',' || chars[j] == ';' || text::is_whitespace(chars[j]))
            invariant
                i <= j <= n == raw@.len(),
                chars@ == raw@,
                rest == raw@.skip(i as int),
                word_len(rest) == (j - i) + word_len(raw@.skip(j as int)),
            decreases n - j,
        {
            assert(raw@.skip(j as int).drop_first() =~= raw@.skip(j as int + 1));
            j += 1;
        }
        assert(word_len(rest) == j - i);
        if j == i {
            assert(rest.drop_first() =~= raw@.skip(i as int + 1));
            i += 1;
        } else {
            let word = raw.substring_char(i, j);
            let ghost old_keys = keys@;
            let ghost old_done = done;
            proof {
                assert(word@ =~= rest.take(j - i));
                assert(rest.skip(j - i) =~= raw@.skip(j as int));
                done = done.push(word@);
                assert(old_done + words(rest) =~= done + words(raw@.skip(j as int)));
                assert(done.drop_last() =~= old_done);
            }
            if holds(&keys, word) {
                dropped += 1;
            } else {
                keys.push(word.to_string());
                assert(texts(keys@) =~= texts(old_keys).push(word@));
            }
            assert(texts(keys@).len() == keys@.len());
            i = j;
        }
    }
    assert(raw@.skip(n as int) =~= Seq::<char>::empty());
    assert(done + Seq::<Seq<char>>::empty() =~= done);
    assert(texts(keys@).len() == keys@.len());
    (keys, dropped)
}

fn holds(list: &Vec<String>, word: &str) -> (r: bool)
    ensures
        r == texts(list@).contains(word@),
{
    let mut i: usize = 0;
    while i < list.len()
        invariant
            i <= list@.len(),
            forall|j: int| 0 <= j < i ==> texts(list@)[j] != word@,
        decreases list@.len() - i,
    {
        if text::same(list[i].as_str(), word) {
            assert(texts(list@)[i as int] == word@);
            return true;
        }
        i += 1;
    }
    assert(texts(list@).len() == list@.len());
    false
}

/// Keys are listed once each: nothing occurs twice among the distinct words, every word is among
/// them, and nothing else is.
pub proof fn law_keys_are_listed_once(list: Seq<Seq<char>>)
    ensures
        distinct(list).no_duplicates(),
        distinct(list).len() <= list.len(),
        forall|w: Seq<char>| distinct(list).contains(w) <==> list.contains(w),
    decreases list.len(),
{
    if list.len() > 0 {
        let init = list.drop_last();
        law_keys_are_listed_once(init);
        let d = distinct(init);
        let last = list.last();
        assert(list =~= init.push(last));
        assert forall|w: Seq<char>| distinct(list).contains(w) <==> list.contains(w) by {
            if list.contains(w) {
                let i = choose|i: int| 0 <= i < list.len() && list[i] == w;
                if i < init.len() {
                    assert(init[i] == w);
                    assert(init.contains(w));
                    assert(d.contains(w));
                    let j = choose|j: int| 0 <= j < d.len() && d[j] == w;
                    assert(distinct(list)[j] == w);
                } else if !d.contains(last) {
                    assert(distinct(list)[d.len() as int] == w);
                }
            }
            if distinct(list).contains(w) {
                let j = choose|j: int| 0 <= j < distinct(list).len() && distinct(list)[j] == w;
                if j < d.len() {
                    assert(d[j] == w);
                    assert(init.contains(w));
                    let i = choose|i: int| 0 <= i < init.len() && init[i] == w;
                    assert(list[i] == w);
                } else {
                    assert(list[list.len() - 1] == w);
                }
            }
        }
    }
}

/// A variable's text, if it is set to more than whitespace.
pub open spec fn given(v: Option<Seq<char>>) -> Option<Seq<char>> {
    match v {
        Some(s) if text::trimmed(s).len() > 0 => Some(s),
        _ => None,
    }
}

/// A variable's text, or a default.
pub open spec fn text_or(v: Option<Seq<char>>, default: Seq<char>) -> Seq<char> {
    match given(v) {
        Some(s) => s,
        None => default,
    }
}

/// The first of two variables that is set to more than whitespace.
pub fn first_env(a: &Option<String>, b: &Option<String>) -> (r: Option<String>)
    ensures
        opt_text(r) == match given(opt_text(*a)) {
            Some(s) => Some(s),
            None => given(opt_text(*b)),
        },
{
    if let Some(s) = a {
        if !text::trim(s.as_str()).is_empty() {
            return Some(s.clone());
        }
    }
    if let Some(s) = b {
        if !text::trim(s.as_str()).is_empty() {
            return Some(s.clone());
        }
    }
    None
}

/// A variable's text, or a default.
pub fn env_or(v: &Option<String>, default: &str) -> (r: String)
    ensures
        r@ == text_or(opt_text(*v), default@),
{
    if let Some(s) = v {
        if !text::trim(s.as_str()).is_empty() {
            return s.clone();
        }
    }
    default.to_string()
}

/// The text of the error that `str::parse::<u64>` gives for a string that is not a `u64`.
pub uninterp spec fn u64_error(s: Seq<char>) -> Seq<char>;

/// The text of the error that `str::parse::<u32>` gives for a string that is not a `u32`.
pub uninterp spec fn u32_error(s: Seq<char>) -> Seq<char>;

/// The text of the error that `str::parse::<usize>` gives for a string that is not a `usize`, on a
/// machine whose largest `usize` is `max`.
pub uninterp spec fn usize_error(s: Seq<char>, max: nat) -> Seq<char>;

/// The error of `str::parse::<u64>`, as text, on a string that is not a `u64`. The text depends
/// on the string alone.
#[verifier::external_body]
fn u64_parse_error(s: &str) -> (r: String)
    requires
        text::number_up_to(s@, u64::MAX as nat) is None,
    ensures
        r@ == u64_error(s@),
{
    match s.parse::<u64>() {
        Ok(_) => String::new(),
        Err(e) => e.to_string(),
    }
}

/// The error of `str::parse::<u32>`, as text, on a string that is not a `u32`. The text depends
/// on the string alone.
#[verifier::external_body]
fn u32_parse_error(s: &str) -> (r: String)
    requires
        text::number_up_to(s@, u32::MAX as nat) is None,
    ensures
        r@ == u32_error(s@),
{
    match s.parse::<u32>() {
        Ok(_) => String::new(),
        Err(e) => e.to_string(),
    }
}

/// The error of `str::parse::<usize>`, as text, on a string that is not a `usize`. The text depends
/// on the string and on how large a `usize` can be.
#[verifier::external_body]
fn usize_parse_error(s: &str) -> (r: String)
    requires
        text::number_up_to(s@, usize::MAX as nat) is None,
    ensures
        r@ == usize_error(s@, usize::MAX as nat),
{
    match s.parse::<usize>() {
        Ok(_) => String::new(),
        Err(e) => e.to_string(),
    }
}

/// What is said of a variable that cannot be used.
pub open spec fn invalid(name: Seq<char>, raw: Seq<char>, why: Seq<char>) -> Seq<char> {
    name + "="@ + text::quoted(raw) + " is invalid: "@ + why
}

fn complain(name: &str, raw: &str, why: &str) -> (r: String)
    ensures
        r@ == invalid(name@, raw@, why@),
{
    let mut out = String::new();
    out.append(name);
    out.append("=");
    out.append(text::quote(raw).as_str());
    out.append(" is invalid: ");
    out.append(why);
    assert(out@ =~= invalid(name@, raw@, why@));
    out
}

/// What reading the variable `name` with the text `raw` comes to, from what parsing it came to.
pub fn parse_env<T>(name: &str, raw: &str, parsed: Result<T, String>) -> (r: Result<T, String>)
    ensures
        match parsed {
            Ok(v) => r == Ok::<T, String>(v),
            Err(e) => r matches Err(m) && m@ == invalid(name@, raw@, e@),
        },
{
    match parsed {
        Ok(v) => Ok(v),
        Err(e) => Err(complain(name, raw, e.as_str())),
    }
}

/// A number from a variable.
pub open spec fn number_from(
    name: Seq<char>,
    raw: Seq<char>,
    max: nat,
    why: Seq<char>,
) -> Result<u64, Seq<char>> {
    match text::number_up_to(text::trimmed(raw), max) {
        Some(n) => Ok(n),
        None => Err(invalid(name, raw, why)),
    }
}

/// A `u64` from a variable.
pub open spec fn u64_from(
    name: Seq<char>,
    v: Option<Seq<char>>,
    default: Seq<char>,
) -> Result<u64, Seq<char>> {
    let raw = text_or(v, default);
    number_from(name, raw, u64::MAX as nat, u64_error(text::trimmed(raw)))
}

/// A `u32` from a variable.
pub open spec fn u32_from(
    name: Seq<char>,
    v: Option<Seq<char>>,
    default: Seq<char>,
) -> Result<u64, Seq<char>> {
    let raw = text_or(v, default);
    number_from(name, raw, u32::MAX as nat, u32_error(text::trimmed(raw)))
}

/// A `usize` from a variable.
pub open spec fn usize_from(
    name: Seq<char>,
    v: Option<Seq<char>>,
    default: Seq<char>,
) -> Result<u64, Seq<char>> {
    let raw = text_or(v, default);
    number_from(
        name,
        raw,
        usize::MAX as nat,
        usize_error(text::trimmed(raw), usize::MAX as nat),
    )
}

/// The model of a result whose error is a text.
pub open spec fn outcome_of<T>(r: Result<T, String>) -> Result<T, Seq<char>> {
    match r {
        Ok(v) => Ok(v),
        Err(e) => Err(e@),
    }
}

fn read_u64(name: &str, v: &Option<String>, default: &str) -> (r: Result<u64, String>)
    ensures
        outcome_of(r) == u64_from(name@, opt_text(*v), default@),
{
    let raw = env_or(v, default);
    let t = text::trim(raw.as_str());
    let parsed: Result<u64, String> = match text::parse_number(t, u64::MAX) {
        Some(n) => Ok(n),
        None => Err(u64_parse_error(t)),
    };
    parse_env(name, raw.as_str(), parsed)
}

fn read_u32(name: &str, v: &Option<String>, default: &str) -> (r: Result<u32, String>)
    ensures
        match r {
            Ok(n) => u32_from(name@, opt_text(*v), default@) == Ok::<u64, Seq<char>>(n as u64),
            Err(e) => u32_from(name@, opt_text(*v), default@) == Err::<u64, Seq<char>>(e@),
        },
{
    let raw = env_or(v, default);
    let t = text::trim(raw.as_str());
    let parsed: Result<u32, String> = match text::parse_number(t, u32::MAX as u64) {
        Some(n) => Ok(n as u32),
        None => Err(u32_parse_error(t)),
    };
    parse_env(name, raw.as_str(), parsed)
}

fn read_usize(name: &str, v: &Option<String>, default: &str) -> (r: Result<usize, String>)
    ensures
        match r {
            Ok(n) => usize_from(name@, opt_text(*v), default@) == Ok::<u64, Seq<char>>(n as u64),
            Err(e) => usize_from(name@, opt_text(*v), default@) == Err::<u64, Seq<char>>(e@),
        },
{
    let raw = env_or(v, default);
    let t = text::trim(raw.as_str());
    let parsed: Result<usize, String> = match text::parse_number(t, usize::MAX as u64) {
        Some(n) => Ok(n as usize),
        None => Err(usize_parse_error(t)),
    };
    parse_env(name, raw.as_str(), parsed)
}

/// A switch from a variable.
pub open spec fn bool_from(
    name: Seq<char>,
    v: Option<Seq<char>>,
    default: bool,
) -> Result<bool, Seq<char>> {
    let raw = text_or(
        v,
        if default {
            "true"@
        } else {
            "false"@
        },
    );
    let t = text::trimmed(raw).map_values(|c: char| text::lower(c));
    if t == "1"@ || t == "true"@ || t == "yes"@ || t == "on"@ {
        Ok(true)
    } else if t == "0"@ || t == "false"@ || t == "no"@ || t == "off"@ {
        Ok(false)
    } else {
        Err(invalid(name, raw, "expected true or false"@))
    }
}

/// Reads a switch: `1`, `true`, `yes` and `on` are on, `0`, `false`, `no` and `off` are off, in
/// any case.
pub fn parse_bool(name: &str, v: &Option<String>, default: bool) -> (r: Result<bool, String>)
    ensures
        outcome_of(r) == bool_from(name@, opt_text(*v), default),
{
    let raw = env_or(
        v,
        if default {
            "true"
        } else {
            "false"
        },
    );
    let lower = text::to_ascii_lowercase(text::trim(raw.as_str()));
    let t = lower.as_str();
    if text::same(t, "1") || text::same(t, "true") || text::same(t, "yes") || text::same(t, "on") {
        Ok(true)
    } else if text::same(t, "0") || text::same(t, "false") || text::same(t, "no") || text::same(
        t,
        "off",
    ) {
        Ok(false)
    } else {
        Err(complain(name, raw.as_str(), "expected true or false"))
    }
}

/// What is said of an upstream base URL, from what parsing it came to.
pub open spec fn base_url_error(
    parsed: Result<(Option<Seq<char>>, Option<Seq<char>>), Seq<char>>,
) -> Option<Seq<char>> {
    match parsed {
        Err(e) => Some("BRAVE_BASE_URL is not a valid URL: "@ + e),
        Ok((scheme, authority)) => if scheme is None || authority is None {
            Some(
                "BRAVE_BASE_URL must include scheme and host, e.g. https://api.search.brave.com"@,
            )
        } else {
            None
        },
    }
}

/// Says what is wrong with an upstream base URL, from what parsing it came to.
pub fn check_base_url(parsed: Result<UriParts, String>) -> (r: Option<String>)
    ensures
        opt_text(r) == base_url_error(upstream::parsed_uri(parsed)),
{
    match parsed {
        Err(e) => {
            let mut out = String::new();
            out.append("BRAVE_BASE_URL is not a valid URL: ");
            out.append(e.as_str());
            assert(out@ =~= "BRAVE_BASE_URL is not a valid URL: "@ + e@);
            Some(out)
        },
        Ok(p) => if p.scheme.is_none() || p.authority.is_none() {
            Some(
                "BRAVE_BASE_URL must include scheme and host, e.g. https://api.search.brave.com".to_string(),
            )
        } else {
            None
        },
    }
}

/// The text of a shared secret: without whitespace around it, and `None` if nothing is left.
pub open spec fn secret_of(v: Option<Seq<char>>) -> Option<Seq<char>> {
    match v {
        Some(s) if text::trimmed(s).len() > 0 => Some(text::trimmed(s)),
        _ => None,
    }
}

fn read_secret(v: &Option<String>) -> (r: Option<String>)
    ensures
        opt_text(r) == secret_of(opt_text(*v)),
{
    match v {
        Some(s) => {
            let t = text::trim(s.as_str());
            if t.is_empty() {
                None
            } else {
                Some(t.to_string())
            }
        },
        None => None,
    }
}

impl EnvVars {
    /// The text that lists the keys.
    pub open spec fn key_text(&self) -> Seq<char> {
        match given(opt_text(self.brave_api_keys)) {
            Some(s) => s,
            None => match given(opt_text(self.brave_keys)) {
                Some(s) => s,
                None => Seq::empty(),
            },
        }
    }

    /// The address to listen on, as it is written.
    pub open spec fn listen_raw(&self) -> Seq<char> {
        text_or(opt_text(self.listen_addr), "0.0.0.0:8080"@)
    }

    /// The address to listen on, without whitespace around it.
    pub fn listen_text(&self) -> (r: String)
        ensures
            r@ == text::trimmed(self.listen_raw()),
    {
        let raw = env_or(&self.listen_addr, "0.0.0.0:8080");
        text::trim(raw.as_str()).to_string()
    }

    /// The upstream base URL, without slashes at its end.
    pub open spec fn base_text(&self) -> Seq<char> {
        text::trimmed_end_where(
            text_or(opt_text(self.brave_base_url), "https://api.search.brave.com"@),
            |c: char| c == '/',
        )
    }

    /// The upstream timeout in milliseconds.
    pub open spec fn upstream_timeout(&self) -> Result<u64, Seq<char>> {
        u64_from("UPSTREAM_TIMEOUT_MS"@, opt_text(self.upstream_timeout_ms), "15000"@)
    }

    /// The longest wait for a slot in milliseconds.
    pub open spec fn queue_wait(&self) -> Result<u64, Seq<char>> {
        u64_from("MAX_QUEUE_WAIT_MS"@, opt_text(self.max_queue_wait_ms), "5000"@)
    }

    /// The report interval in seconds, as it is written.
    pub open spec fn report_secs(&self) -> Result<u64, Seq<char>> {
        u64_from("REPORT_INTERVAL_SECS"@, opt_text(self.report_interval_secs), "60"@)
    }

    /// The margin of the sliding window in milliseconds.
    pub open spec fn margin(&self) -> Result<u64, Seq<char>> {
        u64_from("WINDOW_MARGIN_MS"@, opt_text(self.window_margin_ms), "100"@)
    }

    /// The requests/second to start with, as they are written.
    pub open spec fn default_rps(&self) -> Result<u64, Seq<char>> {
        u32_from("DEFAULT_RPS_PER_KEY"@, opt_text(self.default_rps_per_key), "1"@)
    }

    /// The largest body in bytes.
    pub open spec fn body_bytes(&self) -> Result<u64, Seq<char>> {
        usize_from("MAX_BODY_BYTES"@, opt_text(self.max_body_bytes), "4194304"@)
    }

    /// The number of worker threads, as it is written.
    pub open spec fn threads(&self) -> Result<u64, Seq<char>> {
        usize_from("WORKER_THREADS"@, opt_text(self.worker_threads), "2"@)
    }

    /// Whether every request is logged.
    pub open spec fn logs(&self) -> Result<bool, Seq<char>> {
        bool_from("ACCESS_LOG"@, opt_text(self.access_log), true)
    }

    /// The first thing that is wrong with the variables, if anything is. `listen` is what parsing
    /// the address to listen on came to.
    pub open spec fn error(&self, listen: Result<(), Seq<char>>) -> Option<Seq<char>> {
        let base = base_url_error(upstream::uri_of(self.base_text()));
        if distinct(words(self.key_text())).len() == 0 {
            Some(
                "BRAVE_API_KEYS is empty. Provide one or more comma-separated Brave Search API keys."@,
            )
        } else if listen is Err {
            Some(invalid("LISTEN_ADDR"@, self.listen_raw(), listen->Err_0))
        } else if base is Some {
            base
        } else if self.upstream_timeout() is Err {
            self.upstream_timeout().err()
        } else if self.queue_wait() is Err {
            self.queue_wait().err()
        } else if self.report_secs() is Err {
            self.report_secs().err()
        } else if self.margin() is Err {
            self.margin().err()
        } else if self.default_rps() is Err {
            self.default_rps().err()
        } else if self.body_bytes() is Err {
            self.body_bytes().err()
        } else if self.threads() is Err {
            self.threads().err()
        } else if self.logs() is Err {
            self.logs().err()
        } else {
            None
        }
    }
}

/// At least one.
pub open spec fn at_least_one(n: u64) -> u64 {
    if n < 1 {
        1
    } else {
        n
    }
}

impl Config {
    /// True if this is the configuration that the variables describe.
    pub open spec fn follows(&self, env: &EnvVars) -> bool {
        &&& texts(self.keys@) == distinct(words(env.key_text()))
        &&& self.duplicate_keys == words(env.key_text()).len() - distinct(
            words(env.key_text()),
        ).len()
        &&& self.listen@ == text::trimmed(env.listen_raw())
        &&& self.upstream_base@ == env.base_text()
        &&& self.upstream_timeout.nanos == env.upstream_timeout()->Ok_0 * 1_000_000
        &&& self.max_queue_wait.nanos == env.queue_wait()->Ok_0 * 1_000_000
        &&& self.report_interval == Duration::of_secs(
            at_least_one(env.report_secs()->Ok_0) as nat,
        )
        &&& self.window_margin.nanos == env.margin()->Ok_0 * 1_000_000
        &&& self.default_rps_per_key == at_least_one(env.default_rps()->Ok_0)
        &&& self.max_body_bytes == env.body_bytes()->Ok_0
        &&& opt_text(self.proxy_token) == secret_of(opt_text(env.proxy_token))
        &&& self.worker_threads == at_least_one(env.threads()->Ok_0)
        &&& self.access_log == env.logs()->Ok_0
    }

    /// Makes the configuration from the environment. `listen` is what parsing the address to
    /// listen on came to.
    pub fn from_env(env: &EnvVars, listen: Result<(), String>) -> (r: Result<Self, String>)
        ensures
            match r {
                Ok(c) => env.error(outcome_of(listen)) is None && c.follows(env),
                Err(e) => env.error(outcome_of(listen)) == Some(e@),
            },
    {
        let raw = match first_env(&env.brave_api_keys, &env.brave_keys) {
            Some(s) => s,
            None => String::new(),
        };
        assert(raw@ =~= env.key_text());
        let (keys, duplicate_keys) = parse_keys(raw.as_str());
        assert(texts(keys@).len() == keys@.len());
        if keys.len() == 0 {
            return Err(
                "BRAVE_API_KEYS is empty. Provide one or more comma-separated Brave Search API keys.".to_string(),
            );
        }
        let listen_raw = env_or(&env.listen_addr, "0.0.0.0:8080");
        match parse_env("LISTEN_ADDR", listen_raw.as_str(), listen) {
            Ok(_) => {},
            Err(e) => {
                return Err(e);
            },
        }
        let base = env_or(&env.brave_base_url, "https://api.search.brave.com");
        let upstream_base = text::trim_end_char(base.as_str(), '/').to_string();
        assert(upstream_base@ == env.base_text());
        if let Some(e) = check_base_url(upstream::parse_uri(upstream_base.as_str())) {
            return Err(e);
        }
        let proxy_token = read_secret(&env.proxy_token);
        let upstream_timeout: u64 = match read_u64(
            "UPSTREAM_TIMEOUT_MS",
            &env.upstream_timeout_ms,
            "15000",
        ) {
            Ok(n) => n,
            Err(e) => {
                return Err(e);
            },
        };
        let max_queue_wait: u64 = match read_u64(
            "MAX_QUEUE_WAIT_MS",
            &env.max_queue_wait_ms,
            "5000",
        ) {
            Ok(n) => n,
            Err(e) => {
                return Err(e);
            },
        };
        let report_interval: u64 = match read_u64(
            "REPORT_INTERVAL_SECS",
            &env.report_interval_secs,
            "60",
        ) {
            Ok(n) => n,
            Err(e) => {
                return Err(e);
            },
        };
        let window_margin: u64 = match read_u64(
            "WINDOW_MARGIN_MS",
            &env.window_margin_ms,
            "100",
        ) {
            Ok(n) => n,
            Err(e) => {
                return Err(e);
            },
        };
        let default_rps: u32 = match read_u32(
            "DEFAULT_RPS_PER_KEY",
            &env.default_rps_per_key,
            "1",
        ) {
            Ok(n) => n,
            Err(e) => {
                return Err(e);
            },
        };
        let max_body_bytes: usize = match read_usize(
            "MAX_BODY_BYTES",
            &env.max_body_bytes,
            "4194304",
        ) {
            Ok(n) => n,
            Err(e) => {
                return Err(e);
            },
        };
        let worker_threads: usize = match read_usize("WORKER_THREADS", &env.worker_threads, "2") {
            Ok(n) => n,
            Err(e) => {
                return Err(e);
            },
        };
        let access_log: bool = match parse_bool("ACCESS_LOG", &env.access_log, true) {
            Ok(b) => b,
            Err(e) => {
                return Err(e);
            },
        };
        Ok(
            Config {
                keys,
                duplicate_keys,
                listen: text::trim(listen_raw.as_str()).to_string(),
                upstream_base,
                upstream_timeout: Duration::from_millis(upstream_timeout),
                max_queue_wait: Duration::from_millis(max_queue_wait),
                report_interval: Duration::from_secs(
                    if report_interval < 1 {
                        1
                    } else {
                        report_interval
                    },
                ),
                window_margin: Duration::from_millis(window_margin),
                default_rps_per_key: if default_rps < 1 {
                    1
                } else {
                    default_rps
                },
                max_body_bytes,
                proxy_token,
                worker_threads: if worker_threads < 1 {
                    1
                } else {
                    worker_threads
                },
                access_log,
            },
        )
    }
}

proof fn lemma_defaults()
    ensures
        text::number_up_to(text::trimmed("15000"@), u64::MAX as nat) == Some(15000u64),
        text::number_up_to(text::trimmed("5000"@), u64::MAX as nat) == Some(5000u64),
        text::number_up_to(text::trimmed("60"@), u64::MAX as nat) == Some(60u64),
        text::number_up_to(text::trimmed("100"@), u64::MAX as nat) == Some(100u64),
        text::number_up_to(text::trimmed("1"@), u32::MAX as nat) == Some(1u64),
        text::number_up_to(text::trimmed("4194304"@), usize::MAX as nat) == Some(4194304u64),
        text::number_up_to(text::trimmed("2"@), usize::MAX as nat) == Some(2u64),
        bool_from("ACCESS_LOG"@, None, true) == Ok::<bool, Seq<char>>(true),
        text::trimmed("0.0.0.0:8080"@) == "0.0.0.0:8080"@,
        text::trimmed_end_where("https://api.search.brave.com"@, |c: char| c == '/')
            == "https://api.search.brave.com"@,
{
    reveal_strlit("15000");
    reveal_strlit("5000");
    reveal_strlit("60");
    reveal_strlit("100");
    reveal_strlit("1");
    reveal_strlit("4194304");
    reveal_strlit("2");
    reveal_strlit("true");
    reveal_strlit("0.0.0.0:8080");
    reveal_strlit("https://api.search.brave.com");
    reveal_with_fuel(text::digits_value, 9);
    assert("true"@.map_values(|c: char| text::lower(c)) =~= "true"@);
}

/// What is not set has its default: only the keys must be given.
pub proof fn law_defaults(env: EnvVars, c: Config)
    requires
        c.follows(&env),
    ensures
        env.listen_addr is None ==> c.listen@ == "0.0.0.0:8080"@,
        env.brave_base_url is None ==> c.upstream_base@ == "https://api.search.brave.com"@,
        env.max_queue_wait_ms is None ==> c.max_queue_wait.nanos == 5_000_000_000,
        env.upstream_timeout_ms is None ==> c.upstream_timeout.nanos == 15_000_000_000,
        env.window_margin_ms is None ==> c.window_margin.nanos == 100_000_000,
        env.default_rps_per_key is None ==> c.default_rps_per_key == 1,
        env.report_interval_secs is None ==> c.report_interval == Duration::of_secs(60),
        env.max_body_bytes is None ==> c.max_body_bytes == 4_194_304,
        env.worker_threads is None ==> c.worker_threads == 2,
        env.access_log is None ==> c.access_log,
        env.proxy_token is None ==> c.proxy_token is None,
{
    lemma_defaults();
}

/// Keys are separated by commas, semicolons and whitespace, as many as there are. What is between
/// them is one key.
pub proof fn law_separators_part_the_keys(a: Seq<char>, c: char, b: Seq<char>)
    requires
        c == ',' || c == ';' || text::whitespace(c),
    ensures
        words(Seq::empty()).len() == 0,
        words(a.push(c) + b) == words(a) + words(b),
        a.len() > 0 && (forall|i: int|
            0 <= i < a.len() ==> #[trigger] a[i] != ',' && a[i] != ';' && !text::whitespace(a[i]))
            ==> words(a) == seq![a],
    decreases a.len(),
{
    let s = a.push(c) + b;
    if a.len() == 0 {
        assert(s[0] == c);
        assert(s.drop_first() =~= b);
        assert(words(a) + words(b) =~= words(b));
    } else {
        lemma_word_len(a);
        let n = word_len(a);
        lemma_same_word(a, c, b);
        if n == 0 {
            assert(s[0] == a[0]);
            assert(s.drop_first() =~= a.drop_first().push(c) + b);
            law_separators_part_the_keys(a.drop_first(), c, b);
        } else {
            let rest = a.skip(n as int);
            assert(s.take(n as int) =~= a.take(n as int));
            assert(s.skip(n as int) =~= rest.push(c) + b);
            law_separators_part_the_keys(rest, c, b);
            assert(words(s) =~= words(a) + words(b));
        }
        if forall|i: int|
            0 <= i < a.len() ==> #[trigger] a[i] != ',' && a[i] != ';' && !text::whitespace(a[i]) {
            if n < a.len() {
                assert(separator(a[n as int]));
            }
            assert(a.take(n as int) =~= a);
            assert(a.skip(n as int) =~= Seq::<char>::empty());
            assert(words(a) =~= seq![a]);
        }
    }
}

/// The first word of a text is not changed by what follows behind a separator.
proof fn lemma_same_word(a: Seq<char>, c: char, b: Seq<char>)
    requires
        separator(c),
    ensures
        word_len(a.push(c) + b) == word_len(a),
    decreases a.len(),
{
    let s = a.push(c) + b;
    if a.len() == 0 {
        assert(s[0] == c);
    } else {
        assert(s[0] == a[0]);
        if !separator(a[0]) {
            assert(s.drop_first() =~= a.drop_first().push(c) + b);
            lemma_same_word(a.drop_first(), c, b);
        }
    }
}

/// Keys stay in the order in which they are first listed: one more at the end of the list is the
/// last, unless it was listed before.
pub proof fn law_keys_keep_their_order(list: Seq<Seq<char>>, w: Seq<char>)
    ensures
        list.contains(w) ==> distinct(list.push(w)) == distinct(list),
        !list.contains(w) ==> distinct(list.push(w)) == distinct(list).push(w),
{
    law_keys_are_listed_once(list);
    assert(list.push(w).drop_last() =~= list);
}

/// The keys of a configuration are those that are listed, and every repetition is counted. They
/// are listed in the one variable if it is set to anything, and in the other if not.
pub proof fn law_the_keys_are_those_listed(env: EnvVars, c: Config, w: Seq<char>)
    requires
        c.follows(&env),
    ensures
        texts(c.keys@).no_duplicates(),
        texts(c.keys@).contains(w) <==> words(env.key_text()).contains(w),
        c.keys@.len() + c.duplicate_keys == words(env.key_text()).len(),
        env.brave_api_keys matches Some(s) ==> (!text::blank(s@) ==> env.key_text() == s@),
        (env.brave_api_keys matches Some(s) ==> text::blank(s@)) ==> {
            &&& env.brave_keys matches Some(s) ==> (!text::blank(s@) ==> env.key_text() == s@)
            &&& (env.brave_keys matches Some(s) ==> text::blank(s@)) ==> env.key_text().len() == 0
        },
{
    law_keys_are_listed_once(words(env.key_text()));
    if let Some(s) = env.brave_api_keys {
        lemma_blank_is_nothing(s@);
    }
    if let Some(s) = env.brave_keys {
        lemma_blank_is_nothing(s@);
    }
}

/// A text is blank exactly if trimming leaves nothing of it.
proof fn lemma_blank_is_nothing(s: Seq<char>)
    ensures
        text::blank(s) <==> text::trimmed(s).len() == 0,
{
    let t = text::trimmed(s);
    text::law_trimming_takes_whitespace(s);
    let (a, b) = choose|a: Seq<char>, b: Seq<char>|
        text::blank(a) && text::blank(b) && s == #[trigger] (a + t + b);
    if t.len() > 0 {
        assert(s[a.len() as int] == t[0]);
    } else {
        assert forall|i: int| 0 <= i < s.len() implies text::whitespace(#[trigger] s[i]) by {
            if i < a.len() {
                assert(s[i] == a[i]);
            } else {
                assert(s[i] == b[i - a.len()]);
            }
        }
    }
}

/// True if a variable is set to this number, with or without whitespace around it.
pub open spec fn set_to(v: Option<String>, n: nat) -> bool {
    v matches Some(s) && exists|lead: Seq<char>, trail: Seq<char>|
        text::blank(lead) && text::blank(trail) && s@ == #[trigger] (lead + text::dec(n) + trail)
}

proof fn lemma_set_to(v: Option<String>, n: nat, max: nat, default: Seq<char>)
    requires
        set_to(v, n),
        n <= max <= u64::MAX,
    ensures
        text::number_up_to(text::trimmed(text_or(opt_text(v), default)), max) == Some(n as u64),
{
    if let Some(s) = v {
        let d = text::dec(n);
        let (lead, trail) = choose|lead: Seq<char>, trail: Seq<char>|
            text::blank(lead) && text::blank(trail) && s@ == #[trigger] (lead + d + trail);
        text::lemma_dec_digits(n);
        text::lemma_trimmed(lead, d, trail);
        text::law_numbers_read_back(n);
    }
}

/// A number that is set reaches the configuration: times in milliseconds or seconds, as the name of
/// the variable says, and sizes and counts as they are. Where nothing less than one makes sense,
/// zero is taken for one.
pub proof fn law_numbers_reach_the_configuration(env: EnvVars, c: Config, n: u64)
    requires
        c.follows(&env),
    ensures
        set_to(env.upstream_timeout_ms, n as nat) ==> c.upstream_timeout.nanos == n * 1_000_000,
        set_to(env.max_queue_wait_ms, n as nat) ==> c.max_queue_wait.nanos == n * 1_000_000,
        set_to(env.window_margin_ms, n as nat) ==> c.window_margin.nanos == n * 1_000_000,
        set_to(env.report_interval_secs, n as nat) && n >= 1 ==> c.report_interval.nanos == n
            * 1_000_000_000,
        set_to(env.report_interval_secs, 0) ==> c.report_interval.nanos == 1_000_000_000,
        set_to(env.default_rps_per_key, n as nat) && 1 <= n <= u32::MAX ==> c.default_rps_per_key
            == n,
        set_to(env.default_rps_per_key, 0) ==> c.default_rps_per_key == 1,
        set_to(env.max_body_bytes, n as nat) && n <= usize::MAX ==> c.max_body_bytes == n,
        set_to(env.worker_threads, n as nat) && 1 <= n <= usize::MAX ==> c.worker_threads == n,
        set_to(env.worker_threads, 0) ==> c.worker_threads == 1,
{
    if set_to(env.upstream_timeout_ms, n as nat) {
        lemma_set_to(env.upstream_timeout_ms, n as nat, u64::MAX as nat, "15000"@);
    }
    if set_to(env.max_queue_wait_ms, n as nat) {
        lemma_set_to(env.max_queue_wait_ms, n as nat, u64::MAX as nat, "5000"@);
    }
    if set_to(env.window_margin_ms, n as nat) {
        lemma_set_to(env.window_margin_ms, n as nat, u64::MAX as nat, "100"@);
    }
    if set_to(env.report_interval_secs, n as nat) {
        lemma_set_to(env.report_interval_secs, n as nat, u64::MAX as nat, "60"@);
    }
    if set_to(env.report_interval_secs, 0) {
        lemma_set_to(env.report_interval_secs, 0, u64::MAX as nat, "60"@);
    }
    if set_to(env.default_rps_per_key, n as nat) && n <= u32::MAX {
        lemma_set_to(env.default_rps_per_key, n as nat, u32::MAX as nat, "1"@);
    }
    if set_to(env.default_rps_per_key, 0) {
        lemma_set_to(env.default_rps_per_key, 0, u32::MAX as nat, "1"@);
    }
    if set_to(env.max_body_bytes, n as nat) && n <= usize::MAX {
        lemma_set_to(env.max_body_bytes, n as nat, usize::MAX as nat, "4194304"@);
    }
    if set_to(env.worker_threads, n as nat) && n <= usize::MAX {
        lemma_set_to(env.worker_threads, n as nat, usize::MAX as nat, "2"@);
    }
    if set_to(env.worker_threads, 0) {
        lemma_set_to(env.worker_threads, 0, usize::MAX as nat, "2"@);
    }
}

/// What is not a number, or one too large, is refused with the name of the variable, what it is set
/// to, and why.
pub proof fn law_bad_numbers_are_named(
    name: Seq<char>,
    raw: Seq<char>,
    max: u64,
    why: Seq<char>,
)
    ensures
        ({
            let r = number_from(name, raw, max as nat, why);
            match text::number(text::trimmed(raw)) {
                Some(n) if n <= max => r matches Ok(v) && v == n,
                _ => r == Err::<u64, Seq<char>>(
                    name + "="@ + text::quoted(raw) + " is invalid: "@ + why,
                ),
            }
        }),
{
}

/// A switch is on or off by its word, in any case and with or without whitespace around it; any
/// other word is refused. A switch that is set to nothing is as it is by default.
pub proof fn law_switches_are_words(
    name: Seq<char>,
    lead: Seq<char>,
    word: Seq<char>,
    trail: Seq<char>,
    default: bool,
)
    requires
        text::blank(lead),
        text::blank(trail),
        word.len() > 0,
        !text::whitespace(word[0]),
        !text::whitespace(word.last()),
    ensures
        ({
            let raw = lead + word + trail;
            let r = bool_from(name, Some(raw), default);
            let w = word.map_values(|c: char| text::lower(c));
            let on = w == "1"@ || w == "true"@ || w == "yes"@ || w == "on"@;
            let off = w == "0"@ || w == "false"@ || w == "no"@ || w == "off"@;
            &&& on ==> r == Ok::<bool, Seq<char>>(true)
            &&& off ==> r == Ok::<bool, Seq<char>>(false)
            &&& !on && !off ==> r == Err::<bool, Seq<char>>(
                name + "="@ + text::quoted(raw) + " is invalid: expected true or false"@,
            )
        }),
        bool_from(name, None, default) == Ok::<bool, Seq<char>>(default),
        bool_from(name, Some(lead), default) == Ok::<bool, Seq<char>>(default),
{
    text::lemma_trimmed(lead, word, trail);
    lemma_blank_is_nothing(lead);
    lemma_switches();
    let raw = lead + word + trail;
    assert(text::trimmed(raw).map_values(|c: char| text::lower(c)) =~= word.map_values(
        |c: char| text::lower(c),
    ));
    let why = "expected true or false"@;
    reveal_strlit(" is invalid: ");
    reveal_strlit("expected true or false");
    reveal_strlit(" is invalid: expected true or false");
    assert(" is invalid: "@ + why =~= " is invalid: expected true or false"@);
    assert(invalid(name, raw, why) =~= name + "="@ + text::quoted(raw)
        + " is invalid: expected true or false"@);
}

/// The words of switches are apart from each other, and written in lower case.
proof fn lemma_switches()
    ensures
        "0"@ != "1"@ && "0"@ != "true"@ && "0"@ != "yes"@ && "0"@ != "on"@,
        "no"@ != "1"@ && "no"@ != "true"@ && "no"@ != "yes"@ && "no"@ != "on"@,
        "off"@ != "1"@ && "off"@ != "true"@ && "off"@ != "yes"@ && "off"@ != "on"@,
        text::trimmed("true"@).map_values(|c: char| text::lower(c)) == "true"@,
        text::trimmed("false"@).map_values(|c: char| text::lower(c)) == "false"@,
        "false"@ != "1"@ && "false"@ != "true"@ && "false"@ != "yes"@ && "false"@ != "on"@,
{
    let none = Seq::<char>::empty();
    reveal_strlit("1");
    reveal_strlit("true");
    reveal_strlit("yes");
    reveal_strlit("on");
    reveal_strlit("0");
    reveal_strlit("false");
    reveal_strlit("no");
    reveal_strlit("off");
    assert("1"@.len() == 1 && "true"@.len() == 4 && "yes"@.len() == 3 && "on"@.len() == 2);
    assert("0"@.len() == 1 && "false"@.len() == 5 && "no"@.len() == 2 && "off"@.len() == 3);
    assert("1"@[0] == '1' && "0"@[0] == '0' && "on"@[0] == 'o' && "no"@[0] == 'n');
    assert("yes"@[0] == 'y' && "off"@[0] == 'o');
    assert(none + "true"@ + none =~= "true"@);
    assert(none + "false"@ + none =~= "false"@);
    text::lemma_trimmed(none, "true"@, none);
    text::lemma_trimmed(none, "false"@, none);
    assert("true"@.map_values(|c: char| text::lower(c)) =~= "true"@);
    assert("false"@.map_values(|c: char| text::lower(c)) =~= "false"@);
}

/// Texts that are set reach the configuration: the address and the secret without whitespace around
/// them, and the base URL without slashes at its end.
pub proof fn law_texts_reach_the_configuration(
    env: EnvVars,
    c: Config,
    lead: Seq<char>,
    s: Seq<char>,
    trail: Seq<char>,
)
    requires
        c.follows(&env),
        text::blank(lead),
        text::blank(trail),
        s.len() > 0,
        !text::whitespace(s[0]),
        !text::whitespace(s.last()),
    ensures
        env.listen_addr matches Some(v) ==> (v@ == lead + s + trail ==> c.listen@ == s),
        env.proxy_token matches Some(v) ==> (v@ == lead + s + trail ==> (
        c.proxy_token matches Some(t) && t@ == s)),
        env.proxy_token matches Some(v) ==> (v@ == lead ==> c.proxy_token is None),
        env.brave_base_url matches Some(v) ==> (!text::blank(v@) ==> {
            let base = c.upstream_base@;
            &&& base.len() > 0 ==> base.last() != '/'
            &&& base.is_prefix_of(v@)
            &&& forall|i: int| base.len() <= i < v@.len() ==> #[trigger] v@[i] == '/'
        }),
{
    text::lemma_trimmed(lead, s, trail);
    lemma_blank_is_nothing(lead);
    if let Some(v) = env.brave_base_url {
        lemma_blank_is_nothing(v@);
        let p = |c: char| c == '/';
        text::law_trimming_takes_the_end(v@, p);
        if !text::blank(v@) {
            let base = c.upstream_base@;
            assert(v@.subrange(0, base.len() as int) =~= base);
            assert forall|i: int| base.len() <= i < v@.len() implies #[trigger] v@[i] == '/' by {
                assert(p(v@[i]));
            }
        }
    }
}

/// A base URL is one that names a scheme and a host.
pub proof fn law_base_urls_have_a_host(scheme: Seq<char>, host: Seq<char>, why: Seq<char>)
    ensures
        base_url_error(Ok((Some(scheme), Some(host)))) is None,
        base_url_error(Ok((None, Some(host)))) is Some,
        base_url_error(Ok((Some(scheme), None))) is Some,
        base_url_error(Ok((None, None))) == Some(
            "BRAVE_BASE_URL must include scheme and host, e.g. https://api.search.brave.com"@,
        ),
        base_url_error(Ok((None, Some(host)))) == base_url_error(Ok((None, None))),
        base_url_error(Ok((Some(scheme), None))) == base_url_error(Ok((None, None))),
        base_url_error(Err(why)) == Some("BRAVE_BASE_URL is not a valid URL: "@ + why),
{
}

/// What can be wrong with the variables, in the order in which it is looked at: the keys, the
/// address, the base URL, and then the rest.
pub open spec fn complaints(env: EnvVars, listen: Result<(), Seq<char>>) -> Seq<
    Option<Seq<char>>,
> {
    seq![
        if words(env.key_text()).len() == 0 {
            Some(
                "BRAVE_API_KEYS is empty. Provide one or more comma-separated Brave Search API keys."@,
            )
        } else {
            None
        },
        match listen {
            Ok(_) => None,
            Err(e) => Some(
                "LISTEN_ADDR="@ + text::quoted(env.listen_raw()) + " is invalid: "@ + e,
            ),
        },
        base_url_error(upstream::uri_of(env.base_text())),
        env.upstream_timeout().err(),
        env.queue_wait().err(),
        env.report_secs().err(),
        env.margin().err(),
        env.default_rps().err(),
        env.body_bytes().err(),
        env.threads().err(),
        env.logs().err(),
    ]
}

/// There is a configuration exactly if nothing is wrong with the variables. Otherwise the first
/// thing that is wrong is reported.
pub proof fn law_the_first_error_is_reported(
    env: EnvVars,
    listen: Result<(), Seq<char>>,
    i: int,
)
    ensures
        ({
            let wrong = complaints(env, listen);
            &&& (forall|j: int| 0 <= j < wrong.len() ==> (#[trigger] wrong[j]) is None)
                ==> env.error(listen) is None
            &&& 0 <= i < wrong.len() && wrong[i] is Some && (forall|j: int|
                0 <= j < i ==> (#[trigger] wrong[j]) is None) ==> env.error(listen) == wrong[i]
        }),
{
    let keys = words(env.key_text());
    law_keys_are_listed_once(keys);
    if keys.len() > 0 {
        assert(keys.contains(keys[0]));
        assert(distinct(keys).contains(keys[0]));
    }
    reveal_strlit("LISTEN_ADDR");
    reveal_strlit("=");
    reveal_strlit("LISTEN_ADDR=");
    assert("LISTEN_ADDR="@ =~= "LISTEN_ADDR"@ + "="@);
    if let Err(e) = listen {
        assert(invalid("LISTEN_ADDR"@, env.listen_raw(), e) =~= "LISTEN_ADDR="@ + text::quoted(
            env.listen_raw(),
        ) + " is invalid: "@ + e);
    }
    let wrong = complaints(env, listen);
    assert(wrong.len() == 11);
    if forall|j: int| 0 <= j < wrong.len() ==> (#[trigger] wrong[j]) is None {
        assert(wrong[0] is None && wrong[1] is None && wrong[2] is None && wrong[3] is None);
        assert(wrong[4] is None && wrong[5] is None && wrong[6] is None && wrong[7] is None);
        assert(wrong[8] is None && wrong[9] is None && wrong[10] is None);
    }
    if 0 <= i < wrong.len() && wrong[i] is Some && (forall|j: int|
        0 <= j < i ==> (#[trigger] wrong[j]) is None) {
        assert(i > 0 ==> wrong[0] is None);
        assert(i > 1 ==> wrong[1] is None);
        assert(i > 2 ==> wrong[2] is None);
        assert(i > 3 ==> wrong[3] is None);
        assert(i > 4 ==> wrong[4] is None);
        assert(i > 5 ==> wrong[5] is None);
        assert(i > 6 ==> wrong[6] is None);
        assert(i > 7 ==> wrong[7] is None);
        assert(i > 8 ==> wrong[8] is None);
        assert(i > 9 ==> wrong[9] is None);
    }
}

/// What is said of a variable that cannot be used names it: the variables of numbers and of the
/// switch, by their names.
pub proof fn law_errors_name_the_variable(env: EnvVars, e: Seq<char>)
    ensures
        env.upstream_timeout() == Err::<u64, Seq<char>>(e) ==> "UPSTREAM_TIMEOUT_MS="@.is_prefix_of(
            e,
        ),
        env.queue_wait() == Err::<u64, Seq<char>>(e) ==> "MAX_QUEUE_WAIT_MS="@.is_prefix_of(e),
        env.report_secs() == Err::<u64, Seq<char>>(e) ==> "REPORT_INTERVAL_SECS="@.is_prefix_of(e),
        env.margin() == Err::<u64, Seq<char>>(e) ==> "WINDOW_MARGIN_MS="@.is_prefix_of(e),
        env.default_rps() == Err::<u64, Seq<char>>(e) ==> "DEFAULT_RPS_PER_KEY="@.is_prefix_of(e),
        env.body_bytes() == Err::<u64, Seq<char>>(e) ==> "MAX_BODY_BYTES="@.is_prefix_of(e),
        env.threads() == Err::<u64, Seq<char>>(e) ==> "WORKER_THREADS="@.is_prefix_of(e),
        env.logs() == Err::<bool, Seq<char>>(e) ==> "ACCESS_LOG="@.is_prefix_of(e),
{
    reveal_strlit("=");
    reveal_strlit("UPSTREAM_TIMEOUT_MS");
    reveal_strlit("UPSTREAM_TIMEOUT_MS=");
    reveal_strlit("MAX_QUEUE_WAIT_MS");
    reveal_strlit("MAX_QUEUE_WAIT_MS=");
    reveal_strlit("REPORT_INTERVAL_SECS");
    reveal_strlit("REPORT_INTERVAL_SECS=");
    reveal_strlit("WINDOW_MARGIN_MS");
    reveal_strlit("WINDOW_MARGIN_MS=");
    reveal_strlit("DEFAULT_RPS_PER_KEY");
    reveal_strlit("DEFAULT_RPS_PER_KEY=");
    reveal_strlit("MAX_BODY_BYTES");
    reveal_strlit("MAX_BODY_BYTES=");
    reveal_strlit("WORKER_THREADS");
    reveal_strlit("WORKER_THREADS=");
    reveal_strlit("ACCESS_LOG");
    reveal_strlit("ACCESS_LOG=");
    lemma_invalid_begins("UPSTREAM_TIMEOUT_MS"@, "UPSTREAM_TIMEOUT_MS="@, e);
    lemma_invalid_begins("MAX_QUEUE_WAIT_MS"@, "MAX_QUEUE_WAIT_MS="@, e);
    lemma_invalid_begins("REPORT_INTERVAL_SECS"@, "REPORT_INTERVAL_SECS="@, e);
    lemma_invalid_begins("WINDOW_MARGIN_MS"@, "WINDOW_MARGIN_MS="@, e);
    lemma_invalid_begins("DEFAULT_RPS_PER_KEY"@, "DEFAULT_RPS_PER_KEY="@, e);
    lemma_invalid_begins("MAX_BODY_BYTES"@, "MAX_BODY_BYTES="@, e);
    lemma_invalid_begins("WORKER_THREADS"@, "WORKER_THREADS="@, e);
    lemma_invalid_begins("ACCESS_LOG"@, "ACCESS_LOG="@, e);
}

proof fn lemma_invalid_begins(name: Seq<char>, lead: Seq<char>, e: Seq<char>)
    requires
        lead =~= name + "="@,
    ensures
        forall|raw: Seq<char>, why: Seq<char>| #[trigger]
            invalid(name, raw, why) == e ==> lead.is_prefix_of(e),
{
    assert forall|raw: Seq<char>, why: Seq<char>| #[trigger]
        invalid(name, raw, why) == e implies lead.is_prefix_of(e) by {
        assert(invalid(name, raw, why).subrange(0, lead.len() as int) =~= lead);
    }
}

} // verus!
