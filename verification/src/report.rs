//! What the proxy prints about itself, and what it makes of its own health endpoint.

use vstd::prelude::*;

use crate::key::opt_text;
use crate::snapshot::{KeySnapshot, KeySnapshotView, PoolSnapshot};
use crate::text::{self, dec};

verus! {

/// A number, or a question mark if it is not known.
pub open spec fn number_text(v: Option<u64>) -> Seq<char> {
    match v {
        Some(n) => dec(n as nat),
        None => "?"@,
    }
}

pub(crate) fn number_or_mark(v: Option<u64>) -> (r: String)
    ensures
        r@ == number_text(v),
{
    match v {
        Some(n) => text::decimal(n as u128),
        None => "?".to_string(),
    }
}

/// The monthly quota of the pool, in words.
pub open spec fn monthly_text(
    remaining: Option<u64>,
    limit: Option<u64>,
    unlimited_keys: usize,
) -> Seq<char> {
    if remaining is None && limit is None {
        if unlimited_keys == 0 {
            "unknown yet"@
        } else {
            "no cap ("@ + dec(unlimited_keys as nat) + " key(s))"@
        }
    } else {
        let known = number_text(remaining) + " of "@ + number_text(limit);
        if unlimited_keys == 0 {
            known
        } else {
            known + " + "@ + dec(unlimited_keys as nat) + " key(s) without cap"@
        }
    }
}

/// The monthly quota of the pool, in words.
pub fn monthly(remaining: Option<u64>, limit: Option<u64>, unlimited_keys: usize) -> (r: String)
    ensures
        r@ == monthly_text(remaining, limit, unlimited_keys),
{
    let count = text::decimal(unlimited_keys as u128);
    let mut out = String::new();
    if remaining.is_none() && limit.is_none() {
        if unlimited_keys == 0 {
            out.append("unknown yet");
        } else {
            out.append("no cap (");
            out.append(count.as_str());
            out.append(" key(s))");
        }
    } else {
        out.append(number_or_mark(remaining).as_str());
        out.append(" of ");
        out.append(number_or_mark(limit).as_str());
        if unlimited_keys > 0 {
            out.append(" + ");
            out.append(count.as_str());
            out.append(" key(s) without cap");
        }
    }
    assert(out@ =~= monthly_text(remaining, limit, unlimited_keys));
    out
}

/// How many attempts have failed.
pub open spec fn failed_attempts(s: PoolSnapshot) -> nat {
    (s.totals.upstream_429 + s.totals.client_4xx + s.totals.server_5xx
        + s.totals.transport_errors) as nat
}

/// The state of the pool, in one line.
pub open spec fn status_text(s: PoolSnapshot) -> Seq<char> {
    "status: "@ + dec(s.keys_healthy as nat) + "/"@ + dec(s.keys_total as nat)
        + " keys healthy, capacity "@ + dec(s.rps_capacity as nat)
        + " req/s, monthly remaining "@ + monthly_text(
        s.month_remaining_total,
        s.month_limit_total,
        s.month_unlimited_keys,
    ) + ", upstream attempts "@ + dec(s.totals.ok as nat) + " ok / "@ + dec(failed_attempts(s))
        + " failed ("@ + dec(s.totals.upstream_429 as nat) + " were 429s)"@
}

/// The state of the pool, in one line.
pub fn status_line(s: &PoolSnapshot) -> (r: String)
    ensures
        r@ == status_text(*s),
{
    let failed: u128 = s.totals.upstream_429 as u128 + s.totals.client_4xx as u128
        + s.totals.server_5xx as u128 + s.totals.transport_errors as u128;
    let mut out = String::new();
    out.append("status: ");
    out.append(text::decimal(s.keys_healthy as u128).as_str());
    out.append("/");
    out.append(text::decimal(s.keys_total as u128).as_str());
    out.append(" keys healthy, capacity ");
    out.append(text::decimal(s.rps_capacity as u128).as_str());
    out.append(" req/s, monthly remaining ");
    out.append(
        monthly(
            s.month_remaining_total,
            s.month_limit_total,
            s.month_unlimited_keys,
        ).as_str(),
    );
    out.append(", upstream attempts ");
    out.append(text::decimal(s.totals.ok as u128).as_str());
    out.append(" ok / ");
    out.append(text::decimal(failed).as_str());
    out.append(" failed (");
    out.append(text::decimal(s.totals.upstream_429 as u128).as_str());
    out.append(" were 429s)");
    assert(out@ =~= status_text(*s));
    out
}

/// True if a key is not usable.
pub open spec fn unusable(k: KeySnapshotView) -> bool {
    k.state == "disabled"@ || k.state == "exhausted"@
}

/// A text, or something in its place.
pub open spec fn text_or(v: Option<Seq<char>>, otherwise: Seq<char>) -> Seq<char> {
    match v {
        Some(s) => s,
        None => otherwise,
    }
}

/// What to say about a key that is not usable.
pub open spec fn warning_text(k: KeySnapshotView) -> Seq<char> {
    "key "@ + k.key + " is "@ + if k.state == "disabled"@ {
        "DISABLED"@
    } else {
        "EXHAUSTED"@
    } + ": "@ + text_or(k.reason, "-"@) + "; retrying at "@ + text_or(k.until, "?"@) + " (in "@
        + text_or(k.until_in, "?"@) + ")"@
}

fn or_else(v: &Option<String>, otherwise: &str) -> (r: String)
    ensures
        r@ == text_or(opt_text(*v), otherwise@),
{
    match v {
        Some(s) => s.clone(),
        None => otherwise.to_string(),
    }
}

/// What to say about a key, if it is not usable.
pub fn key_warning(k: &KeySnapshot) -> (r: Option<String>)
    ensures
        opt_text(r) == if unusable(k@) {
            Some(warning_text(k@))
        } else {
            None
        },
{
    let disabled = text::same(k.state, "disabled");
    if !disabled && !text::same(k.state, "exhausted") {
        return None;
    }
    let mut out = String::new();
    out.append("key ");
    out.append(k.key.as_str());
    out.append(" is ");
    out.append(
        if disabled {
            "DISABLED"
        } else {
            "EXHAUSTED"
        },
    );
    out.append(": ");
    out.append(or_else(&k.reason, "-").as_str());
    out.append("; retrying at ");
    out.append(or_else(&k.until, "?").as_str());
    out.append(" (in ");
    out.append(or_else(&k.until_in, "?").as_str());
    out.append(")");
    assert(out@ =~= warning_text(k@));
    Some(out)
}

/// What to say about the first `n` keys: one line for each that is not usable, in order.
pub open spec fn warnings_about(keys: Seq<KeySnapshot>, n: nat) -> Seq<Seq<char>>
    decreases n,
{
    if n == 0 {
        Seq::empty()
    } else if unusable(keys[n - 1]@) {
        warnings_about(keys, (n - 1) as nat).push(warning_text(keys[n - 1]@))
    } else {
        warnings_about(keys, (n - 1) as nat)
    }
}

/// One line for each key that is not usable.
pub fn warnings(s: &PoolSnapshot) -> (r: Vec<String>)
    ensures
        r@.map_values(|w: String| w@) == warnings_about(s.keys@, s.keys@.len()),
{
    let ghost view = |w: String| w@;
    let mut out: Vec<String> = Vec::new();
    let mut i: usize = 0;
    assert(out@.map_values(view) =~= warnings_about(s.keys@, 0));
    while i < s.keys.len()
        invariant
            i <= s.keys@.len(),
            view == (|w: String| w@),
            out@.map_values(view) == warnings_about(s.keys@, i as nat),
        decreases s.keys@.len() - i,
    {
        let ghost before = out@;
        if let Some(w) = key_warning(&s.keys[i]) {
            out.push(w);
            assert(out@.map_values(view) =~= before.map_values(view).push(w@));
        }
        i += 1;
    }
    out
}

/// The host to ask for the health of a proxy that listens on `ip`.
pub open spec fn host_to_probe(ip: Seq<char>, unspecified: bool, ipv4: bool) -> Seq<char> {
    if !unspecified {
        ip
    } else if ipv4 {
        "127.0.0.1"@
    } else {
        "::1"@
    }
}

/// The host to ask for the health of a proxy that listens on `ip`: the loopback address of its
/// kind if it listens on all of them.
pub fn probe_host(ip: &str, unspecified: bool, ipv4: bool) -> (r: String)
    ensures
        r@ == host_to_probe(ip@, unspecified, ipv4),
{
    if !unspecified {
        ip.to_string()
    } else if ipv4 {
        "127.0.0.1".to_string()
    } else {
        "::1".to_string()
    }
}

/// True if an HTTP response is a success.
pub open spec fn says_ok(head: Seq<char>) -> bool {
    "HTTP/1.1 200"@.is_prefix_of(head) || "HTTP/1.0 200"@.is_prefix_of(head)
}

/// The exit code of the health check, from what the health endpoint answered.
pub fn probe_result(answer: &[u8]) -> (r: i32)
    ensures
        r == if says_ok(text::readable(answer@)) {
            0i32
        } else {
            1i32
        },
{
    let head = text::from_utf8_lossy(answer);
    if text::starts_with(head.as_str(), "HTTP/1.1 200") || text::starts_with(
        head.as_str(),
        "HTTP/1.0 200",
    ) {
        0
    } else {
        1
    }
}

/// The monthly quota in words: what is left of what there is, with question marks for what is not
/// known, and the keys without a cap beside it.
pub proof fn law_quotas_in_words(remaining: u64, limit: u64, keys: usize)
    requires
        keys > 0,
    ensures
        monthly_text(None, None, 0) == "unknown yet"@,
        monthly_text(None, None, keys) == "no cap ("@ + dec(keys as nat) + " key(s))"@,
        monthly_text(Some(remaining), Some(limit), 0) == dec(remaining as nat) + " of "@ + dec(
            limit as nat,
        ),
        monthly_text(Some(remaining), None, 0) == dec(remaining as nat) + " of "@ + "?"@,
        monthly_text(None, Some(limit), 0) == "?"@ + " of "@ + dec(limit as nat),
        forall|r: Option<u64>, l: Option<u64>|
            r is Some || l is Some ==> #[trigger] monthly_text(r, l, keys) == monthly_text(r, l, 0)
                + " + "@ + dec(keys as nat) + " key(s) without cap"@,
{
}

/// Failed attempts are those that did not succeed, each counted once.
pub proof fn law_failures_are_counted_once(s: PoolSnapshot)
    ensures
        failed_attempts(s) == s.totals.upstream_429 + s.totals.client_4xx + s.totals.server_5xx
            + s.totals.transport_errors,
{
}

/// The status line gives the healthy keys of all keys, what they can take per second, the monthly
/// quota and what became of the attempts.
pub proof fn law_the_status_line_tells_the_figures(s: PoolSnapshot)
    ensures
        ({
            let quota = monthly_text(
                s.month_remaining_total,
                s.month_limit_total,
                s.month_unlimited_keys,
            );
            let keys = "status: "@ + dec(s.keys_healthy as nat) + "/"@ + dec(s.keys_total as nat)
                + " keys healthy"@;
            let capacity = ", capacity "@ + dec(s.rps_capacity as nat) + " req/s"@;
            let attempts = ", upstream attempts "@ + dec(s.totals.ok as nat) + " ok / "@ + dec(
                failed_attempts(s),
            ) + " failed ("@ + dec(s.totals.upstream_429 as nat) + " were 429s)"@;
            status_text(s) == keys + capacity + ", monthly remaining "@ + quota + attempts
        }),
{
    reveal_strlit(" keys healthy");
    reveal_strlit(", capacity ");
    reveal_strlit(" keys healthy, capacity ");
    reveal_strlit(" req/s");
    reveal_strlit(", monthly remaining ");
    reveal_strlit(" req/s, monthly remaining ");
    assert(" keys healthy, capacity "@ =~= " keys healthy"@ + ", capacity "@);
    assert(" req/s, monthly remaining "@ =~= " req/s"@ + ", monthly remaining "@);
    let quota = monthly_text(
        s.month_remaining_total,
        s.month_limit_total,
        s.month_unlimited_keys,
    );
    let keys = "status: "@ + dec(s.keys_healthy as nat) + "/"@ + dec(s.keys_total as nat)
        + " keys healthy"@;
    let capacity = ", capacity "@ + dec(s.rps_capacity as nat) + " req/s"@;
    let attempts = ", upstream attempts "@ + dec(s.totals.ok as nat) + " ok / "@ + dec(
        failed_attempts(s),
    ) + " failed ("@ + dec(s.totals.upstream_429 as nat) + " were 429s)"@;
    assert(status_text(s) =~= keys + capacity + ", monthly remaining "@ + quota + attempts);
}

/// There is one warning for each key that is disabled or exhausted, in order, and none for any
/// other. It names the key, its state, why it is in it, and when it is tried again.
pub proof fn law_unusable_keys_are_warned_about(keys: Seq<KeySnapshot>, k: KeySnapshot)
    ensures
        warnings_about(keys, 0).len() == 0,
        ({
            let all = warnings_about(keys.push(k), keys.len() + 1);
            let rest = warnings_about(keys, keys.len());
            let why = text_or(k@.reason, "-"@);
            let when = "; retrying at "@ + text_or(k@.until, "?"@) + " (in "@ + text_or(
                k@.until_in,
                "?"@,
            ) + ")"@;
            &&& k@.state == "disabled"@ ==> all == rest.push(
                "key "@ + k@.key + " is DISABLED: "@ + why + when,
            )
            &&& k@.state == "exhausted"@ ==> all == rest.push(
                "key "@ + k@.key + " is EXHAUSTED: "@ + why + when,
            )
            &&& k@.state != "disabled"@ && k@.state != "exhausted"@ ==> all == rest
        }),
        text_or(None, "?"@) == "?"@,
        forall|s: Seq<char>| #[trigger] text_or(Some(s), "?"@) == s,
{
    lemma_warnings_of_the_first(keys, keys.push(k), keys.len());
    assert(keys.push(k)[keys.len() as int] == k);
    reveal_strlit(" is ");
    reveal_strlit("DISABLED");
    reveal_strlit("EXHAUSTED");
    reveal_strlit(": ");
    reveal_strlit(" is DISABLED: ");
    reveal_strlit(" is EXHAUSTED: ");
    reveal_strlit("disabled");
    reveal_strlit("exhausted");
    assert("disabled"@.len() == 8 && "exhausted"@.len() == 9);
    assert(" is DISABLED: "@ =~= " is "@ + "DISABLED"@ + ": "@);
    assert(" is EXHAUSTED: "@ =~= " is "@ + "EXHAUSTED"@ + ": "@);
    let why = text_or(k@.reason, "-"@);
    let when = "; retrying at "@ + text_or(k@.until, "?"@) + " (in "@ + text_or(k@.until_in, "?"@)
        + ")"@;
    if k@.state == "disabled"@ {
        assert(warning_text(k@) =~= "key "@ + k@.key + " is DISABLED: "@ + why + when);
    } else if k@.state == "exhausted"@ {
        assert(warning_text(k@) =~= "key "@ + k@.key + " is EXHAUSTED: "@ + why + when);
    }
}

proof fn lemma_warnings_of_the_first(a: Seq<KeySnapshot>, b: Seq<KeySnapshot>, n: nat)
    requires
        n <= a.len(),
        n <= b.len(),
        forall|i: int| 0 <= i < n ==> a[i] == b[i],
    ensures
        warnings_about(a, n) == warnings_about(b, n),
    decreases n,
{
    if n > 0 {
        lemma_warnings_of_the_first(a, b, (n - 1) as nat);
    }
}

/// A proxy is asked for its health where it listens, and on the loopback address if it listens on
/// all of them.
pub proof fn law_probes_go_where_the_proxy_listens(ip: Seq<char>, unspecified: bool, ipv4: bool)
    ensures
        !unspecified ==> host_to_probe(ip, unspecified, ipv4) == ip,
        unspecified && ipv4 ==> host_to_probe(ip, unspecified, ipv4) == "127.0.0.1"@,
        unspecified && !ipv4 ==> host_to_probe(ip, unspecified, ipv4) == "::1"@,
{
}

/// An answer is a success exactly if its status line says 200, in either version of HTTP.
pub proof fn law_health_is_a_status_of_200(rest: Seq<char>, head: Seq<char>)
    ensures
        says_ok("HTTP/1.1 200"@ + rest),
        says_ok("HTTP/1.0 200"@ + rest),
        says_ok(head) ==> head.len() >= 12 && (head.take(12) == "HTTP/1.1 200"@ || head.take(12)
            == "HTTP/1.0 200"@),
{
    reveal_strlit("HTTP/1.1 200");
    reveal_strlit("HTTP/1.0 200");
    assert("HTTP/1.1 200"@.len() == 12 && "HTTP/1.0 200"@.len() == 12);
    assert(("HTTP/1.1 200"@ + rest).take(12) =~= "HTTP/1.1 200"@);
    assert(("HTTP/1.0 200"@ + rest).take(12) =~= "HTTP/1.0 200"@);
    if says_ok(head) {
        assert(head.take(12) =~= head.subrange(0, 12));
    }
}

} // verus!
