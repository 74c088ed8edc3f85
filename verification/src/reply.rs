//! What the proxy answers: a response of Brave with the pool's own headers, or an error of its own.

use http::HeaderMap;
use vstd::prelude::*;
use vstd::utf8::*;

use crate::header::{self, headers, no_headers, room_for, value_text};
use crate::proxy::{self, stripped};
use crate::query::pair_views;
use crate::snapshot::PoolSnapshot;
use crate::text::{self, dec};
use crate::upstream::{self, UpstreamResponse};

verus! {

/// An answer to a client.
pub struct Reply {
    pub status: u16,
    pub headers: HeaderMap,
    pub body: Vec<u8>,
}

/// The JSON object with the given members, texts first. `serde_json` decides on their order.
pub uninterp spec fn json_object(
    texts: Seq<(Seq<char>, Seq<char>)>,
    numbers: Seq<(Seq<char>, u64)>,
) -> Seq<u8>;

/// The models of named numbers.
pub open spec fn number_views(v: Seq<(String, u64)>) -> Seq<(Seq<char>, u64)> {
    v.map_values(|p: (String, u64)| (p.0@, p.1))
}

/// Calls `serde_json::to_vec` on a `serde_json::Map` with these members. The bytes depend on the
/// members alone.
#[verifier::external_body]
fn to_json(texts: Vec<(String, String)>, numbers: Vec<(String, u64)>) -> (r: Vec<u8>)
    ensures
        r@ == json_object(pair_views(texts@), number_views(numbers@)),
{
    let mut members = serde_json::Map::new();
    members.extend(texts.into_iter().map(|(k, v)| (k, serde_json::Value::from(v))));
    members.extend(numbers.into_iter().map(|(k, v)| (k, serde_json::Value::from(v))));
    serde_json::to_vec(&members).unwrap_or_default()
}

/// The headers of every JSON answer.
pub open spec fn json_headers() -> Map<Seq<char>, Seq<Seq<u8>>> {
    no_headers().insert("content-type"@, seq![encode_utf8("application/json"@)])
}

/// An answer with a JSON body.
fn json_response(status: u16, body: Vec<u8>) -> (r: Reply)
    ensures
        r.status == status,
        r.body == body,
        headers(r.headers) == json_headers(),
        room_for(r.headers, 1),
{
    proof {
        reveal_strlit("content-type");
        reveal_strlit("application/json");
        header::lemma_printable_fits("application/json"@);
    }
    let mut h = header::empty();
    let ghost h0 = h;
    let _ = header::insert(&mut h, "content-type", "application/json");
    proof {
        upstream::lemma_room_after_insert(h0, h, "content-type"@, "application/json"@, 1);
    }
    Reply { status, headers: h, body }
}

/// An error that the proxy itself answers with.
#[derive(Debug)]
pub struct ErrorReply {
    pub status: u16,
    pub error: &'static str,
    pub detail: String,
    /// After how many milliseconds to try again, if that is known.
    pub retry_after_ms: Option<u128>,
}

/// The seconds to wait before a retry: the milliseconds rounded up, at least one.
pub open spec fn retry_secs(ms: nat) -> nat {
    if ms == 0 {
        1
    } else {
        ((ms + 999) / 1000) as nat
    }
}

impl ErrorReply {
    /// The members of the body that are texts.
    pub open spec fn texts(&self) -> Seq<(Seq<char>, Seq<char>)> {
        seq![("error"@, self.error@), ("detail"@, self.detail@)]
    }

    /// The members of the body that are numbers.
    pub open spec fn numbers(&self) -> Seq<(Seq<char>, u64)> {
        match self.retry_after_ms {
            Some(ms) => seq![("status"@, self.status as u64), ("retry_after_ms"@, ms as u64)],
            None => seq![("status"@, self.status as u64)],
        }
    }

    /// The headers of the answer.
    pub open spec fn header_map(&self) -> Map<Seq<char>, Seq<Seq<u8>>> {
        match self.retry_after_ms {
            Some(ms) => json_headers().insert(
                "retry-after"@,
                seq![encode_utf8(dec(retry_secs(ms as nat)))],
            ),
            None => json_headers(),
        }
    }

    /// The error as an answer.
    pub fn respond(&self) -> (r: Reply)
        requires
            self.retry_after_ms matches Some(ms) ==> ms <= u64::MAX,
        ensures
            r.status == self.status,
            headers(r.headers) == self.header_map(),
            r.body@ == json_object(self.texts(), self.numbers()),
    {
        let mut texts: Vec<(String, String)> = Vec::new();
        texts.push(("error".to_string(), self.error.to_string()));
        texts.push(("detail".to_string(), self.detail.clone()));
        let mut numbers: Vec<(String, u64)> = Vec::new();
        numbers.push(("status".to_string(), self.status as u64));
        if let Some(ms) = self.retry_after_ms {
            numbers.push(("retry_after_ms".to_string(), ms as u64));
        }
        proof {
            assert(pair_views(texts@) =~= self.texts());
            assert(number_views(numbers@) =~= self.numbers());
        }
        let mut reply = json_response(self.status, to_json(texts, numbers));
        if let Some(ms) = self.retry_after_ms {
            let secs: u128 = if ms == 0 {
                1
            } else {
                (ms + 999) / 1000
            };
            let value = text::decimal(secs);
            proof {
                reveal_strlit("retry-after");
                text::lemma_dec_digits(secs as nat);
                header::lemma_printable_fits(value@);
            }
            let _ = header::insert(&mut reply.headers, "retry-after", value.as_str());
        }
        reply
    }
}

/// The headers with a value under a name, if its text is fit for a header value.
pub open spec fn with_text(
    m: Map<Seq<char>, Seq<Seq<u8>>>,
    name: Seq<char>,
    value: Seq<char>,
) -> Map<Seq<char>, Seq<Seq<u8>>> {
    if value_text(value) {
        m.insert(name, seq![encode_utf8(value)])
    } else {
        m
    }
}

/// A monthly figure of the pool, in Brave's convention: 0 means that there is no monthly cap.
pub open spec fn month_text(unlimited_keys: usize, total: Option<u64>) -> Seq<char> {
    if unlimited_keys > 0 {
        "0"@
    } else {
        match total {
            Some(v) => dec(v as nat),
            None => "?"@,
        }
    }
}

fn month_figure(unlimited_keys: usize, total: Option<u64>) -> (r: String)
    ensures
        r@ == month_text(unlimited_keys, total),
{
    if unlimited_keys > 0 {
        "0".to_string()
    } else {
        match total {
            Some(v) => text::decimal(v as u128),
            None => "?".to_string(),
        }
    }
}

/// A figure per second and one per month.
pub open spec fn figures(per_second: u64, month: Seq<char>) -> Seq<char> {
    dec(per_second as nat) + ", "@ + month
}

fn both_figures(per_second: u64, month: String) -> (r: String)
    ensures
        r@ == figures(per_second, month@),
{
    let mut out = text::decimal(per_second as u128);
    out.append(", ");
    out.append(month.as_str());
    out
}

/// The limits of the pool, as a client sees them.
pub open spec fn limit_text(snap: PoolSnapshot) -> Seq<char> {
    figures(snap.rps_capacity, month_text(snap.month_unlimited_keys, snap.month_limit_total))
}

/// What the pool has left, as a client sees it.
pub open spec fn remaining_text(snap: PoolSnapshot) -> Seq<char> {
    figures(
        snap.slots_available_now,
        month_text(snap.month_unlimited_keys, snap.month_remaining_total),
    )
}

/// The headers of a response of Brave as a client sees them: the limits of the one key give way to
/// those of the pool, and two more tell which key served the request and after how many attempts.
pub open spec fn returned_headers(
    m: Map<Seq<char>, Seq<Seq<u8>>>,
    snap: PoolSnapshot,
    key_label: Seq<char>,
    attempts: u32,
) -> Map<Seq<char>, Seq<Seq<u8>>> {
    let limited = with_text(stripped(m, true), "x-ratelimit-limit"@, limit_text(snap));
    let remaining = with_text(limited, "x-ratelimit-remaining"@, remaining_text(snap));
    let keyed = with_text(remaining, "x-rotator-key"@, key_label);
    with_text(keyed, "x-rotator-attempts"@, dec(attempts as nat))
}

/// Puts a header, unless its text is not fit for one.
fn set(h: &mut HeaderMap, name: &'static str, value: &str, left: Ghost<nat>)
    requires
        header::plain_name(name@),
        room_for(*old(h), left@ + 1),
    ensures
        headers(*final(h)) == with_text(headers(*old(h)), name@, value@),
        room_for(*final(h), left@),
{
    let ghost before = *h;
    let _ = header::insert(h, name, value);
    proof {
        upstream::lemma_room_after_insert(before, *h, name@, value@, left@);
    }
}

/// A response of Brave as it goes back to the client.
pub fn build_response(up: UpstreamResponse, snap: &PoolSnapshot, key_label: &str, attempts: u32)
    -> (r: Reply)
    requires
        room_for(up.headers, 4),
    ensures
        r.status == up.status,
        r.body == up.body,
        headers(r.headers) == returned_headers(
            headers(up.headers),
            *snap,
            key_label@,
            attempts,
        ),
{
    let mut h = proxy::return_headers(&up.headers);
    proof {
        reveal_strlit("x-ratelimit-limit");
        reveal_strlit("x-ratelimit-remaining");
        reveal_strlit("x-rotator-key");
        reveal_strlit("x-rotator-attempts");
        vstd::set_lib::lemma_len_subset(headers(h).dom(), headers(up.headers).dom());
    }
    let limit = both_figures(
        snap.rps_capacity,
        month_figure(snap.month_unlimited_keys, snap.month_limit_total),
    );
    set(&mut h, "x-ratelimit-limit", limit.as_str(), Ghost(3));
    let remaining = both_figures(
        snap.slots_available_now,
        month_figure(snap.month_unlimited_keys, snap.month_remaining_total),
    );
    set(&mut h, "x-ratelimit-remaining", remaining.as_str(), Ghost(2));
    set(&mut h, "x-rotator-key", key_label, Ghost(1));
    set(&mut h, "x-rotator-attempts", text::decimal(attempts as u128).as_str(), Ghost(0));
    Reply { status: up.status, headers: h, body: up.body }
}

/// The state of the whole pool, in a word.
pub open spec fn health_text(healthy: usize) -> Seq<char> {
    if healthy > 0 {
        "ok"@
    } else {
        "degraded"@
    }
}

/// The status that goes with it.
pub open spec fn health_status(healthy: usize) -> u16 {
    if healthy > 0 {
        200
    } else {
        503
    }
}

/// 200 while at least one key is usable, else 503.
pub fn health(snap: &PoolSnapshot) -> (r: Reply)
    ensures
        r.status == health_status(snap.keys_healthy),
        headers(r.headers) == json_headers(),
        r.body@ == json_object(
            seq![("status"@, health_text(snap.keys_healthy))],
            seq![
                ("keys_healthy"@, snap.keys_healthy as u64),
                ("keys_total"@, snap.keys_total as u64),
            ],
        ),
{
    let ok = snap.keys_healthy > 0;
    let mut texts: Vec<(String, String)> = Vec::new();
    texts.push(
        (
            "status".to_string(),
            if ok {
                "ok".to_string()
            } else {
                "degraded".to_string()
            },
        ),
    );
    let mut numbers: Vec<(String, u64)> = Vec::new();
    numbers.push(("keys_healthy".to_string(), snap.keys_healthy as u64));
    numbers.push(("keys_total".to_string(), snap.keys_total as u64));
    proof {
        assert(pair_views(texts@) =~= seq![("status"@, health_text(snap.keys_healthy))]);
        assert(number_views(numbers@) =~= seq![
            ("keys_healthy"@, snap.keys_healthy as u64),
            ("keys_total"@, snap.keys_total as u64),
        ]);
    }
    json_response(
        if ok {
            200
        } else {
            503
        },
        to_json(texts, numbers),
    )
}

proof fn lemma_figures_fit(per_second: u64, unlimited_keys: usize, total: Option<u64>)
    ensures
        value_text(figures(per_second, month_text(unlimited_keys, total))),
{
    reveal_strlit(", ");
    reveal_strlit("0");
    reveal_strlit("?");
    text::lemma_dec_digits(per_second as nat);
    if let Some(v) = total {
        text::lemma_dec_digits(v as nat);
    }
    let month = month_text(unlimited_keys, total);
    let s = figures(per_second, month);
    assert forall|i: int| 0 <= i < s.len() implies ' ' <= #[trigger] s[i] <= '~' by {
        let n = dec(per_second as nat).len();
        if i < n {
            assert(s[i] == dec(per_second as nat)[i]);
        } else if i < n + 2 {
            assert(s[i] == ", "@[i - n]);
        } else {
            assert(s[i] == month[i - n - 2]);
        }
    }
    header::lemma_printable_fits(s);
}

/// Clients see the limits of the pool and never those of one key: the two rate-limit headers hold
/// the pool's figures, alone, and no other one is left. They also see how many attempts it took.
pub proof fn law_clients_see_the_pool(
    m: Map<Seq<char>, Seq<Seq<u8>>>,
    snap: PoolSnapshot,
    key_label: Seq<char>,
    attempts: u32,
)
    ensures
        ({
            let h = returned_headers(m, snap, key_label, attempts);
            &&& h.contains_key("x-ratelimit-limit"@)
            &&& h["x-ratelimit-limit"@] == seq![encode_utf8(limit_text(snap))]
            &&& h.contains_key("x-ratelimit-remaining"@)
            &&& h["x-ratelimit-remaining"@] == seq![encode_utf8(remaining_text(snap))]
            &&& h.contains_key("x-rotator-attempts"@)
            &&& h["x-rotator-attempts"@] == seq![encode_utf8(dec(attempts as nat))]
            &&& forall|n: Seq<char>| #[trigger]
                h.contains_key(n) && "x-ratelimit-"@.is_prefix_of(n) ==> n
                    == "x-ratelimit-limit"@ || n == "x-ratelimit-remaining"@
        }),
{
    reveal_strlit("x-ratelimit-");
    reveal_strlit("x-ratelimit-limit");
    reveal_strlit("x-ratelimit-remaining");
    reveal_strlit("x-rotator-key");
    reveal_strlit("x-rotator-attempts");
    lemma_figures_fit(snap.rps_capacity, snap.month_unlimited_keys, snap.month_limit_total);
    lemma_figures_fit(
        snap.slots_available_now,
        snap.month_unlimited_keys,
        snap.month_remaining_total,
    );
    text::lemma_dec_digits(attempts as nat);
    header::lemma_printable_fits(dec(attempts as nat));
    let lead = "x-ratelimit-"@;
    assert("x-ratelimit-limit"@.len() == 17);
    assert("x-ratelimit-remaining"@.len() == 21);
    assert("x-rotator-key"@.len() == 13);
    assert("x-rotator-attempts"@.len() == 18);
    assert forall|n: Seq<char>| #[trigger]
        returned_headers(m, snap, key_label, attempts).contains_key(n) && lead.is_prefix_of(
            n,
        ) implies n == "x-ratelimit-limit"@ || n == "x-ratelimit-remaining"@ by {
        assert(n.subrange(0, lead.len() as int)[3] == lead[3]);
        assert(n[3] == lead[3]);
        assert("x-rotator-key"@[3] != lead[3]);
        assert("x-rotator-attempts"@[3] != lead[3]);
    }
}

/// A client that is told to come back is told a time in whole seconds that is long enough, and
/// less than a second too long.
pub proof fn law_retry_times_are_long_enough(ms: nat)
    ensures
        retry_secs(ms) >= 1,
        retry_secs(ms) * 1000 >= ms,
        ms > 0 ==> retry_secs(ms) * 1000 < ms + 1000,
{
}

/// A header of Brave's response reaches the client with all its values, unless it only concerns the
/// connection, tells the rate limits of the one key or is one that the proxy sets itself.
pub proof fn law_clients_see_the_response(
    m: Map<Seq<char>, Seq<Seq<u8>>>,
    snap: PoolSnapshot,
    key_label: Seq<char>,
    attempts: u32,
    name: Seq<char>,
)
    ensures
        ({
            let h = returned_headers(m, snap, key_label, attempts);
            let dropped = name == "connection"@ || name == "keep-alive"@ || name
                == "proxy-authenticate"@ || name == "proxy-authorization"@ || name == "te"@ || name
                == "trailer"@ || name == "transfer-encoding"@ || name == "upgrade"@ || name
                == "content-length"@ || "x-ratelimit-"@.is_prefix_of(name);
            let own = name == "x-ratelimit-limit"@ || name == "x-ratelimit-remaining"@ || name
                == "x-rotator-key"@ || name == "x-rotator-attempts"@;
            &&& m.contains_key(name) && !dropped && !own ==> h.contains_key(name) && h[name]
                == m[name]
            &&& (dropped || !m.contains_key(name)) && !own ==> !h.contains_key(name)
        }),
{
    proxy::law_response_headers_come_back(m, name);
}

/// What the four headers of the proxy say: what the healthy keys can take together per second and
/// how much of that is free, the monthly figures that are known, with 0 if a plan has no cap and a
/// question mark if nothing is known, which key served the request, and the number of attempts.
pub proof fn law_figures_are_those_of_the_pool(
    m: Map<Seq<char>, Seq<Seq<u8>>>,
    snap: PoolSnapshot,
    key_label: Seq<char>,
    attempts: u32,
)
    ensures
        ({
            let h = returned_headers(m, snap, key_label, attempts);
            let limit = if snap.month_unlimited_keys > 0 {
                "0"@
            } else if let Some(v) = snap.month_limit_total {
                dec(v as nat)
            } else {
                "?"@
            };
            let left = if snap.month_unlimited_keys > 0 {
                "0"@
            } else if let Some(v) = snap.month_remaining_total {
                dec(v as nat)
            } else {
                "?"@
            };
            &&& h["x-ratelimit-limit"@] == seq![
                encode_utf8(dec(snap.rps_capacity as nat) + ", "@ + limit),
            ]
            &&& h["x-ratelimit-remaining"@] == seq![
                encode_utf8(dec(snap.slots_available_now as nat) + ", "@ + left),
            ]
            &&& value_text(key_label) ==> h.contains_key("x-rotator-key"@) && h["x-rotator-key"@]
                == seq![encode_utf8(key_label)]
            &&& h["x-rotator-attempts"@] == seq![encode_utf8(dec(attempts as nat))]
        }),
{
    law_clients_see_the_pool(m, snap, key_label, attempts);
    reveal_strlit("x-rotator-key");
    reveal_strlit("x-rotator-attempts");
    assert("x-rotator-key"@.len() == 13);
    assert("x-rotator-attempts"@.len() == 18);
}

/// An error of the proxy tells its name, what is behind it and its status, and when to try again if
/// that is known: in milliseconds in the body, and in seconds in a header. All of it is JSON.
pub proof fn law_errors_are_told_in_full(e: ErrorReply)
    requires
        e.retry_after_ms matches Some(ms) ==> ms <= u64::MAX,
    ensures
        e.texts().len() == 2,
        e.texts().contains(("error"@, e.error@)),
        e.texts().contains(("detail"@, e.detail@)),
        e.numbers().contains(("status"@, e.status as u64)),
        e.header_map().contains_key("content-type"@),
        e.header_map()["content-type"@] == seq![encode_utf8("application/json"@)],
        match e.retry_after_ms {
            Some(ms) => {
                &&& e.numbers().len() == 2
                &&& e.numbers().contains(("retry_after_ms"@, ms as u64))
                &&& e.header_map().contains_key("retry-after"@)
                &&& e.header_map()["retry-after"@] == seq![
                    encode_utf8(dec(retry_secs(ms as nat))),
                ]
            },
            None => e.numbers().len() == 1 && !e.header_map().contains_key("retry-after"@),
        },
        forall|n: Seq<char>| #[trigger]
            e.header_map().contains_key(n) ==> n == "content-type"@ || n == "retry-after"@,
{
    reveal_strlit("content-type");
    reveal_strlit("retry-after");
    assert("content-type"@.len() == 12);
    assert("retry-after"@.len() == 11);
    assert(e.texts()[0] == ("error"@, e.error@));
    assert(e.texts()[1] == ("detail"@, e.detail@));
    assert(e.numbers()[0] == ("status"@, e.status as u64));
    if let Some(ms) = e.retry_after_ms {
        assert(e.numbers()[1] == ("retry_after_ms"@, ms as u64));
    }
}

/// The proxy is well as long as a single key is.
pub proof fn law_one_healthy_key_is_enough(healthy: usize)
    ensures
        healthy >= 1 ==> health_status(healthy) == 200 && health_text(healthy) == "ok"@,
        healthy == 0 ==> health_status(healthy) == 503 && health_text(healthy) == "degraded"@,
{
}

} // verus!
