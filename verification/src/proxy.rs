//! The rules of the proxy: who may use it, what is passed on in either direction, and how a request
//! and an error are put into words.

use http::HeaderMap;
use vstd::prelude::*;
use vstd::utf8::*;

use crate::config::Config;
use crate::header::{self, headers};
use crate::query;
use crate::text;

verus! {

/// True for the headers that are not forwarded in either direction (RFC 9110, section 7.6.1), or
/// that the proxy sets itself.
pub open spec fn is_hop_by_hop(name: Seq<char>) -> bool {
    ||| name == "connection"@
    ||| name == "keep-alive"@
    ||| name == "proxy-authenticate"@
    ||| name == "proxy-authorization"@
    ||| name == "te"@
    ||| name == "trailer"@
    ||| name == "transfer-encoding"@
    ||| name == "upgrade"@
    ||| name == "content-length"@
}

/// True for the headers that must not be forwarded in either direction (RFC 9110, section 7.6.1)
/// or that we own.
pub fn hop_by_hop(name: &str) -> (r: bool)
    ensures
        r == is_hop_by_hop(name@),
{
    text::same(name, "connection") || text::same(name, "keep-alive") || text::same(
        name,
        "proxy-authenticate",
    ) || text::same(name, "proxy-authorization") || text::same(name, "te") || text::same(
        name,
        "trailer",
    ) || text::same(name, "transfer-encoding") || text::same(name, "upgrade") || text::same(
        name,
        "content-length",
    )
}

/// True for the headers of a client that are not forwarded to Brave: those between client and
/// proxy, and every credential.
pub open spec fn stays_here(name: Seq<char>) -> bool {
    ||| is_hop_by_hop(name)
    ||| name == "host"@
    ||| name == "expect"@
    ||| name == "x-subscription-token"@
    ||| name == "x-api-key"@
    ||| name == "x-proxy-token"@
    ||| name == "authorization"@
}

/// True for the headers of a client that are not forwarded to Brave.
pub fn strip_request_header(name: &str) -> (r: bool)
    ensures
        r == stays_here(name@),
{
    hop_by_hop(name) || text::same(name, "host") || text::same(name, "expect") || text::same(
        name,
        "x-subscription-token",
    ) || text::same(name, "x-api-key") || text::same(name, "x-proxy-token") || text::same(
        name,
        "authorization",
    )
}

/// True for the headers of Brave that are not passed back: those between Brave and the proxy, and
/// the rate limits of the one key.
pub open spec fn ends_here(name: Seq<char>) -> bool {
    is_hop_by_hop(name) || "x-ratelimit-"@.is_prefix_of(name)
}

/// True for the headers of Brave that are not passed back.
pub fn strip_response_header(name: &str) -> (r: bool)
    ensures
        r == ends_here(name@),
{
    hop_by_hop(name) || text::starts_with(name, "x-ratelimit-")
}

/// The headers without those that are stripped on the way to Brave, or on the way back.
pub open spec fn stripped(m: Map<Seq<char>, Seq<Seq<u8>>>, back: bool) -> Map<
    Seq<char>,
    Seq<Seq<u8>>,
> {
    m.filter_keys(
        |n: Seq<char>|
            if back {
                !ends_here(n)
            } else {
                !stays_here(n)
            },
    )
}

fn strip(h: &HeaderMap, back: bool) -> (r: HeaderMap)
    ensures
        headers(r) == stripped(headers(*h), back),
{
    let ghost m = headers(*h);
    let names = header::names(h);
    let mut out = header::copy(h);
    let mut i: usize = 0;
    while i < names.len()
        invariant
            i <= names@.len(),
            m == headers(*h),
            forall|j: int| 0 <= j < names@.len() ==> header::lower_case((#[trigger] names@[j])@),
            forall|n: Seq<char>| #[trigger]
                headers(out).contains_key(n) ==> m.contains_key(n) && headers(out)[n] == m[n],
            forall|n: Seq<char>|
                m.contains_key(n) && stripped(m, back).contains_key(n) ==> #[trigger] headers(
                    out,
                ).contains_key(n),
            forall|j: int|
                0 <= j < i && !stripped(m, back).contains_key((#[trigger] names@[j])@)
                    ==> !headers(out).contains_key(names@[j]@),
        decreases names@.len() - i,
    {
        let name = names[i].as_str();
        let stop = if back {
            strip_response_header(name)
        } else {
            strip_request_header(name)
        };
        if stop {
            header::remove(&mut out, name);
        }
        i += 1;
    }
    assert(headers(out) =~= stripped(m, back)) by {
        assert forall|n: Seq<char>| headers(out).contains_key(n) implies stripped(
            m,
            back,
        ).contains_key(n) by {
            assert(m.contains_key(n));
            let j = choose|j: int| 0 <= j < names@.len() && names@[j]@ == n;
            assert(names@[j]@ == n);
        }
    }
    out
}

/// The headers of a client that are forwarded to Brave.
pub fn forward_headers(h: &HeaderMap) -> (r: HeaderMap)
    ensures
        headers(r) == stripped(headers(*h), false),
{
    strip(h, false)
}

/// The headers of a response of Brave that are passed back to the client.
pub fn return_headers(h: &HeaderMap) -> (r: HeaderMap)
    ensures
        headers(r) == stripped(headers(*h), true),
{
    strip(h, true)
}

/// True if the first value under a name is the given secret.
pub open spec fn presents(
    m: Map<Seq<char>, Seq<Seq<u8>>>,
    name: Seq<char>,
    secret: Seq<char>,
) -> bool {
    m.contains_key(name) && m[name][0] == encode_utf8(secret)
}

/// True if the headers carry the secret that clients must present, if there is one.
pub open spec fn allowed(secret: Option<Seq<char>>, m: Map<Seq<char>, Seq<Seq<u8>>>) -> bool {
    match secret {
        Some(s) => presents(m, "x-proxy-token"@, s) || presents(m, "x-subscription-token"@, s),
        None => true,
    }
}

fn same_bytes(a: &[u8], b: &[u8]) -> (r: bool)
    ensures
        r == (a@ == b@),
{
    if a.len() != b.len() {
        return false;
    }
    let mut i: usize = 0;
    while i < a.len()
        invariant
            i <= a@.len() == b@.len(),
            forall|j: int| 0 <= j < i ==> a@[j] == b@[j],
        decreases a@.len() - i,
    {
        if a[i] != b[i] {
            return false;
        }
        i += 1;
    }
    assert(a@ =~= b@);
    true
}

fn carries(h: &HeaderMap, name: &str, secret: &str) -> (r: bool)
    requires
        header::lower_case(name@),
    ensures
        r == presents(headers(*h), name@, secret@),
{
    match header::first_value(h, name) {
        Some(v) => same_bytes(v.as_slice(), secret.as_bytes()),
        None => false,
    }
}

/// True if a client with these headers may use the proxy.
pub fn authorized(cfg: &Config, h: &HeaderMap) -> (r: bool)
    ensures
        r == allowed(crate::key::opt_text(cfg.proxy_token), headers(*h)),
{
    proof {
        reveal_strlit("x-proxy-token");
        reveal_strlit("x-subscription-token");
    }
    match &cfg.proxy_token {
        Some(secret) => carries(h, "x-proxy-token", secret.as_str()) || carries(
            h,
            "x-subscription-token",
            secret.as_str(),
        ),
        None => true,
    }
}

/// A request in words, from its parts and the quoted text of its query.
pub open spec fn request_text(
    method: Seq<char>,
    path_and_query: Seq<char>,
    quoted_query: Option<Seq<char>>,
) -> Seq<char> {
    let line = method + " "@ + text::before(path_and_query, '?');
    match quoted_query {
        Some(q) => line + " q="@ + q,
        None => if path_and_query.contains('?') && text::after(path_and_query, '?').len() > 0 {
            line + " ?"@ + text::shortened(text::after(path_and_query, '?'), 120)
        } else {
            line
        },
    }
}

/// A request in words, from its parts and the quoted text of its query.
pub fn request_line(method: &str, path_and_query: &str, quoted_query: Option<String>) -> (r: String)
    ensures
        r@ == request_text(method@, path_and_query@, crate::key::opt_text(quoted_query)),
{
    let mut out = String::new();
    out.append(method);
    out.append(" ");
    out.append(text::until_char(path_and_query, '?'));
    assert(out@ =~= method@ + " "@ + text::before(path_and_query@, '?'));
    match quoted_query {
        Some(q) => {
            out.append(" q=");
            out.append(q.as_str());
        },
        None => {
            if let Some((_, query)) = text::split_once(path_and_query, '?') {
                if !query.is_empty() {
                    out.append(" ?");
                    out.append(text::short(query, 120).as_str());
                }
            }
        },
    }
    out
}

/// The quoted text of the `q` parameter of a request.
pub open spec fn quoted_query(path_and_query: Seq<char>) -> Option<Seq<char>> {
    match query::param(path_and_query, "q"@) {
        Some(q) => Some(text::quoted(text::shortened(q, 120))),
        None => None,
    }
}

/// `METHOD /path q="decoded query"` for log lines (falls back to the raw query string).
pub fn describe_request(method: &str, path_and_query: &str) -> (r: String)
    ensures
        r@ == request_text(method@, path_and_query@, quoted_query(path_and_query@)),
{
    let q = match query::query_param(path_and_query, "q") {
        Some(q) => Some(text::quote(text::short(q.as_str(), 120).as_str())),
        None => None,
    };
    request_line(method, path_and_query, q)
}

/// What to tell about an error that a client is likely to have caused.
pub open spec fn hint_text(status: u16, path: Seq<char>) -> Seq<char> {
    if status == 404 && !"/res/v1/"@.is_prefix_of(path) {
        " (hint: Brave Search API endpoints live under /res/v1/, e.g. /res/v1/web/search?q=...; check the base URL configured in your client)"@
    } else if status == 404 {
        " (hint: unknown endpoint, see https://api-dashboard.search.brave.com/documentation)"@
    } else if status == 400 || status == 422 {
        " (hint: Brave rejected the query parameters, see its detail above)"@
    } else {
        ""@
    }
}

/// A hint for the most common client-side mistakes, appended to error logs.
pub fn hint_for(status: u16, path: &str) -> (r: &'static str)
    ensures
        r@ == hint_text(status, path@),
{
    if status == 404 {
        if !text::starts_with(path, "/res/v1/") {
            " (hint: Brave Search API endpoints live under /res/v1/, e.g. /res/v1/web/search?q=...; check the base URL configured in your client)"
        } else {
            " (hint: unknown endpoint, see https://api-dashboard.search.brave.com/documentation)"
        }
    } else if status == 400 || status == 422 {
        " (hint: Brave rejected the query parameters, see its detail above)"
    } else {
        ""
    }
}

/// The beginning of a text, without control characters and without whitespace around it.
pub open spec fn excerpt_of(s: Seq<char>) -> Seq<char> {
    text::shortened(text::trimmed(s.filter(|c: char| !text::control(c))), 160)
}

/// First ~160 printable characters of an error body, for logs and status.
pub fn snippet(body: &[u8]) -> (r: String)
    ensures
        r@ == excerpt_of(text::readable(body@)),
{
    excerpt(text::from_utf8_lossy(body).as_str())
}

/// First ~160 printable characters of a text.
pub fn excerpt(s: &str) -> (r: String)
    ensures
        r@ == excerpt_of(s@),
{
    let clean = text::without_controls(s);
    text::short(text::trim(clean.as_str()), 160)
}

/// No credential of a client reaches Brave, and every header that is not stripped does, with all
/// its values.
pub proof fn law_credentials_stay_here(m: Map<Seq<char>, Seq<Seq<u8>>>, name: Seq<char>)
    ensures
        !stripped(m, false).contains_key("x-subscription-token"@),
        !stripped(m, false).contains_key("x-api-key"@),
        !stripped(m, false).contains_key("x-proxy-token"@),
        !stripped(m, false).contains_key("authorization"@),
        m.contains_key(name) && !stays_here(name) ==> stripped(m, false).contains_key(name)
            && stripped(m, false)[name] == m[name],
{
}

/// Without a shared secret everyone may use the proxy; with one, nobody who does not send it.
pub proof fn law_the_secret_is_asked_for(secret: Seq<char>, m: Map<Seq<char>, Seq<Seq<u8>>>)
    ensures
        allowed(None, m),
        !m.contains_key("x-proxy-token"@) && !m.contains_key("x-subscription-token"@) ==> !allowed(
            Some(secret),
            m,
        ),
        presents(m, "x-proxy-token"@, secret) ==> allowed(Some(secret), m),
        presents(m, "x-subscription-token"@, secret) ==> allowed(Some(secret), m),
{
}

/// A header of Brave's response goes back to the client, with all its values, unless it is one of
/// the nine that only concern the connection, or tells the rate limits of the one key. Those do
/// not go back, and nothing is added.
pub proof fn law_response_headers_come_back(m: Map<Seq<char>, Seq<Seq<u8>>>, name: Seq<char>)
    ensures
        ({
            let back = stripped(m, true);
            let dropped = name == "connection"@ || name == "keep-alive"@ || name
                == "proxy-authenticate"@ || name == "proxy-authorization"@ || name == "te"@ || name
                == "trailer"@ || name == "transfer-encoding"@ || name == "upgrade"@ || name
                == "content-length"@ || "x-ratelimit-"@.is_prefix_of(name);
            &&& m.contains_key(name) && !dropped ==> back.contains_key(name) && back[name]
                == m[name]
            &&& dropped ==> !back.contains_key(name)
            &&& !m.contains_key(name) ==> !back.contains_key(name)
        }),
{
}

/// What tells a client how to read a response, how long to keep it and what to remember comes back
/// as Brave sent it.
pub proof fn law_responses_stay_readable(m: Map<Seq<char>, Seq<Seq<u8>>>, name: Seq<char>)
    requires
        m.contains_key(name),
        name == "content-type"@ || name == "content-encoding"@ || name == "cache-control"@ || name
            == "set-cookie"@ || name == "vary"@ || name == "etag"@ || name == "date"@ || name
            == "location"@,
    ensures
        stripped(m, true).contains_key(name),
        stripped(m, true)[name] == m[name],
{
    reveal_strlit("content-type");
    reveal_strlit("content-encoding");
    reveal_strlit("cache-control");
    reveal_strlit("set-cookie");
    reveal_strlit("vary");
    reveal_strlit("etag");
    reveal_strlit("date");
    reveal_strlit("location");
    reveal_strlit("connection");
    reveal_strlit("keep-alive");
    reveal_strlit("proxy-authenticate");
    reveal_strlit("proxy-authorization");
    reveal_strlit("te");
    reveal_strlit("trailer");
    reveal_strlit("transfer-encoding");
    reveal_strlit("upgrade");
    reveal_strlit("content-length");
    reveal_strlit("x-ratelimit-");
    // Lengths tell these names from those that are dropped, and where they do not, first letters.
    assert("content-type"@.len() == 12 && "content-encoding"@.len() == 16 && "cache-control"@.len()
        == 13 && "set-cookie"@.len() == 10 && "vary"@.len() == 4 && "etag"@.len() == 4
        && "date"@.len() == 4 && "location"@.len() == 8);
    assert("connection"@.len() == 10 && "keep-alive"@.len() == 10 && "proxy-authenticate"@.len()
        == 18 && "proxy-authorization"@.len() == 19 && "te"@.len() == 2 && "trailer"@.len() == 7
        && "transfer-encoding"@.len() == 17 && "upgrade"@.len() == 7 && "content-length"@.len()
        == 14);
    assert("set-cookie"@[0] == 's' && "connection"@[0] == 'c' && "keep-alive"@[0] == 'k');
    let lead = "x-ratelimit-"@;
    assert(lead.len() == 12 && lead[0] == 'x');
    if lead.is_prefix_of(name) {
        assert(name.subrange(0, 12)[0] == lead[0]);
        assert("content-type"@[0] == 'c' && "content-encoding"@[0] == 'c' && "cache-control"@[0]
            == 'c');
    }
}

/// A header of a client reaches Brave, with all its values, unless it is one of the nine that only
/// concern the connection, names the host, expects something of the proxy or is a credential. Those
/// do not reach Brave, and nothing is added.
pub proof fn law_request_headers_go_on(m: Map<Seq<char>, Seq<Seq<u8>>>, name: Seq<char>)
    ensures
        ({
            let forwarded = stripped(m, false);
            let dropped = name == "connection"@ || name == "keep-alive"@ || name
                == "proxy-authenticate"@ || name == "proxy-authorization"@ || name == "te"@ || name
                == "trailer"@ || name == "transfer-encoding"@ || name == "upgrade"@ || name
                == "content-length"@ || name == "host"@ || name == "expect"@ || name
                == "x-subscription-token"@ || name == "x-api-key"@ || name == "x-proxy-token"@
                || name == "authorization"@;
            &&& m.contains_key(name) && !dropped ==> forwarded.contains_key(name)
                && forwarded[name] == m[name]
            &&& dropped ==> !forwarded.contains_key(name)
            &&& !m.contains_key(name) ==> !forwarded.contains_key(name)
        }),
{
}

/// With a shared secret, those may use the proxy who send it, byte for byte, as the first value of
/// one of the two headers for it, and nobody else.
pub proof fn law_only_the_secret_opens(secret: Seq<char>, m: Map<Seq<char>, Seq<Seq<u8>>>)
    ensures
        ({
            let sent = encode_utf8(secret);
            allowed(Some(secret), m) <==> (m.contains_key("x-proxy-token"@)
                && m["x-proxy-token"@][0] == sent) || (m.contains_key("x-subscription-token"@)
                && m["x-subscription-token"@][0] == sent)
        }),
{
}

/// A request is put into words by its method and its path, followed by what it searches for. If it
/// says nothing of that, its query follows as it is, up to 120 characters of it.
pub proof fn law_requests_in_words(
    method: Seq<char>,
    path: Seq<char>,
    query: Seq<char>,
    quoted: Seq<char>,
)
    requires
        !path.contains('?'),
        query.len() > 0,
    ensures
        ({
            let line = method + " "@ + path;
            let whole = path.push('?') + query;
            &&& request_text(method, path, None) == line
            &&& request_text(method, path.push('?'), None) == line
            &&& request_text(method, whole, Some(quoted)) == line + " q="@ + quoted
            &&& query.len() <= 120 ==> request_text(method, whole, None) == line + " ?"@ + query
            &&& query.len() > 120 ==> request_text(method, whole, None) == line + " ?"@
                + query.take(120) + "..."@
        }),
{
    let whole = path.push('?') + query;
    let empty = path.push('?') + Seq::<char>::empty();
    assert(empty =~= path.push('?'));
    query::lemma_query_of(path, query);
    query::lemma_query_of(path, Seq::empty());
    text::law_split_at_the_first(whole, '?');
    text::law_split_at_the_first(empty, '?');
    text::law_split_at_the_first(path, '?');
    assert(text::before(whole, '?') =~= path) by {
        let back = text::before(whole, '?').push('?') + text::after(whole, '?');
        assert(text::before(whole, '?').len() == path.len());
        assert forall|i: int| 0 <= i < path.len() implies text::before(whole, '?')[i]
            == path[i] by {
            assert(back[i] == text::before(whole, '?')[i]);
            assert(whole[i] == path[i]);
        }
    }
    assert(text::before(empty, '?') =~= path) by {
        let back = text::before(empty, '?').push('?') + text::after(empty, '?');
        assert(text::before(empty, '?').len() == path.len());
        assert forall|i: int| 0 <= i < path.len() implies text::before(empty, '?')[i]
            == path[i] by {
            assert(back[i] == text::before(empty, '?')[i]);
            assert(empty[i] == path[i]);
        }
    }
    if query.len() > 120 {
        let line = method + " "@ + path;
        assert(line + " ?"@ + (query.take(120) + "..."@) =~= line + " ?"@ + query.take(120)
            + "..."@);
    }
}

/// What a request searches for is its parameter `q`, quoted, up to 120 characters of it.
pub proof fn law_searches_are_quoted(path_and_query: Seq<char>)
    ensures
        quoted_query(path_and_query) is Some <==> query::param(path_and_query, "q"@) is Some,
        query::param(path_and_query, "q"@) matches Some(q) ==> {
            &&& q.len() <= 120 ==> quoted_query(path_and_query) == Some(text::quoted(q))
            &&& q.len() > 120 ==> quoted_query(path_and_query) == Some(
                text::quoted(q.take(120) + "..."@),
            )
        },
{
}

/// There are hints for three errors. That for an unknown path depends on whether it is one of the
/// API's.
pub proof fn law_hints(status: u16, path: Seq<char>, rest: Seq<char>)
    ensures
        status != 400 && status != 404 && status != 422 ==> hint_text(status, path) == ""@,
        hint_text(400, path) == hint_text(422, path),
        hint_text(400, path)
            == " (hint: Brave rejected the query parameters, see its detail above)"@,
        hint_text(404, "/res/v1/"@ + rest)
            == " (hint: unknown endpoint, see https://api-dashboard.search.brave.com/documentation)"@,
        !"/res/v1/"@.is_prefix_of(path) ==> hint_text(404, path)
            == " (hint: Brave Search API endpoints live under /res/v1/, e.g. /res/v1/web/search?q=...; check the base URL configured in your client)"@,
{
    let lead = "/res/v1/"@;
    assert((lead + rest).subrange(0, lead.len() as int) =~= lead);
}

proof fn lemma_nothing_filtered(s: Seq<char>, p: spec_fn(char) -> bool)
    requires
        forall|i: int| 0 <= i < s.len() ==> p(#[trigger] s[i]),
    ensures
        s.filter(p) == s,
    decreases s.len(),
{
    reveal(Seq::filter);
    if s.len() > 0 {
        let rest = s.drop_last();
        assert forall|i: int| 0 <= i < rest.len() implies p(#[trigger] rest[i]) by {
            assert(rest[i] == s[i]);
        }
        lemma_nothing_filtered(rest, p);
        assert(p(s[s.len() - 1]));
        assert(rest.push(s.last()) =~= s);
    }
}

/// An excerpt is the text itself if that is clean and short. Whitespace around it makes no
/// difference, and of a long text the first 160 characters are shown.
pub proof fn law_excerpts_show_the_beginning(s: Seq<char>, lead: Seq<char>, trail: Seq<char>)
    requires
        s.len() > 0,
        !text::whitespace(s[0]),
        !text::whitespace(s.last()),
        forall|i: int| 0 <= i < s.len() ==> !text::control(#[trigger] s[i]),
        forall|i: int| 0 <= i < lead.len() ==> #[trigger] lead[i] == ' ',
        forall|i: int| 0 <= i < trail.len() ==> #[trigger] trail[i] == ' ',
    ensures
        s.len() <= 160 ==> excerpt_of(lead + s + trail) == s,
        s.len() > 160 ==> excerpt_of(lead + s + trail) == s.take(160) + "..."@,
{
    let p = |c: char| !text::control(c);
    let padded = lead + s + trail;
    assert forall|i: int| 0 <= i < padded.len() implies p(#[trigger] padded[i]) by {
        if i < lead.len() {
            assert(padded[i] == lead[i]);
        } else if i < lead.len() + s.len() {
            assert(padded[i] == s[i - lead.len()]);
        } else {
            assert(padded[i] == trail[i - lead.len() - s.len()]);
        }
    }
    lemma_nothing_filtered(padded, p);
    text::lemma_trimmed(lead, s, trail);
}

/// Control characters in a text make no difference to its excerpt.
pub proof fn law_excerpts_skip_controls(a: Seq<char>, c: char, b: Seq<char>)
    requires
        text::control(c),
    ensures
        excerpt_of(a.push(c) + b) == excerpt_of(a + b),
{
    let p = |c: char| !text::control(c);
    Seq::filter_distributes_over_add(a.push(c), b, p);
    Seq::filter_distributes_over_add(a, b, p);
    assert(a.push(c).filter(p) == a.filter(p)) by {
        reveal(Seq::filter);
        assert(a.push(c).drop_last() =~= a);
    }
}

} // verus!
