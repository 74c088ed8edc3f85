//! What goes to the Brave API and what comes back.

use http::HeaderMap;
use vstd::prelude::*;
use vstd::utf8::*;

use crate::clock::Duration;
use crate::header::{self, headers, room_for, value_text};
use crate::key::opt_text;
use crate::text;

verus! {

/// A response of the Brave API.
pub struct UpstreamResponse {
    pub status: u16,
    pub headers: HeaderMap,
    pub body: Vec<u8>,
}

/// Why there is no response.
#[derive(Debug)]
pub enum UpstreamError {
    Timeout(Duration),
    Request(String),
    Body(String),
}

impl UpstreamError {
    /// The error in words.
    pub open spec fn text(&self) -> Seq<char> {
        match self {
            UpstreamError::Timeout(d) => "upstream timed out after "@ + text::dec(
                (d.nanos / 1_000_000) as nat,
            ) + "ms"@,
            UpstreamError::Request(e) => "upstream request failed: "@ + e@,
            UpstreamError::Body(e) => "upstream body error: "@ + e@,
        }
    }

    /// The error in words.
    pub fn message(&self) -> (r: String)
        ensures
            r@ == self.text(),
    {
        let mut out = String::new();
        match self {
            UpstreamError::Timeout(d) => {
                out.append("upstream timed out after ");
                out.append(text::decimal(d.as_millis()).as_str());
                out.append("ms");
            },
            UpstreamError::Request(e) => {
                out.append("upstream request failed: ");
                out.append(e.as_str());
            },
            UpstreamError::Body(e) => {
                out.append("upstream body error: ");
                out.append(e.as_str());
            },
        }
        assert(out@ =~= self.text());
        out
    }
}

/// The parts of a URI that matter here.
#[derive(Debug)]
pub struct UriParts {
    pub scheme: Option<String>,
    pub authority: Option<String>,
}

/// What `http::Uri` makes of a text: the scheme and the authority, as far as there are any, or why
/// the text is not a URI.
pub uninterp spec fn uri_of(s: Seq<char>) -> Result<
    (Option<Seq<char>>, Option<Seq<char>>),
    Seq<char>,
>;

/// The model of a parsed URI.
pub open spec fn parsed_uri(r: Result<UriParts, String>) -> Result<
    (Option<Seq<char>>, Option<Seq<char>>),
    Seq<char>,
> {
    match r {
        Ok(p) => Ok((opt_text(p.scheme), opt_text(p.authority))),
        Err(e) => Err(e@),
    }
}

/// Calls `<http::Uri as FromStr>::from_str`, and `scheme_str` and `authority` on what it gives.
/// The result depends on the text alone.
#[verifier::external_body]
pub(crate) fn parse_uri(s: &str) -> (r: Result<UriParts, String>)
    ensures
        parsed_uri(r) == uri_of(s@),
{
    match s.parse::<http::Uri>() {
        Ok(u) => Ok(
            UriParts {
                scheme: u.scheme_str().map(|s| s.to_string()),
                authority: u.authority().map(|a| a.as_str().to_string()),
            },
        ),
        Err(e) => Err(e.to_string()),
    }
}

/// What a request to `uri` comes to before it is sent, from what parsing its URI came to.
pub open spec fn target_of(
    uri: Seq<char>,
    parsed: Result<(Option<Seq<char>>, Option<Seq<char>>), Seq<char>>,
) -> Result<Seq<char>, Seq<char>> {
    match parsed {
        Ok(_) => Ok(uri),
        Err(e) => Err("invalid request for "@ + uri + ": "@ + e),
    }
}

/// Accepts the URI of a request, or says why it cannot be sent, from what parsing it came to.
pub fn accept_target(uri: String, parsed: Result<UriParts, String>) -> (r: Result<
    String,
    UpstreamError,
>)
    ensures
        match r {
            Ok(u) => target_of(uri@, parsed_uri(parsed)) == Ok::<Seq<char>, Seq<char>>(u@),
            Err(UpstreamError::Request(e)) => target_of(uri@, parsed_uri(parsed)) == Err::<
                Seq<char>,
                Seq<char>,
            >(e@),
            Err(_) => false,
        },
        r is Ok <==> parsed is Ok,
        r matches Ok(u) ==> u@ == uri@,
{
    match parsed {
        Ok(_) => Ok(uri),
        Err(e) => {
            let mut out = String::new();
            out.append("invalid request for ");
            out.append(uri.as_str());
            out.append(": ");
            out.append(e.as_str());
            assert(out@ =~= "invalid request for "@ + uri@ + ": "@ + e@);
            Err(UpstreamError::Request(out))
        },
    }
}

/// The URI that a request for `path_and_query` goes to.
pub fn target(base: &str, path_and_query: &str) -> (r: Result<String, UpstreamError>)
    ensures
        ({
            let uri = base@ + path_and_query@;
            match r {
                Ok(u) => target_of(uri, uri_of(uri)) == Ok::<Seq<char>, Seq<char>>(u@),
                Err(UpstreamError::Request(e)) => target_of(uri, uri_of(uri)) == Err::<
                    Seq<char>,
                    Seq<char>,
                >(e@),
                Err(_) => false,
            }
        }),
        r is Ok <==> uri_of(base@ + path_and_query@) is Ok,
        r matches Ok(u) ==> u@ == base@ + path_and_query@,
{
    let mut uri = String::new();
    uri.append(base);
    uri.append(path_and_query);
    assert(uri@ =~= base@ + path_and_query@);
    let parsed = parse_uri(uri.as_str());
    accept_target(uri, parsed)
}

/// The headers with a value under a name that has none yet.
pub open spec fn with_default(
    m: Map<Seq<char>, Seq<Seq<u8>>>,
    name: Seq<char>,
    value: Seq<char>,
) -> Map<Seq<char>, Seq<Seq<u8>>> {
    if m.contains_key(name) {
        m
    } else {
        m.insert(name, seq![encode_utf8(value)])
    }
}

/// The headers of a request to Brave, from those to forward: with the key as its subscription
/// token, whatever token was there, and with `Accept` and, if its text is fit for a header value,
/// `User-Agent` if they are missing.
pub open spec fn sent_headers(
    m: Map<Seq<char>, Seq<Seq<u8>>>,
    key: Seq<char>,
    user_agent: Seq<char>,
) -> Map<Seq<char>, Seq<Seq<u8>>> {
    let ours = with_default(
        m.insert("x-subscription-token"@, seq![encode_utf8(key)]),
        "accept"@,
        "application/json"@,
    );
    if value_text(user_agent) {
        with_default(ours, "user-agent"@, user_agent)
    } else {
        ours
    }
}

/// A map that took in one more name still has room for all the others.
pub(crate) proof fn lemma_room_after_insert(
    before: HeaderMap,
    after: HeaderMap,
    name: Seq<char>,
    value: Seq<char>,
    n: nat,
)
    requires
        room_for(before, n + 1),
        headers(after) == headers(before).insert(name, seq![encode_utf8(value)]) || headers(after)
            == headers(before),
    ensures
        room_for(after, n),
{
    if headers(after) != headers(before) {
        assert(headers(after).dom() =~= headers(before).dom().insert(name));
    }
}

/// The headers of a request to Brave, from those to forward.
pub fn request_headers(forwarded: &HeaderMap, key: &str, user_agent: &str) -> (r: Result<
    HeaderMap,
    UpstreamError,
>)
    requires
        room_for(*forwarded, 3),
    ensures
        match r {
            Ok(h) => value_text(key@) && headers(h) == sent_headers(
                headers(*forwarded),
                key@,
                user_agent@,
            ),
            Err(UpstreamError::Request(e)) => !value_text(key@) && e@
                == "key contains invalid header characters"@,
            Err(_) => false,
        },
{
    proof {
        reveal_strlit("x-subscription-token");
        reveal_strlit("accept");
        reveal_strlit("user-agent");
        reveal_strlit("application/json");
        header::lemma_printable_fits("application/json"@);
    }
    let mut h = header::copy(forwarded);
    let ghost h0 = h;
    let fit = header::insert(&mut h, "x-subscription-token", key);
    if !fit {
        return Err(
            UpstreamError::Request("key contains invalid header characters".to_string()),
        );
    }
    proof {
        lemma_room_after_insert(h0, h, "x-subscription-token"@, key@, 2);
    }
    let ghost h1 = h;
    if header::first_value(&h, "accept").is_none() {
        let _ = header::insert(&mut h, "accept", "application/json");
        proof {
            lemma_room_after_insert(h1, h, "accept"@, "application/json"@, 1);
        }
    }
    if header::first_value(&h, "user-agent").is_none() {
        let _ = header::insert(&mut h, "user-agent", user_agent);
    }
    Ok(h)
}

/// Whatever a client sends, Brave sees the key of the pool and no other token: the request
/// carries the key, alone, as its subscription token.
pub proof fn law_the_key_is_the_only_token(
    m: Map<Seq<char>, Seq<Seq<u8>>>,
    key: Seq<char>,
    user_agent: Seq<char>,
)
    ensures
        sent_headers(m, key, user_agent).contains_key("x-subscription-token"@),
        sent_headers(m, key, user_agent)["x-subscription-token"@] == seq![encode_utf8(key)],
{
    reveal_strlit("x-subscription-token");
    reveal_strlit("accept");
    reveal_strlit("user-agent");
}

/// How long connecting may take: as long as the whole request, and at most ten seconds.
pub open spec fn connect_limit(timeout: Duration) -> Duration {
    Duration {
        nanos: if timeout.nanos <= 10_000_000_000 {
            timeout.nanos
        } else {
            10_000_000_000
        },
    }
}

/// Connecting may take as long as the whole request, and at most ten seconds.
pub fn connect_timeout(timeout: Duration) -> (r: Duration)
    ensures
        r == connect_limit(timeout),
        r.nanos <= timeout.nanos,
        r.nanos <= 10_000_000_000,
        r.nanos == timeout.nanos || r.nanos == 10_000_000_000,
{
    let longest = Duration::from_secs(10);
    if timeout.nanos <= longest.nanos {
        timeout
    } else {
        longest
    }
}

/// A request that can be sent goes where it was meant to go, letter for letter: to the base and
/// then, right behind it, the path and query. It can be sent exactly if that is a URI; if not, the
/// error names it and says why.
pub proof fn law_paths_are_forwarded_verbatim(
    base: Seq<char>,
    path_and_query: Seq<char>,
    parsed: Result<(Option<Seq<char>>, Option<Seq<char>>), Seq<char>>,
)
    ensures
        match target_of(base + path_and_query, parsed) {
            Ok(u) => {
                &&& parsed is Ok
                &&& u.len() == base.len() + path_and_query.len()
                &&& forall|i: int| 0 <= i < base.len() ==> #[trigger] u[i] == base[i]
                &&& forall|i: int|
                    0 <= i < path_and_query.len() ==> #[trigger] path_and_query[i] == u[base.len()
                        + i]
            },
            Err(e) => parsed matches Err(why) && e == "invalid request for "@ + base
                + path_and_query + ": "@ + why,
        },
{
    if let Err(why) = parsed {
        assert("invalid request for "@ + (base + path_and_query) + ": "@ + why
            =~= "invalid request for "@ + base + path_and_query + ": "@ + why);
    }
}

/// Brave sees every forwarded header with all its values, but for the token. What a client says it
/// accepts and what it says it is stand; only where it says nothing, JSON is asked for, and the
/// proxy says what it is.
pub proof fn law_forwarded_headers_are_sent(
    m: Map<Seq<char>, Seq<Seq<u8>>>,
    key: Seq<char>,
    user_agent: Seq<char>,
    name: Seq<char>,
)
    ensures
        ({
            let sent = sent_headers(m, key, user_agent);
            &&& name != "x-subscription-token"@ && m.contains_key(name) ==> sent.contains_key(name)
                && sent[name] == m[name]
            &&& name != "x-subscription-token"@ && name != "accept"@ && name != "user-agent"@
                && !m.contains_key(name) ==> !sent.contains_key(name)
            &&& !m.contains_key("accept"@) ==> sent.contains_key("accept"@) && sent["accept"@]
                == seq![encode_utf8("application/json"@)]
            &&& !m.contains_key("user-agent"@) && value_text(user_agent) ==> sent.contains_key(
                "user-agent"@,
            ) && sent["user-agent"@] == seq![encode_utf8(user_agent)]
            &&& !m.contains_key("user-agent"@) && !value_text(user_agent) ==> !sent.contains_key(
                "user-agent"@,
            )
        }),
{
    reveal_strlit("x-subscription-token");
    reveal_strlit("accept");
    reveal_strlit("user-agent");
    assert("x-subscription-token"@.len() == 20);
    assert("accept"@.len() == 6);
    assert("user-agent"@.len() == 10);
}

/// An error says what went wrong, and after a timeout how many whole milliseconds it was.
pub proof fn law_errors_say_what_went_wrong(e: UpstreamError, ms: nat)
    ensures
        match e {
            UpstreamError::Timeout(d) => ms * 1_000_000 <= d.nanos < (ms + 1) * 1_000_000
                ==> e.text() == "upstream timed out after "@ + text::dec(ms) + "ms"@,
            UpstreamError::Request(why) => e.text() == "upstream request failed: "@ + why@,
            UpstreamError::Body(why) => e.text() == "upstream body error: "@ + why@,
        },
{
    if let UpstreamError::Timeout(d) = e {
        if ms * 1_000_000 <= d.nanos < (ms + 1) * 1_000_000 {
            assert(d.nanos / 1_000_000 == ms);
        }
    }
}

/// Connecting never takes longer than the whole request or ten seconds, and is given no less than
/// the shorter of the two.
pub proof fn law_connecting_is_limited(timeout: Duration)
    ensures
        ({
            let limit = connect_limit(timeout).nanos;
            &&& limit <= timeout.nanos
            &&& limit <= 10 * 1_000_000_000
            &&& limit == timeout.nanos || limit == 10 * 1_000_000_000
        }),
{
}

} // verus!
