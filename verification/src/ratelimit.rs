//! Parsing of Brave's rate-limit response headers.
//!
//! Per <https://api-dashboard.search.brave.com/documentation/guides/rate-limiting> every
//! response carries four headers, each a comma-separated pair where index 0 describes the
//! 1-second sliding burst window and index 1 the monthly quota window:
//!
//! ```text
//! X-RateLimit-Limit:     1, 15000            (0 for the month means unlimited)
//! X-RateLimit-Policy:    1;w=1, 15000;w=2592000
//! X-RateLimit-Remaining: 0, 14523
//! X-RateLimit-Reset:     1, 1234567          (seconds from now)
//! ```
//!
//! Only successful requests are counted against the quota; a 429 does not consume it.

use http::HeaderMap;
use vstd::prelude::*;

use crate::clock::Duration;
use crate::header;
use crate::text;

verus! {

/// One value per limit window.
#[derive(Debug, Clone, Copy, PartialEq, Eq, Structural)]
pub struct Windows {
    pub second: Option<u64>,
    pub month: Option<u64>,
}

impl Default for Windows {
    fn default() -> (r: Self)
        ensures
            r == (Windows { second: None, month: None }),
    {
        Windows { second: None, month: None }
    }
}

#[derive(Debug, Clone, Copy, PartialEq, Eq, Structural)]
pub struct RateLimitInfo {
    pub limit: Windows,
    pub remaining: Windows,
    /// Seconds until each window resets.
    pub reset: Windows,
    /// Window sizes in seconds from `X-RateLimit-Policy`.
    pub window: Windows,
    /// `Retry-After` in seconds, if the upstream sent one.
    pub retry_after: Option<u64>,
}

impl Default for RateLimitInfo {
    fn default() -> (r: Self)
        ensures
            r.limit == (Windows { second: None, month: None }),
            r.remaining == (Windows { second: None, month: None }),
            r.reset == (Windows { second: None, month: None }),
            r.window == (Windows { second: None, month: None }),
            r.retry_after is None,
    {
        RateLimitInfo {
            limit: Windows { second: None, month: None },
            remaining: Windows { second: None, month: None },
            reset: Windows { second: None, month: None },
            window: Windows { second: None, month: None },
            retry_after: None,
        }
    }
}

/// The number in one item of a window list: what stands before the first `;`.
pub open spec fn item_number(item: Seq<char>) -> Option<u64> {
    text::number_up_to(
        text::trimmed(text::before(text::trimmed(item), ';')),
        u64::MAX as nat,
    )
}

/// True for a parameter that gives a window size, with or without whitespace around it.
pub open spec fn is_window_param(param: Seq<char>) -> bool {
    "w="@.is_prefix_of(text::trimmed(param))
}

/// The value of the first `w=` among the parameters from the `from`th on.
pub open spec fn window_param(params: Seq<Seq<char>>, from: int) -> Option<u64>
    decreases params.len() - from,
{
    if from >= params.len() {
        None
    } else if is_window_param(params[from]) {
        text::number_up_to(
            text::trimmed(text::trimmed(params[from]).skip(2)),
            u64::MAX as nat,
        )
    } else {
        window_param(params, from + 1)
    }
}

/// The window size in one item of a policy: the number behind its first `w=`.
pub open spec fn item_window(item: Seq<char>) -> Option<u64> {
    window_param(text::pieces(item, ';'), 0)
}

/// The windows that a comma-separated list describes, its first item for the second and its
/// second item for the month, each read by `f`.
pub open spec fn windows_of(v: Seq<char>, f: spec_fn(Seq<char>) -> Option<u64>) -> Windows {
    let items = text::pieces(v, ',');
    Windows {
        second: f(items[0]),
        month: if items.len() > 1 {
            f(items[1])
        } else {
            None
        },
    }
}

/// The windows of a header that may be absent.
pub open spec fn opt_windows(
    v: Option<Seq<char>>,
    f: spec_fn(Seq<char>) -> Option<u64>,
) -> Windows {
    match v {
        Some(v) => windows_of(v, f),
        None => Windows { second: None, month: None },
    }
}

/// What the headers of a response say about rate limits.
pub open spec fn info_of(h: HeaderMap) -> Option<RateLimitInfo> {
    let limit = header::header_text(h, "x-ratelimit-limit"@);
    let remaining = header::header_text(h, "x-ratelimit-remaining"@);
    let reset = header::header_text(h, "x-ratelimit-reset"@);
    let policy = header::header_text(h, "x-ratelimit-policy"@);
    let number = |i: Seq<char>| item_number(i);
    if limit is None && remaining is None && reset is None && policy is None {
        None
    } else {
        Some(
            RateLimitInfo {
                limit: opt_windows(limit, number),
                remaining: opt_windows(remaining, number),
                reset: opt_windows(reset, number),
                window: opt_windows(policy, |i: Seq<char>| item_window(i)),
                retry_after: retry_after_of(h),
            },
        )
    }
}

/// What a `Retry-After` header says, in seconds.
pub open spec fn retry_after_of(h: HeaderMap) -> Option<u64> {
    match header::header_text(h, "retry-after"@) {
        Some(v) => text::number_up_to(text::trimmed(v), u64::MAX as nat),
        None => None,
    }
}

/// What a response says about rate limits. A 429 that carries no `X-RateLimit-*` header may still
/// say when to come back.
pub open spec fn limits_told(status: u16, h: HeaderMap) -> Option<RateLimitInfo> {
    match info_of(h) {
        Some(info) => Some(info),
        None => if status == 429 && retry_after_of(h) is Some {
            let none = Windows { second: None, month: None };
            Some(
                RateLimitInfo {
                    limit: none,
                    remaining: none,
                    reset: none,
                    window: none,
                    retry_after: retry_after_of(h),
                },
            )
        } else {
            None
        },
    }
}

impl RateLimitInfo {
    /// True when the monthly quota is used up. A monthly limit of 0 means "unlimited".
    pub open spec fn exhausted(&self) -> bool {
        self.limit.month != Some(0u64) && self.remaining.month == Some(0u64)
    }

    /// The seconds to hold a key after a per-second 429: the larger of what the reset and the
    /// `Retry-After` header ask for, from one second to a minute.
    pub open spec fn wait_secs(&self) -> nat {
        let reset = match self.reset.second {
            Some(s) => s,
            None => 1,
        };
        let retry = match self.retry_after {
            Some(s) => s,
            None => 0,
        };
        let asked = if reset >= retry {
            reset
        } else {
            retry
        };
        if asked < 1 {
            1
        } else if asked > 60 {
            60
        } else {
            asked as nat
        }
    }

    /// Time until the monthly quota resets, if reported.
    pub open spec fn resets_in(&self) -> Option<Duration> {
        match self.reset.month {
            Some(s) => Some(Duration::of_secs(s as nat)),
            None => None,
        }
    }

    /// Returns `None` when the response carries no `X-RateLimit-*` header at all.
    pub fn from_headers(h: &HeaderMap) -> (r: Option<Self>)
        ensures
            r == info_of(*h),
    {
        proof {
            reveal_strlit("x-ratelimit-limit");
            reveal_strlit("x-ratelimit-remaining");
            reveal_strlit("x-ratelimit-reset");
            reveal_strlit("x-ratelimit-policy");
        }
        let limit = header::text_of(h, "x-ratelimit-limit");
        let remaining = header::text_of(h, "x-ratelimit-remaining");
        let reset = header::text_of(h, "x-ratelimit-reset");
        let policy = header::text_of(h, "x-ratelimit-policy");
        if limit.is_none() && remaining.is_none() && reset.is_none() && policy.is_none() {
            return None;
        }
        let retry_after = read_retry_after(h);
        Some(
            RateLimitInfo {
                limit: parse_opt_windows(&limit),
                remaining: parse_opt_windows(&remaining),
                reset: parse_opt_windows(&reset),
                window: match &policy {
                    Some(v) => parse_policy_windows(v.as_str()),
                    None => Windows { second: None, month: None },
                },
                retry_after,
            },
        )
    }

    /// What a response says about rate limits. After a 429 a lone `Retry-After` counts too.
    pub fn from_response(status: u16, h: &HeaderMap) -> (r: Option<Self>)
        ensures
            r == limits_told(status, *h),
    {
        let info = RateLimitInfo::from_headers(h);
        if info.is_some() || status != 429 {
            return info;
        }
        let retry_after = read_retry_after(h);
        if retry_after.is_some() {
            Some(RateLimitInfo { retry_after, ..RateLimitInfo::default() })
        } else {
            None
        }
    }

    /// True when the monthly quota is used up. A monthly limit of 0 means "unlimited".
    pub fn month_exhausted(&self) -> (r: bool)
        ensures
            r == self.exhausted(),
    {
        match self.limit.month {
            Some(0) => false,
            _ => match self.remaining.month {
                Some(n) => n == 0,
                None => false,
            },
        }
    }

    /// How long to hold a key after a per-second 429 (at least one second).
    pub fn second_wait(&self) -> (r: Duration)
        ensures
            r == Duration::of_secs(self.wait_secs()),
            Duration::of_secs(1).nanos <= r.nanos <= Duration::of_secs(60).nanos,
    {
        let reset: u64 = self.reset.second.unwrap_or(1);
        let retry: u64 = self.retry_after.unwrap_or(0);
        let asked: u64 = if reset >= retry {
            reset
        } else {
            retry
        };
        let secs: u64 = if asked < 1 {
            1
        } else if asked > 60 {
            60
        } else {
            asked
        };
        Duration::from_secs(secs)
    }

    /// Time until the monthly quota resets, if reported.
    pub fn month_reset(&self) -> (r: Option<Duration>)
        ensures
            r == self.resets_in(),
    {
        match self.reset.month {
            Some(s) => Some(Duration::from_secs(s)),
            None => None,
        }
    }
}

fn read_retry_after(h: &HeaderMap) -> (r: Option<u64>)
    ensures
        r == retry_after_of(*h),
{
    proof {
        reveal_strlit("retry-after");
    }
    match header::text_of(h, "retry-after") {
        Some(v) => text::parse_number(text::trim(v.as_str()), u64::MAX),
        None => None,
    }
}

fn parse_opt_windows(v: &Option<String>) -> (r: Windows)
    ensures
        match v {
            Some(s) => r == windows_of(s@, |i: Seq<char>| item_number(i)),
            None => r == (Windows { second: None, month: None }),
        },
{
    match v {
        Some(s) => parse_windows(s.as_str()),
        None => Windows { second: None, month: None },
    }
}

fn parse_item(item: &str) -> (r: Option<u64>)
    ensures
        r == item_number(item@),
{
    text::parse_number(text::trim(text::until_char(text::trim(item), ';')), u64::MAX)
}

/// Parses `"1, 15000"` (tolerating `"1;w=1, 15000;w=2592000"` and single values).
pub fn parse_windows(v: &str) -> (r: Windows)
    ensures
        r == windows_of(v@, |i: Seq<char>| item_number(i)),
{
    let items = text::split(v, ',');
    Windows {
        second: parse_item(items[0]),
        month: if items.len() > 1 {
            parse_item(items[1])
        } else {
            None
        },
    }
}

fn parse_item_window(item: &str) -> (r: Option<u64>)
    ensures
        r == item_window(item@),
{
    let params = text::split(item, ';');
    proof {
        reveal_strlit("w=");
    }
    let mut i: usize = 0;
    while i < params.len()
        invariant
            i <= params@.len() == text::pieces(item@, ';').len(),
            "w="@.len() == 2,
            forall|j: int|
                0 <= j < params@.len() ==> (#[trigger] params@[j])@ == text::pieces(item@, ';')[j],
            item_window(item@) == window_param(text::pieces(item@, ';'), i as int),
        decreases params@.len() - i,
    {
        let param = text::trim(params[i]);
        if text::starts_with(param, "w=") {
            let n: usize = text::chars_of(param).len();
            assert(param@.skip(2) =~= param@.subrange(2, n as int));
            return text::parse_number(text::trim(param.substring_char(2, n)), u64::MAX);
        }
        i += 1;
    }
    None
}

/// Parses the `w=` window sizes out of `"1;w=1, 15000;w=2592000"`.
pub fn parse_policy_windows(v: &str) -> (r: Windows)
    ensures
        r == windows_of(v@, |i: Seq<char>| item_window(i)),
{
    let items = text::split(v, ',');
    Windows {
        second: parse_item_window(items[0]),
        month: if items.len() > 1 {
            parse_item_window(items[1])
        } else {
            None
        },
    }
}

/// The number `n` as a header writes it, with a window size of `w` seconds.
pub open spec fn written_item(n: u64, w: u64) -> Seq<char> {
    text::dec(n as nat) + ";w="@ + text::dec(w as nat)
}

proof fn lemma_number(lead: Seq<char>, n: u64, trail: Seq<char>)
    requires
        text::blank(lead),
        text::blank(trail),
    ensures
        item_number(lead + text::dec(n as nat) + trail) == Some(n),
        text::trimmed(lead + text::dec(n as nat) + trail) == text::dec(n as nat),
{
    let d = text::dec(n as nat);
    text::lemma_dec_digits(n as nat);
    text::law_numbers_read_back(n as nat);
    text::lemma_trimmed(lead, d, trail);
    text::lemma_one_piece(d, ';');
    text::lemma_trimmed(Seq::empty(), d, Seq::empty());
    assert(Seq::<char>::empty() + d + Seq::<char>::empty() =~= d);
}

proof fn lemma_item(lead: Seq<char>, n: u64, w: u64)
    requires
        text::blank(lead),
        !lead.contains(';'),
    ensures
        item_number(lead + written_item(n, w)) == Some(n),
        item_window(lead + written_item(n, w)) == Some(w),
{
    let none = Seq::<char>::empty();
    let d = text::dec(n as nat);
    let e = text::dec(w as nat);
    let item = written_item(n, w);
    reveal_strlit(";w=");
    reveal_strlit("w=");
    text::lemma_dec_digits(n as nat);
    text::lemma_dec_digits(w as nat);
    text::law_numbers_read_back(w as nat);
    let param = "w="@ + e;
    assert(item =~= d.push(';') + param);
    assert(lead + item + none =~= lead + item);
    assert(item.last() == e.last());
    text::lemma_trimmed(lead, item, none);
    assert forall|i: int| 0 <= i < param.len() implies param[i] != ';' by {
        if i >= 2 {
            assert(param[i] == e[i - 2]);
        }
    }
    text::lemma_two_pieces(d, ';', param);
    lemma_number(none, n, none);
    assert(none + d + none =~= d);
    // The number.
    assert(text::before(text::trimmed(lead + item), ';') == d);
    text::lemma_trimmed(none, d, none);
    text::law_numbers_read_back(n as nat);
    // The window.
    let first = lead + d;
    assert forall|i: int| 0 <= i < first.len() implies first[i] != ';' by {
        if i < lead.len() {
            assert(lead.contains(lead[i]));
            assert(first[i] == lead[i]);
        } else {
            assert(first[i] == d[i - lead.len()]);
        }
    }
    assert(lead + item =~= first.push(';') + param);
    text::lemma_two_pieces(first, ';', param);
    let params = text::pieces(lead + item, ';');
    assert(lead + d + none =~= first);
    text::lemma_trimmed(lead, d, none);
    assert(!is_window_param(params[0])) by {
        if "w="@.is_prefix_of(d) {
            assert(d.subrange(0, 2)[0] == 'w');
            assert(d[0] == 'w');
        }
    }
    assert(param.last() == e.last());
    assert(none + param + none =~= param);
    text::lemma_trimmed(none, param, none);
    assert(is_window_param(params[1])) by {
        assert(param.subrange(0, 2) =~= "w="@);
    }
    assert(param.skip(2) =~= e);
    text::lemma_trimmed(none, e, none);
    assert(none + e + none =~= e);
    reveal_with_fuel(window_param, 3);
}

/// What Brave writes is read back: a pair of numbers, with whitespace around them or with window
/// sizes behind them, gives the numbers; a single number gives one; and an item that is not a
/// number does not spoil the other.
pub proof fn law_written_windows_are_read(
    a: u64,
    b: u64,
    x: u64,
    y: u64,
    w1: Seq<char>,
    w2: Seq<char>,
    w3: Seq<char>,
    w4: Seq<char>,
)
    requires
        text::blank(w1),
        text::blank(w2),
        text::blank(w3),
        text::blank(w4),
    ensures
        ({
            let number = |i: Seq<char>| item_number(i);
            let both = Windows { second: Some(a), month: Some(b) };
            let da = text::dec(a as nat);
            let db = text::dec(b as nat);
            &&& windows_of(da + ", "@ + db, number) == both
            &&& windows_of((w1 + da + w2).push(',') + (w3 + db + w4), number) == both
            &&& windows_of(written_item(a, x) + ", "@ + written_item(b, y), number) == both
            &&& windows_of(da, number) == (Windows { second: Some(a), month: None })
            &&& windows_of("?, "@ + db, number) == (Windows { second: None, month: Some(b) })
            &&& windows_of(
                written_item(a, x) + ", "@ + written_item(b, y),
                |i: Seq<char>| item_window(i),
            ) == (Windows { second: Some(x), month: Some(y) })
        }),
{
    let none = Seq::<char>::empty();
    let space = seq![' '];
    let da = text::dec(a as nat);
    let db = text::dec(b as nat);
    reveal_strlit(", ");
    reveal_strlit(";w=");
    reveal_strlit("?, ");
    text::lemma_dec_digits(a as nat);
    text::lemma_dec_digits(b as nat);
    text::lemma_dec_digits(x as nat);
    text::lemma_dec_digits(y as nat);
    // A pair of numbers.
    assert(none + da + none =~= da);
    assert(space + db + none =~= space + db);
    lemma_number(none, a, none);
    lemma_number(space, b, none);
    assert(da + ", "@ + db =~= da.push(',') + (space + db));
    assert forall|i: int| 0 <= i < (space + db).len() implies (space + db)[i] != ',' by {
        if i >= 1 {
            assert((space + db)[i] == db[i - 1]);
        }
    }
    text::lemma_two_pieces(da, ',', space + db);
    // With whitespace.
    let p = w1 + da + w2;
    let q = w3 + db + w4;
    lemma_number(w1, a, w2);
    lemma_number(w3, b, w4);
    lemma_padded(w1, da, w2);
    lemma_padded(w3, db, w4);
    text::lemma_two_pieces(p, ',', q);
    // With window sizes.
    let ia = written_item(a, x);
    let ib = space + written_item(b, y);
    lemma_item(none, a, x);
    lemma_item(space, b, y);
    assert(none + ia =~= ia);
    lemma_no_comma(a, x);
    lemma_no_comma(b, y);
    assert forall|i: int| 0 <= i < ib.len() implies ib[i] != ',' by {
        if i >= 1 {
            assert(ib[i] == written_item(b, y)[i - 1]);
            assert(written_item(b, y).contains(written_item(b, y)[i - 1]));
        }
    }
    assert(ia + ", "@ + written_item(b, y) =~= ia.push(',') + ib);
    text::lemma_two_pieces(ia, ',', ib);
    // One number, and one that is none.
    text::lemma_one_piece(da, ',');
    let mark = seq!['?'];
    assert("?, "@ + db =~= mark.push(',') + (space + db));
    text::lemma_two_pieces(mark, ',', space + db);
    assert(item_number(mark) is None) by {
        text::lemma_trimmed(none, mark, none);
        assert(none + mark + none =~= mark);
        text::lemma_one_piece(mark, ';');
        assert(!text::is_digit(mark[0]));
    }
}

proof fn lemma_padded(lead: Seq<char>, d: Seq<char>, trail: Seq<char>)
    requires
        text::blank(lead),
        text::blank(trail),
        forall|i: int| 0 <= i < d.len() ==> '0' <= #[trigger] d[i] <= '9',
    ensures
        !(lead + d + trail).contains(','),
{
    let s = lead + d + trail;
    assert forall|i: int| 0 <= i < s.len() implies s[i] != ',' by {
        if i < lead.len() {
            assert(s[i] == lead[i]);
            assert(text::whitespace(lead[i]));
        } else if i < lead.len() + d.len() {
            assert(s[i] == d[i - lead.len()]);
        } else {
            assert(s[i] == trail[i - lead.len() - d.len()]);
            assert(text::whitespace(trail[i - lead.len() - d.len()]));
        }
    }
}

proof fn lemma_no_comma(n: u64, w: u64)
    ensures
        !written_item(n, w).contains(','),
{
    reveal_strlit(";w=");
    text::lemma_dec_digits(n as nat);
    text::lemma_dec_digits(w as nat);
    let d = text::dec(n as nat);
    let s = written_item(n, w);
    assert forall|i: int| 0 <= i < s.len() implies s[i] != ',' by {
        if i < d.len() {
            assert(s[i] == d[i]);
        } else if i < d.len() + 3 {
            assert(s[i] == ";w="@[i - d.len()]);
        } else {
            assert(s[i] == text::dec(w as nat)[i - d.len() - 3]);
        }
    }
}

/// What the headers say reaches the figures that they are about: limits, what is left, the time of
/// the resets, the sizes of the windows and when to come back.
pub proof fn law_headers_carry_the_figures(h: HeaderMap, a: u64, b: u64, x: u64, y: u64)
    ensures
        ({
            let pair = text::dec(a as nat) + ", "@ + text::dec(b as nat);
            let policy = written_item(a, x) + ", "@ + written_item(b, y);
            let both = Windows { second: Some(a), month: Some(b) };
            let none = Windows { second: None, month: None };
            let limit = header::header_text(h, "x-ratelimit-limit"@);
            let remaining = header::header_text(h, "x-ratelimit-remaining"@);
            let reset = header::header_text(h, "x-ratelimit-reset"@);
            let sizes = header::header_text(h, "x-ratelimit-policy"@);
            let retry = header::header_text(h, "retry-after"@);
            &&& info_of(h) is None <==> limit is None && remaining is None && reset is None
                && sizes is None
            &&& info_of(h) matches Some(info) ==> {
                &&& limit == Some(pair) ==> info.limit == both
                &&& limit is None ==> info.limit == none
                &&& remaining == Some(pair) ==> info.remaining == both
                &&& remaining is None ==> info.remaining == none
                &&& reset == Some(pair) ==> info.reset == both
                &&& reset is None ==> info.reset == none
                &&& sizes == Some(policy) ==> info.window == (Windows {
                    second: Some(x),
                    month: Some(y),
                })
                &&& sizes is None ==> info.window == none
                &&& retry == Some(text::dec(a as nat)) ==> info.retry_after == Some(a)
                &&& retry is None ==> info.retry_after is None
            }
            &&& retry == Some(text::dec(a as nat)) ==> retry_after_of(h) == Some(a)
        }),
{
    let none = Seq::<char>::empty();
    law_written_windows_are_read(a, b, x, y, none, none, none, none);
    lemma_number(none, a, none);
    let d = text::dec(a as nat);
    assert(none + d + none =~= d);
    text::law_numbers_read_back(a as nat);
}

/// A response is told by its rate-limit headers, whatever its status. Without any of them, only a
/// 429 that says when to come back tells something, namely that.
pub proof fn law_bare_limits_say_when_to_come_back(status: u16, h: HeaderMap)
    ensures
        info_of(h) is Some ==> limits_told(status, h) == info_of(h),
        info_of(h) is None && status != 429 ==> limits_told(status, h) is None,
        info_of(h) is None && retry_after_of(h) is None ==> limits_told(status, h) is None,
        info_of(h) is None && status == 429 && retry_after_of(h) is Some ==> (limits_told(
            status,
            h,
        ) matches Some(info) && info.retry_after == retry_after_of(h) && info.limit.second is None
            && info.limit.month is None && info.remaining.second is None && info.remaining.month
            is None && info.reset.second is None && info.reset.month is None && info.window.second
            is None && info.window.month is None),
{
}

/// A month is used up if nothing is left of it, unless the same response says that there is no
/// monthly cap.
pub proof fn law_used_up_months(info: RateLimitInfo)
    ensures
        info.exhausted() <==> info.remaining.month == Some(0u64) && info.limit.month != Some(0u64),
{
}

/// After a 429 a key waits for as long as is asked, by the reset or by `Retry-After`, whichever is
/// longer, but at least for a second and at most for a minute.
pub proof fn law_waits_are_what_is_asked(info: RateLimitInfo)
    ensures
        ({
            let w = info.wait_secs();
            &&& 1 <= w <= 60
            &&& info.reset.second matches Some(s) ==> w >= s || w == 60
            &&& info.retry_after matches Some(s) ==> w >= s || w == 60
            &&& w > 1 ==> (info.reset.second matches Some(s) && s >= w) || (
            info.retry_after matches Some(s) && s >= w)
        }),
{
}

/// A monthly reset is as many seconds away as the response says.
pub proof fn law_resets_are_in_seconds(info: RateLimitInfo)
    ensures
        info.reset.month is None ==> info.resets_in() is None,
        info.reset.month matches Some(s) ==> (info.resets_in() matches Some(d) && d.nanos == s
            * 1_000_000_000),
{
}

/// Only the first two items of a list count, and of the window sizes in an item the first.
pub proof fn law_further_items_are_ignored(
    a: Seq<char>,
    b: Seq<char>,
    rest: Seq<char>,
    f: spec_fn(Seq<char>) -> Option<u64>,
    n: u64,
    x: u64,
    y: u64,
)
    requires
        !a.contains(','),
        !b.contains(','),
    ensures
        windows_of(a.push(',') + (b.push(',') + rest), f) == (Windows {
            second: f(a),
            month: f(b),
        }),
        item_window(written_item(n, x) + ";w="@ + text::dec(y as nat)) == Some(x),
{
    let tail = b.push(',') + rest;
    let v = a.push(',') + tail;
    lemma_first_piece(a, ',', tail);
    lemma_first_piece(b, ',', rest);
    assert(text::pieces(v, ',')[1] == text::pieces(tail, ',')[0]);
    // The window sizes.
    let none = Seq::<char>::empty();
    let d = text::dec(n as nat);
    let e = text::dec(x as nat);
    let param = "w="@ + e;
    reveal_strlit(";w=");
    reveal_strlit("w=");
    text::lemma_dec_digits(n as nat);
    text::lemma_dec_digits(x as nat);
    text::law_numbers_read_back(x as nat);
    let last = "w="@ + text::dec(y as nat);
    let item = written_item(n, x) + ";w="@ + text::dec(y as nat);
    assert(item =~= d.push(';') + (param.push(';') + last));
    assert forall|i: int| 0 <= i < param.len() implies param[i] != ';' by {
        if i >= 2 {
            assert(param[i] == e[i - 2]);
        }
    }
    lemma_first_piece(d, ';', param.push(';') + last);
    lemma_first_piece(param, ';', last);
    let params = text::pieces(item, ';');
    assert(params[1] == text::pieces(param.push(';') + last, ';')[0]);
    assert(none + d + none =~= d);
    text::lemma_trimmed(none, d, none);
    assert(!is_window_param(params[0])) by {
        if "w="@.is_prefix_of(d) {
            assert(d.subrange(0, 2)[0] == 'w');
            assert(d[0] == 'w');
        }
    }
    assert(param.last() == e.last());
    assert(none + param + none =~= param);
    text::lemma_trimmed(none, param, none);
    assert(is_window_param(params[1])) by {
        assert(param.subrange(0, 2) =~= "w="@);
    }
    assert(param.skip(2) =~= e);
    text::lemma_trimmed(none, e, none);
    assert(none + e + none =~= e);
    reveal_with_fuel(window_param, 3);
}

proof fn lemma_first_piece(a: Seq<char>, c: char, rest: Seq<char>)
    requires
        !a.contains(c),
    ensures
        text::pieces(a.push(c) + rest, c) == seq![a] + text::pieces(rest, c),
        text::pieces(rest, c).len() >= 1,
{
    let s = a.push(c) + rest;
    assert(s[a.len() as int] == c);
    text::lemma_find(s, c);
    let f = text::find(s, c) as int;
    if f < a.len() {
        assert(a[f] == s[f]);
        assert(a.contains(a[f]));
    }
    assert(f == a.len());
    assert(text::before(s, c) =~= a);
    assert(text::after(s, c) =~= rest);
    text::law_pieces_make_up_the_text(rest, c);
}

} // verus!
