//! One client request from its first attempt to its answer: which key to try next, what to make of
//! each outcome, and what to answer in the end.
//!
//! An exchange decides; its caller waits, sends, and hands back what came of it.

use vstd::prelude::*;
use vstd::utf8::encode_utf8;

use crate::clock::{Clock, Duration, Instant};
use crate::key::{opt_text, KeyView};
use crate::outcome::{self, Outcome, OutcomeView, Verdict};
use crate::pool::{self, attempted, AcquireError, Ask, Lease, Next, Pool, Step};
use crate::proxy;
use crate::ratelimit::{self, RateLimitInfo};
use crate::reply::ErrorReply;
use crate::text::{self, dec};
use crate::upstream::{UpstreamError, UpstreamResponse};

verus! {

/// A client request on its way through the pool.
pub struct Exchange {
    /// How long it may wait for a key.
    pub deadline: Instant,
    /// How many times it may be sent.
    pub max_attempts: u32,
    /// How many times it was sent.
    pub attempts: u32,
    /// The keys it was sent with.
    pub tried: Vec<usize>,
    /// The last response, and the label of the key it came by.
    pub last_response: Option<(UpstreamResponse, String)>,
    /// The last reason why there was no response.
    pub last_error: Option<String>,
    /// Whether the last response is the answer.
    pub settled: bool,
}

/// What to do next for a request.
pub enum Action {
    /// Send it with this key.
    Send(Lease),
    /// Wait until this instant and ask again.
    WaitUntil(Instant),
    /// Answer with this error.
    Refuse(ErrorReply),
}

/// The answer to a request.
pub enum Answer {
    /// A response of Brave, the label of the key it came by, and the number of attempts.
    Upstream { response: UpstreamResponse, label: String, attempts: u32 },
    /// An error of the proxy.
    Error(ErrorReply),
}

/// How many times a request may be sent by a pool of `keys` keys: once per key, at least twice and
/// at most five times.
pub open spec fn attempts_for(keys: nat) -> nat {
    if keys < 2 {
        2
    } else if keys > 5 {
        5
    } else {
        keys
    }
}

/// True if this is the answer to a client whose request could not be given a key.
pub open spec fn refuses(r: ErrorReply, e: AcquireError) -> bool {
    match e {
        AcquireError::Saturated { retry_after } => {
            let ms = retry_after.nanos / 1_000_000;
            &&& r.status == 429
            &&& r.error@ == "rotator_saturated"@
            &&& r.detail@ == "every key's per-second budget is spent; next slot in "@ + dec(
                ms as nat,
            ) + "ms"@
            &&& r.retry_after_ms == Some(ms)
        },
        AcquireError::Unavailable { retry_after, summary } => {
            &&& r.status == 503
            &&& r.error@ == "no_usable_key"@
            &&& r.detail@ == summary@
            &&& r.retry_after_ms == match retry_after {
                Some(d) => Some(d.nanos / 1_000_000),
                None => None,
            }
        },
    }
}

/// The answer to a client whose request could not be given a key.
pub fn refusal(e: AcquireError) -> (r: ErrorReply)
    ensures
        refuses(r, e),
{
    match e {
        AcquireError::Saturated { retry_after } => {
            let ms: u128 = retry_after.as_millis();
            let mut detail = String::new();
            detail.append("every key's per-second budget is spent; next slot in ");
            detail.append(text::decimal(ms).as_str());
            detail.append("ms");
            assert(detail@ =~= "every key's per-second budget is spent; next slot in "@ + dec(
                ms as nat,
            ) + "ms"@);
            ErrorReply { status: 429, error: "rotator_saturated", detail, retry_after_ms: Some(ms) }
        },
        AcquireError::Unavailable { retry_after, summary } => ErrorReply {
            status: 503,
            error: "no_usable_key",
            detail: summary,
            retry_after_ms: match retry_after {
                Some(d) => Some(d.as_millis()),
                None => None,
            },
        },
    }
}

/// The answer to a client without the shared secret.
pub fn unauthorized() -> (r: ErrorReply)
    ensures
        r.status == 401,
        r.error@ == "unauthorized"@,
        r.detail@ == "missing or wrong X-Proxy-Token"@,
        r.retry_after_ms is None,
{
    ErrorReply {
        status: 401,
        error: "unauthorized",
        detail: "missing or wrong X-Proxy-Token".to_string(),
        retry_after_ms: None,
    }
}

/// The answer to a client whose request could not be read, for the given reason.
pub fn body_too_large(why: String) -> (r: ErrorReply)
    ensures
        r.status == 413,
        r.error@ == "body_too_large"@,
        r.detail == why,
        r.retry_after_ms is None,
{
    ErrorReply { status: 413, error: "body_too_large", detail: why, retry_after_ms: None }
}

/// What a response says about the key it came by: its status, its rate limits, and the beginning
/// of its body unless it is a success.
pub open spec fn told_by(resp: UpstreamResponse) -> OutcomeView {
    OutcomeView::Response {
        status: resp.status,
        rl: ratelimit::limits_told(resp.status, resp.headers),
        body_snippet: if 200 <= resp.status <= 299 {
            None
        } else {
            Some(proxy::excerpt_of(text::readable(resp.body@)))
        },
    }
}

/// What a failure says about the key it came by.
pub open spec fn told_by_failure(e: UpstreamError) -> OutcomeView {
    OutcomeView::Transport(e.text())
}

/// True if the pool has learned what came of a request sent with the `idx`th key, and nothing
/// else has changed.
pub open spec fn learned(before: Pool, after: Pool, now: Instant, idx: usize, o: OutcomeView) -> bool {
    &&& after.cfg == before.cfg
    &&& after.keys() == if idx < before.keys().len() {
        before.keys().update(
            idx as int,
            outcome::digested(before.keys()[idx as int], now, o),
        )
    } else {
        before.keys()
    }
}

/// True if the pool has room to count an outcome of the `idx`th key.
pub open spec fn can_learn(p: Pool, idx: usize, o: OutcomeView) -> bool {
    idx < p.keys().len() ==> outcome::countable(p.keys()[idx as int], o)
}

/// True if a response is not the answer yet: another key might do better.
pub open spec fn retries(p: Pool, idx: usize, o: OutcomeView) -> bool {
    idx < p.keys().len() && outcome::verdict_of(o) is RetryOtherKey
}

/// The beginning of the body of a response that is not a success.
pub fn error_excerpt(resp: &UpstreamResponse) -> (r: Option<String>)
    ensures
        opt_text(r) == told_by(*resp)->body_snippet,
{
    if 200 <= resp.status && resp.status <= 299 {
        None
    } else {
        Some(proxy::snippet(resp.body.as_slice()))
    }
}

/// True if the pool has room to count what a response says about the `idx`th key.
pub fn has_response_room(p: &Pool, idx: usize, resp: &UpstreamResponse) -> (r: bool)
    ensures
        r == can_learn(*p, idx, told_by(*resp)),
{
    p.has_outcome_room(
        idx,
        &Outcome::Response { status: resp.status, rl: None, body_snippet: None },
    )
}

/// True if the pool has room to count a failure of the `idx`th key.
pub fn has_failure_room(p: &Pool, idx: usize, e: &UpstreamError) -> (r: bool)
    ensures
        r == can_learn(*p, idx, told_by_failure(*e)),
{
    p.has_outcome_room(idx, &Outcome::Transport(String::new()))
}

impl Exchange {
    /// What every step keeps.
    pub open spec fn wf(&self) -> bool {
        &&& 2 <= self.max_attempts <= 5
        &&& self.attempts <= self.max_attempts
        &&& self.tried@.len() == self.attempts
        &&& self.settled ==> self.last_response is Some
    }

    /// True if the request may be sent once more.
    pub open spec fn open(&self) -> bool {
        !self.settled && self.attempts < self.max_attempts
    }

    /// A request that reaches a pool of `keys` keys at `now`.
    pub fn new(keys: usize, now: Instant, max_queue_wait: Duration) -> (r: Self)
        requires
            now.nanos + max_queue_wait.nanos <= u128::MAX,
        ensures
            r.wf(),
            r.open(),
            r.deadline == now.after(max_queue_wait),
            r.max_attempts == attempts_for(keys as nat),
            r.attempts == 0,
            r.tried@ == Seq::<usize>::empty(),
            r.last_response is None,
            r.last_error is None,
            !r.settled,
    {
        Exchange {
            deadline: now.plus(max_queue_wait),
            max_attempts: if keys < 2 {
                2
            } else if keys > 5 {
                5
            } else {
                keys as u32
            },
            attempts: 0,
            tried: Vec::new(),
            last_response: None,
            last_error: None,
            settled: false,
        }
    }

    /// True if the request may be sent once more.
    pub fn may_try(&self) -> (r: bool)
        ensures
            r == self.open(),
    {
        !self.settled && self.attempts < self.max_attempts
    }

    /// Asks the pool for a key and decides what to do next. Keys that the request was already sent
    /// with come last.
    pub fn next(&mut self, pool: &mut Pool, now: Instant, clock: &Clock) -> (r: Action)
        requires
            old(self).wf(),
            old(self).open(),
            old(pool).wf(),
            old(pool).can_count_requests(),
            now.in_range(),
        ensures
            final(self).wf(),
            final(pool).wf(),
            final(pool).cfg == old(pool).cfg,
            exists|attempt: Result<Lease, Next>| #[trigger]
                attempted(
                    old(pool).keys(),
                    final(pool).keys(),
                    now,
                    old(pool).window_span(),
                    old(self).tried@,
                    *clock,
                    attempt,
                ) && old(self).follows(*final(self), attempt, now, r),
    {
        match pool.acquire(now, self.deadline, self.tried.as_slice(), clock) {
            Step::Granted(lease) => {
                self.attempts += 1;
                self.tried.push(lease.idx);
                Action::Send(lease)
            },
            Step::WaitUntil(at) => Action::WaitUntil(at),
            Step::Failed(e) => Action::Refuse(refusal(e)),
        }
    }

    /// True if this is what to do after an attempt to acquire a key, and what the attempt makes of
    /// the exchange.
    pub open spec fn follows(
        &self,
        after: Exchange,
        attempt: Result<Lease, Next>,
        now: Instant,
        r: Action,
    ) -> bool {
        &&& after.deadline == self.deadline
        &&& after.max_attempts == self.max_attempts
        &&& after.last_response == self.last_response
        &&& after.last_error == self.last_error
        &&& after.settled == self.settled
        &&& match pool::step_after(attempt, now, self.deadline) {
            Step::Granted(lease) => {
                &&& r == Action::Send(lease)
                &&& after.attempts == self.attempts + 1
                &&& after.tried@ == self.tried@.push(lease.idx)
            },
            Step::WaitUntil(at) => {
                &&& r == Action::WaitUntil(at)
                &&& after.attempts == self.attempts
                &&& after.tried@ == self.tried@
            },
            Step::Failed(e) => {
                &&& r matches Action::Refuse(reply) && refuses(reply, e)
                &&& after.attempts == self.attempts
                &&& after.tried@ == self.tried@
            },
        }
    }

    /// Takes in a response: tells the pool, and decides whether it is the answer.
    pub fn response(
        &mut self,
        pool: &mut Pool,
        now: Instant,
        lease: Lease,
        resp: UpstreamResponse,
    ) -> (r: Verdict)
        requires
            old(self).wf(),
            old(pool).wf(),
            now.in_range(),
            can_learn(*old(pool), lease.idx, told_by(resp)),
        ensures
            final(self).wf(),
            final(pool).wf(),
            learned(*old(pool), *final(pool), now, lease.idx, told_by(resp)),
            r == if lease.idx < old(pool).keys().len() {
                outcome::verdict_of(told_by(resp))
            } else {
                Verdict::ReturnToClient
            },
            *final(self) == (Exchange {
                last_response: Some((resp, lease.label)),
                settled: !retries(*old(pool), lease.idx, told_by(resp)),
                ..*old(self)
            }),
    {
        let rl = RateLimitInfo::from_response(resp.status, &resp.headers);
        let excerpt = error_excerpt(&resp);
        let verdict = pool.record(
            now,
            lease.idx,
            Outcome::Response {
                status: resp.status,
                rl,
                body_snippet: match &excerpt {
                    Some(s) => Some(s.as_str()),
                    None => None,
                },
            },
        );
        self.last_response = Some((resp, lease.label));
        self.settled = verdict != Verdict::RetryOtherKey;
        verdict
    }

    /// Takes in a failure: tells the pool, and leaves the request to another key.
    pub fn failure(&mut self, pool: &mut Pool, now: Instant, idx: usize, e: &UpstreamError)
        requires
            old(self).wf(),
            old(pool).wf(),
            now.in_range(),
            can_learn(*old(pool), idx, told_by_failure(*e)),
        ensures
            final(self).wf(),
            final(pool).wf(),
            learned(*old(pool), *final(pool), now, idx, told_by_failure(*e)),
            opt_text(final(self).last_error) == Some(e.text()),
            *final(self) == (Exchange { last_error: final(self).last_error, ..*old(self) }),
    {
        let message = e.message();
        let _ = pool.record(now, idx, Outcome::Transport(e.message()));
        self.last_error = Some(message);
    }

    /// True if this is the answer once nothing more is sent: the last response if there was one,
    /// else the last error.
    pub open spec fn concludes_with(&self, r: Answer) -> bool {
        match self.last_response {
            Some(last) => r == (Answer::Upstream {
                response: last.0,
                label: last.1,
                attempts: self.attempts,
            }),
            None => r matches Answer::Error(reply) && {
                &&& reply.status == 502
                &&& reply.error@ == "upstream_unreachable"@
                &&& reply.detail@ == match self.last_error {
                    Some(e) => e@,
                    None => "no attempt could be made"@,
                }
                &&& reply.retry_after_ms is None
            },
        }
    }

    /// The answer once nothing more is sent: the last response if there was one, else the last
    /// error.
    pub fn conclude(self) -> (r: Answer)
        ensures
            self.concludes_with(r),
    {
        match self.last_response {
            Some((response, label)) => Answer::Upstream { response, label, attempts: self.attempts },
            None => Answer::Error(
                ErrorReply {
                    status: 502,
                    error: "upstream_unreachable",
                    detail: match self.last_error {
                        Some(e) => e,
                        None => "no attempt could be made".to_string(),
                    },
                    retry_after_ms: None,
                },
            ),
        }
    }
}

/// A response is handed to another key exactly if it is a 401, a 403, a 429 or a server error;
/// every other one is the answer.
pub proof fn law_only_faults_of_the_key_are_retried(p: Pool, idx: usize, resp: UpstreamResponse)
    requires
        idx < p.keys().len(),
    ensures
        retries(p, idx, told_by(resp)) <==> (resp.status == 401 || resp.status == 403
            || resp.status == 429 || 500 <= resp.status <= 599),
{
}

/// A request is sent at most five times, once for each key that the pool hands out for it.
pub proof fn law_attempts_are_bounded(
    e: Exchange,
    after: Exchange,
    attempt: Result<Lease, Next>,
    now: Instant,
    r: Action,
)
    requires
        e.wf(),
        e.open(),
        e.follows(after, attempt, now, r),
    ensures
        after.attempts <= 5,
        after.attempts == e.attempts + 1 <==> attempt is Ok,
        attempt is Ok <==> r is Send,
{
}

/// A client is refused with 503 only while every key is disabled or exhausted, and with 429 only
/// while a key is healthy but none of those that could serve it is free before its deadline. It
/// is told how long that lasts.
pub proof fn law_refusals_are_justified(
    e: Exchange,
    after: Exchange,
    before: Seq<KeyView>,
    left: Seq<KeyView>,
    window: Duration,
    clock: Clock,
    now: Instant,
    attempt: Result<Lease, Next>,
    reply: ErrorReply,
)
    requires
        attempted(before, left, now, window, e.tried@, clock, attempt),
        e.follows(after, attempt, now, Action::Refuse(reply)),
    ensures
        ({
            let keys = pool::refreshed(before, now);
            let ask = pool::scope(keys, now, window, e.tried@);
            let n = keys.len() as int;
            &&& reply.status == 503 || reply.status == 429
            &&& reply.status == 503 <==> forall|i: int|
                0 <= i < n ==> !((#[trigger] keys[i]).health is Healthy)
            &&& reply.status == 429 ==> exists|at: Instant|
                {
                    &&& #[trigger] ask.is_next(keys, n, Some(at))
                    &&& at.nanos > e.deadline.nanos
                    &&& reply.retry_after_ms == Some(at.since(now).nanos / 1_000_000)
                }
        }),
{
    let keys = pool::refreshed(before, now);
    let ask = pool::scope(keys, now, window, e.tried@);
    let n = keys.len() as int;
    let narrow = Ask { now, window, exclude: e.tried@, wide: false };
    if ask.some_healthy(keys, n) {
        let i = choose|i: int| 0 <= i < n && #[trigger] ask.healthy(keys, i);
        assert(keys[i].health is Healthy);
    } else {
        assert forall|i: int| 0 <= i < n implies !((#[trigger] keys[i]).health is Healthy) by {
            assert(!ask.healthy(keys, i));
            assert(!narrow.healthy(keys, i));
        }
    }
}

/// A response that is the answer reaches the client with the key it came by, and one that is not
/// does so too if no later attempt brought another.
pub proof fn law_the_last_response_is_the_answer(
    e: Exchange,
    resp: UpstreamResponse,
    label: String,
    settled: bool,
    answer: Answer,
)
    requires
        (Exchange { last_response: Some((resp, label)), settled, ..e }).concludes_with(answer),
    ensures
        answer == (Answer::Upstream { response: resp, label, attempts: e.attempts }),
{
}

/// A request may be sent as many times as there are keys, but twice even by a single key, and never
/// more than five times.
pub proof fn law_more_keys_allow_more_attempts(keys: nat)
    ensures
        2 <= attempts_for(keys) <= 5,
        2 <= keys <= 5 ==> attempts_for(keys) == keys,
        keys < 2 ==> attempts_for(keys) == 2,
        keys > 5 ==> attempts_for(keys) == 5,
{
}

/// A refused client is told why and, as far as it is known, how long it should wait, in whole
/// milliseconds: 429 if all keys are merely busy, 503 and what is wrong with the keys if none can
/// be used.
pub proof fn law_refusals_say_how_long(r: ErrorReply, e: AcquireError, ms: nat)
    requires
        refuses(r, e),
    ensures
        match e {
            AcquireError::Saturated { retry_after } => {
                &&& r.status == 429
                &&& r.error@ == "rotator_saturated"@
                &&& ms * 1_000_000 <= retry_after.nanos < (ms + 1) * 1_000_000
                    ==> r.retry_after_ms == Some(ms as u128) && r.detail@
                    == "every key's per-second budget is spent; next slot in "@ + dec(ms) + "ms"@
            },
            AcquireError::Unavailable { retry_after, summary } => {
                &&& r.status == 503
                &&& r.error@ == "no_usable_key"@
                &&& r.detail@ == summary@
                &&& r.retry_after_ms is Some <==> retry_after is Some
                &&& retry_after matches Some(d) ==> (ms * 1_000_000 <= d.nanos < (ms + 1)
                    * 1_000_000 ==> r.retry_after_ms == Some(ms as u128))
            },
        },
{
    match e {
        AcquireError::Saturated { retry_after } => {
            if ms * 1_000_000 <= retry_after.nanos < (ms + 1) * 1_000_000 {
                assert(retry_after.nanos / 1_000_000 == ms);
            }
        },
        AcquireError::Unavailable { retry_after: Some(d), .. } => {
            if ms * 1_000_000 <= d.nanos < (ms + 1) * 1_000_000 {
                assert(d.nanos / 1_000_000 == ms);
            }
        },
        _ => {},
    }
}

/// What the pool is told of a response is its status, its rate limits and, unless it is a success,
/// an excerpt of its body. What it is told of a failure is the failure in words.
pub proof fn law_the_pool_is_told_everything(
    resp: UpstreamResponse,
    body: Seq<char>,
    e: UpstreamError,
)
    requires
        resp.body@ == encode_utf8(body),
    ensures
        told_by(resp) matches OutcomeView::Response { status, rl, body_snippet } && {
            &&& status == resp.status
            &&& rl == ratelimit::limits_told(resp.status, resp.headers)
            &&& 200 <= resp.status <= 299 ==> body_snippet is None
            &&& !(200 <= resp.status <= 299) ==> body_snippet == Some(proxy::excerpt_of(body))
        },
        told_by_failure(e) == OutcomeView::Transport(e.text()),
{
    text::law_utf8_is_readable(body);
}

/// Every lease is one attempt more, with a key that is then among those tried. Waiting and being
/// refused are no attempts, and none of the three forgets what came back before.
pub proof fn law_attempts_are_remembered(
    e: Exchange,
    after: Exchange,
    attempt: Result<Lease, Next>,
    now: Instant,
    r: Action,
)
    requires
        e.follows(after, attempt, now, r),
    ensures
        after.deadline == e.deadline,
        after.max_attempts == e.max_attempts,
        after.last_response == e.last_response,
        after.last_error == e.last_error,
        match attempt {
            Ok(lease) => {
                &&& r == Action::Send(lease)
                &&& after.attempts == e.attempts + 1
                &&& after.tried@.len() == e.tried@.len() + 1
                &&& after.tried@.last() == lease.idx
                &&& after.tried@.drop_last() == e.tried@
            },
            Err(Next::At(at)) => {
                &&& after.attempts == e.attempts
                &&& after.tried@ == e.tried@
                &&& at.nanos <= e.deadline.nanos ==> r == Action::WaitUntil(at)
                &&& at.nanos > e.deadline.nanos ==> (r matches Action::Refuse(reply)
                    && reply.status == 429)
            },
            Err(Next::Unavailable { .. }) => {
                &&& after.attempts == e.attempts
                &&& after.tried@ == e.tried@
                &&& r matches Action::Refuse(reply) && reply.status == 503
            },
        },
{
    if let Ok(lease) = attempt {
        assert(e.tried@.push(lease.idx).drop_last() =~= e.tried@);
    }
}

/// A client whose request brought no response at all is told so, with the last reason for it.
pub proof fn law_unanswered_requests_are_explained(e: Exchange, answer: Answer)
    requires
        e.last_response is None,
        e.concludes_with(answer),
    ensures
        answer matches Answer::Error(reply) && {
            &&& reply.status == 502
            &&& reply.error@ == "upstream_unreachable"@
            &&& reply.retry_after_ms is None
            &&& e.last_error matches Some(why) ==> reply.detail@ == why@
            &&& e.last_error is None ==> reply.detail@ == "no attempt could be made"@
        },
{
}

/// A request is sent again until a response is the answer or it has been sent as often as it may
/// be, and not once more.
pub proof fn law_requests_are_sent_until_settled(e: Exchange)
    requires
        e.wf(),
    ensures
        e.settled ==> !e.open(),
        e.attempts == e.max_attempts ==> !e.open(),
        !e.settled && e.attempts + 1 <= e.max_attempts ==> e.open(),
{
}

} // verus!
