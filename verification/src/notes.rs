//! Log lines: what happens to a key, and what becomes of a request.

use vstd::prelude::*;

use crate::clock::{self, Clock, Instant};
use crate::key::{self, opt_text, Health, HealthView, KeyState, KeyView};
use crate::key_laws;
use crate::outcome::{digested, OutcomeView, Verdict};
use crate::pool::Pool;
use crate::proxy;
use crate::ratelimit::RateLimitInfo;
use crate::reply::ErrorReply;
use crate::report::{number_or_mark, number_text, text_or};
use crate::text::{self, dec};

verus! {

/// How important a line is.
#[derive(Debug, Clone, Copy, PartialEq, Eq, Structural)]
pub enum Level {
    Debug,
    Info,
    Warn,
}

/// A line for the log.
#[derive(Debug)]
pub struct Note {
    pub level: Level,
    pub text: String,
}

/// The model of `Note`.
pub struct NoteView {
    pub level: Level,
    pub text: Seq<char>,
}

impl View for Note {
    type V = NoteView;

    open spec fn view(&self) -> NoteView {
        NoteView { level: self.level, text: self.text@ }
    }
}

/// The models of lines.
pub open spec fn note_views(v: Seq<Note>) -> Seq<NoteView> {
    v.map_values(|n: Note| n@)
}

/// What is remembered of a key before something happens to it.
pub struct KeyMark {
    pub health: Health,
    pub limits_learned: bool,
    pub month_remaining: Option<u64>,
    pub ok: u64,
    pub strikes: u32,
    pub failures: u32,
}

/// The model of `KeyMark`.
pub struct KeyMarkView {
    pub health: HealthView,
    pub limits_learned: bool,
    pub month_remaining: Option<u64>,
    pub ok: u64,
    pub strikes: u32,
    pub failures: u32,
}

impl View for KeyMark {
    type V = KeyMarkView;

    open spec fn view(&self) -> KeyMarkView {
        KeyMarkView {
            health: self.health@,
            limits_learned: self.limits_learned,
            month_remaining: self.month_remaining,
            ok: self.ok,
            strikes: self.strikes,
            failures: self.failures,
        }
    }
}

/// What is remembered of a key.
pub open spec fn mark_of(k: KeyView) -> KeyMarkView {
    KeyMarkView {
        health: k.health,
        limits_learned: k.limits_learned,
        month_remaining: k.month_remaining,
        ok: k.stats.ok,
        strikes: k.disable_strikes,
        failures: k.consecutive_failures,
    }
}

impl KeyMark {
    /// What is remembered of a key.
    pub fn of(k: &KeyState) -> (r: Self)
        ensures
            r@ == mark_of(k@),
    {
        KeyMark {
            health: match &k.health {
                Health::Healthy => Health::Healthy,
                Health::Disabled { until, reason } => Health::Disabled {
                    until: *until,
                    reason: reason.clone(),
                },
                Health::Exhausted { until } => Health::Exhausted { until: *until },
            },
            limits_learned: k.limits_learned,
            month_remaining: k.month_remaining,
            ok: k.stats.ok,
            strikes: k.disable_strikes,
            failures: k.consecutive_failures,
        }
    }

    /// What is remembered of the keys of a pool.
    pub fn all(pool: &Pool) -> (r: Vec<Self>)
        ensures
            r@.len() == pool.keys().len(),
            forall|i: int| 0 <= i < r@.len() ==> (#[trigger] r@[i])@ == mark_of(pool.keys()[i]),
    {
        let mut out: Vec<KeyMark> = Vec::new();
        let mut i: usize = 0;
        while i < pool.inner.len()
            invariant
                i <= pool.inner@.len(),
                out@.len() == i,
                forall|j: int|
                    0 <= j < out@.len() ==> (#[trigger] out@[j])@ == mark_of(pool.keys()[j]),
            decreases pool.inner@.len() - i,
        {
            out.push(KeyMark::of(&pool.inner[i]));
            i += 1;
        }
        out
    }
}

/// How a line about a key begins.
pub open spec fn lead(label: Seq<char>) -> Seq<char> {
    "key "@ + label + ": "@
}

fn begin(label: &str) -> (r: String)
    ensures
        r@ == lead(label@),
{
    let mut out = String::new();
    out.append("key ");
    out.append(label);
    out.append(": ");
    assert(out@ =~= lead(label@));
    out
}

/// The plan of a key, once it is known.
pub open spec fn learned_text(k: KeyView, rl: RateLimitInfo, remaining: Option<u64>) -> Seq<char> {
    lead(k.label) + "plan limits learned: "@ + dec(k.sec_limit as nat) + if k.unlimited() {
        " req/s, no monthly cap"@
    } else {
        " req/s, "@ + number_text(k.month_limit) + " req/month, "@ + number_text(remaining)
            + " remaining, month resets in "@ + text_or(
            clock::opt_dur_text(rl.resets_in()),
            "?"@,
        )
    }
}

/// The plan of a key, once it is known.
pub fn learned_line(k: &KeyState, rl: &RateLimitInfo, remaining: Option<u64>) -> (r: String)
    ensures
        r@ == learned_text(k@, *rl, remaining),
{
    let mut out = begin(k.label.as_str());
    out.append("plan limits learned: ");
    out.append(text::decimal(k.sec_limit as u128).as_str());
    if k.month_unlimited() {
        out.append(" req/s, no monthly cap");
    } else {
        out.append(" req/s, ");
        out.append(number_or_mark(k.month_limit).as_str());
        out.append(" req/month, ");
        out.append(number_or_mark(remaining).as_str());
        out.append(" remaining, month resets in ");
        match rl.month_reset() {
            Some(d) => out.append(clock::fmt_dur(d).as_str()),
            None => out.append("?"),
        }
    }
    assert(out@ =~= learned_text(k@, *rl, remaining));
    out
}

/// A success that is worth a line.
pub open spec fn success_text(label: Seq<char>, what: Seq<char>, status: u16) -> Seq<char> {
    lead(label) + what + " (HTTP "@ + dec(status as nat) + ")"@
}

fn success_line(label: &str, what: &str, status: u16) -> (r: String)
    ensures
        r@ == success_text(label@, what@, status),
{
    let mut out = begin(label);
    out.append(what);
    out.append(" (HTTP ");
    out.append(text::decimal(status as u128).as_str());
    out.append(")");
    assert(out@ =~= success_text(label@, what@, status));
    out
}

/// A key that has been disabled.
pub open spec fn disabled_text(
    k: KeyView,
    until: Instant,
    reason: Seq<char>,
    clock: Clock,
) -> Seq<char> {
    lead(k.label) + "DISABLED for "@ + clock::dur_text(until.since(clock.now)) + " (strike "@
        + dec(k.disable_strikes as nat) + ") - "@ + reason + "; will probe again at "@
        + clock::instant_text(until, clock)
}

/// A key that has been parked.
pub open spec fn exhausted_text(k: KeyView, until: Instant, clock: Clock) -> Seq<char> {
    lead(k.label) + "monthly quota EXHAUSTED ("@ + match k.month_limit {
        Some(v) => key::quota_text(v),
        None => "?"@,
    } + " req/month); parked until "@ + clock::instant_text(until, clock) + " (in "@
        + clock::dur_text(until.since(clock.now)) + ")"@
}

/// A key that has failed, but not often enough to be disabled.
pub open spec fn failing_text(k: KeyView) -> Seq<char> {
    lead(k.label) + if k.stats.last_status is None {
        "transport error: "@
    } else {
        ""@
    } + text_or(k.stats.last_error, "-"@) + " ("@ + dec(k.consecutive_failures as nat) + "/"@
        + dec(key::FAIL_THRESHOLD as nat) + " before disabling)"@
}

/// A key that is left alone for a while.
pub open spec fn holding_text(k: KeyView, rl: RateLimitInfo) -> Seq<char> {
    lead(k.label) + "upstream per-second limit hit, holding "@ + clock::dur_text(
        clock::Duration::of_secs(rl.wait_secs()),
    )
}

fn disabled_line(k: &KeyState, until: Instant, reason: &String, clock: &Clock) -> (r: String)
    ensures
        r@ == disabled_text(k@, until, reason@, *clock),
{
    let mut out = begin(k.label.as_str());
    out.append("DISABLED for ");
    out.append(clock::fmt_dur(until.saturating_duration_since(clock.now)).as_str());
    out.append(" (strike ");
    out.append(text::decimal(k.disable_strikes as u128).as_str());
    out.append(") - ");
    out.append(reason.as_str());
    out.append("; will probe again at ");
    out.append(clock::fmt_instant(until, clock).as_str());
    assert(out@ =~= disabled_text(k@, until, reason@, *clock));
    out
}

fn exhausted_line(k: &KeyState, until: Instant, clock: &Clock) -> (r: String)
    ensures
        r@ == exhausted_text(k@, until, *clock),
{
    let mut out = begin(k.label.as_str());
    out.append("monthly quota EXHAUSTED (");
    match k.month_limit {
        Some(v) => out.append(key::fmt_quota(v).as_str()),
        None => out.append("?"),
    }
    out.append(" req/month); parked until ");
    out.append(clock::fmt_instant(until, clock).as_str());
    out.append(" (in ");
    out.append(clock::fmt_dur(until.saturating_duration_since(clock.now)).as_str());
    out.append(")");
    assert(out@ =~= exhausted_text(k@, until, *clock));
    out
}

fn failing_line(k: &KeyState) -> (r: String)
    ensures
        r@ == failing_text(k@),
{
    let mut out = begin(k.label.as_str());
    out.append(
        if k.stats.last_status.is_none() {
            "transport error: "
        } else {
            ""
        },
    );
    match &k.stats.last_error {
        Some(e) => out.append(e.as_str()),
        None => out.append("-"),
    }
    out.append(" (");
    out.append(text::decimal(k.consecutive_failures as u128).as_str());
    out.append("/");
    out.append(text::decimal(key::FAIL_THRESHOLD as u128).as_str());
    out.append(" before disabling)");
    assert(out@ =~= failing_text(k@));
    out
}

fn holding_line(k: &KeyState, rl: &RateLimitInfo) -> (r: String)
    ensures
        r@ == holding_text(k@, *rl),
{
    let mut out = begin(k.label.as_str());
    out.append("upstream per-second limit hit, holding ");
    out.append(clock::fmt_dur(rl.second_wait()).as_str());
    assert(out@ =~= holding_text(k@, *rl));
    out
}

/// What is said when the plan of a key has become known.
pub open spec fn learned_notes(
    b: KeyMarkView,
    k: KeyView,
    rl: Option<RateLimitInfo>,
) -> Seq<NoteView> {
    match rl {
        Some(r) if !b.limits_learned && k.limits_learned => seq![
            NoteView {
                level: Level::Info,
                text: learned_text(
                    k,
                    r,
                    match r.remaining.month {
                        Some(m) => Some(m),
                        None => b.month_remaining,
                    },
                ),
            },
        ],
        _ => Seq::empty(),
    }
}

/// What is said about a success: the first one, and one that ends a series of strikes.
pub open spec fn success_notes(b: KeyMarkView, k: KeyView, status: u16) -> Seq<NoteView> {
    let first = if k.stats.ok > b.ok && k.stats.ok == 1 {
        seq![
            NoteView {
                level: Level::Info,
                text: success_text(k.label, "first successful request"@, status),
            },
        ]
    } else {
        Seq::empty()
    };
    if k.stats.ok > b.ok && b.strikes > 0 {
        first.push(
            NoteView { level: Level::Info, text: success_text(k.label, "recovered"@, status) },
        )
    } else {
        first
    }
}

/// What is said about a key that has got into trouble: it is disabled, parked, failing or held.
pub open spec fn trouble_notes(
    b: KeyMarkView,
    k: KeyView,
    rl: Option<RateLimitInfo>,
    clock: Clock,
) -> Seq<NoteView> {
    if k.health is Disabled && k.disable_strikes > b.strikes {
        seq![
            NoteView {
                level: Level::Warn,
                text: disabled_text(
                    k,
                    k.health->Disabled_until,
                    k.health->Disabled_reason,
                    clock,
                ),
            },
        ]
    } else if k.health is Exhausted && !(b.health is Exhausted) {
        seq![
            NoteView {
                level: Level::Warn,
                text: exhausted_text(k, k.health->Exhausted_until, clock),
            },
        ]
    } else if k.consecutive_failures > b.failures {
        seq![NoteView { level: Level::Warn, text: failing_text(k) }]
    } else {
        match rl {
            Some(r) if k.stats.last_status == Some(429u16) && !k.month_spent(r) => seq![
                NoteView { level: Level::Debug, text: holding_text(k, r) },
            ],
            _ => Seq::empty(),
        }
    }
}

/// What is said about an outcome that has turned a key from `b` into `k`.
pub open spec fn outcome_notes_of(
    b: KeyMarkView,
    k: KeyView,
    rl: Option<RateLimitInfo>,
    clock: Clock,
) -> Seq<NoteView> {
    let status = match k.stats.last_status {
        Some(s) => s,
        None => 0,
    };
    learned_notes(b, k, rl) + success_notes(b, k, status) + trouble_notes(b, k, rl, clock)
}

/// What to say about an outcome that carried the rate limits `rl` and has changed the key since
/// the mark was taken.
pub fn outcome_notes(b: &KeyMark, k: &KeyState, rl: &Option<RateLimitInfo>, clock: &Clock) -> (r:
    Vec<Note>)
    ensures
        note_views(r@) == outcome_notes_of(b@, k@, *rl, *clock),
{
    let mut out: Vec<Note> = Vec::new();
    if let Some(info) = rl {
        if !b.limits_learned && k.limits_learned {
            let remaining = match info.remaining.month {
                Some(m) => Some(m),
                None => b.month_remaining,
            };
            out.push(Note { level: Level::Info, text: learned_line(k, info, remaining) });
        }
    }
    assert(note_views(out@) =~= learned_notes(b@, k@, *rl));
    let ghost learned = out@;
    let status: u16 = match k.stats.last_status {
        Some(s) => s,
        None => 0,
    };
    if k.stats.ok > b.ok {
        if k.stats.ok == 1 {
            let text = success_line(k.label.as_str(), "first successful request", status);
            out.push(Note { level: Level::Info, text });
        }
        if b.strikes > 0 {
            let text = success_line(k.label.as_str(), "recovered", status);
            out.push(Note { level: Level::Info, text });
        }
    }
    assert(note_views(out@) =~= note_views(learned) + success_notes(b@, k@, status));
    let ghost success = out@;
    if let Some(note) = trouble_note(b, k, rl, clock) {
        out.push(note);
        assert(note_views(out@) =~= note_views(success).push(note@));
    }
    assert(note_views(out@) =~= outcome_notes_of(b@, k@, *rl, *clock));
    out
}

fn trouble_note(b: &KeyMark, k: &KeyState, rl: &Option<RateLimitInfo>, clock: &Clock) -> (r: Option<
    Note,
>)
    ensures
        trouble_notes(b@, k@, *rl, *clock) == match r {
            Some(n) => seq![n@],
            None => Seq::empty(),
        },
{
    let was_exhausted = match &b.health {
        Health::Exhausted { .. } => true,
        _ => false,
    };
    match &k.health {
        Health::Disabled { until, reason } => {
            if k.disable_strikes > b.strikes {
                return Some(
                    Note { level: Level::Warn, text: disabled_line(k, *until, reason, clock) },
                );
            }
        },
        Health::Exhausted { until } => {
            if !was_exhausted {
                return Some(Note { level: Level::Warn, text: exhausted_line(k, *until, clock) });
            }
        },
        Health::Healthy => {},
    }
    if k.consecutive_failures > b.failures {
        return Some(Note { level: Level::Warn, text: failing_line(k) });
    }
    let limited = match k.stats.last_status {
        Some(s) => s == 429,
        None => false,
    };
    match rl {
        Some(r) => if limited && !k.says_month_spent(r) {
            Some(Note { level: Level::Debug, text: holding_line(k, r) })
        } else {
            None
        },
        None => None,
    }
}

/// What is said about a cooldown that is over.
pub open spec fn cooldown_notes_of(b: KeyMarkView, k: KeyView) -> Seq<NoteView> {
    match b.health {
        HealthView::Disabled { reason, .. } if k.health is Healthy => seq![
            NoteView {
                level: Level::Info,
                text: lead(k.label) + "cooldown over, probing again (was: "@ + reason + ")"@,
            },
        ],
        HealthView::Exhausted { .. } if k.health is Healthy => seq![
            NoteView {
                level: Level::Info,
                text: lead(k.label) + "monthly quota should have reset, probing again"@,
            },
        ],
        _ => Seq::empty(),
    }
}

fn cooldown_note(b: &KeyMark, k: &KeyState) -> (r: Option<Note>)
    ensures
        cooldown_notes_of(b@, k@) == match r {
            Some(n) => seq![n@],
            None => Seq::empty(),
        },
{
    if !k.is_healthy() {
        return None;
    }
    match &b.health {
        Health::Healthy => None,
        Health::Disabled { reason, .. } => {
            let mut out = begin(k.label.as_str());
            out.append("cooldown over, probing again (was: ");
            out.append(reason.as_str());
            out.append(")");
            Some(Note { level: Level::Info, text: out })
        },
        Health::Exhausted { .. } => {
            let mut out = begin(k.label.as_str());
            out.append("monthly quota should have reset, probing again");
            Some(Note { level: Level::Info, text: out })
        },
    }
}

/// What is said about the cooldowns of the first `n` keys that are over.
pub open spec fn all_cooldown_notes(
    before: Seq<KeyMark>,
    keys: Seq<KeyView>,
    n: nat,
) -> Seq<NoteView>
    decreases n,
{
    if n == 0 {
        Seq::empty()
    } else {
        all_cooldown_notes(before, keys, (n - 1) as nat) + cooldown_notes_of(
            before[n - 1]@,
            keys[n - 1],
        )
    }
}

/// What to say about the cooldowns that are over since the marks were taken.
pub fn cooldown_notes(before: &Vec<KeyMark>, pool: &Pool) -> (r: Vec<Note>)
    requires
        before@.len() == pool.keys().len(),
    ensures
        note_views(r@) == all_cooldown_notes(before@, pool.keys(), pool.keys().len()),
{
    let mut out: Vec<Note> = Vec::new();
    let mut i: usize = 0;
    assert(note_views(out@) =~= all_cooldown_notes(before@, pool.keys(), 0));
    while i < pool.inner.len()
        invariant
            i <= pool.inner@.len() == before@.len(),
            note_views(out@) == all_cooldown_notes(before@, pool.keys(), i as nat),
        decreases pool.inner@.len() - i,
    {
        let ghost done = out@;
        assert(pool.keys()[i as int] == pool.inner@[i as int]@);
        if let Some(note) = cooldown_note(&before[i], &pool.inner[i]) {
            out.push(note);
            assert(note_views(out@) =~= note_views(done) + seq![note@]);
        } else {
            assert(note_views(done) + Seq::<NoteView>::empty() =~= note_views(done));
        }
        i += 1;
    }
    out
}

/// How a line about a response begins.
pub open spec fn answered_text(
    req: Seq<char>,
    status: u16,
    label: Seq<char>,
    elapsed_ms: u128,
) -> Seq<char> {
    req + " -> "@ + dec(status as nat) + " via "@ + label + " in "@ + dec(elapsed_ms as nat)
        + "ms"@
}

/// What is said about a response.
pub open spec fn response_note_of(
    verdict: Verdict,
    access_log: bool,
    answered: Seq<char>,
    attempts: u32,
    excerpt: Option<Seq<char>>,
    hint: Seq<char>,
) -> NoteView {
    let said = text_or(excerpt, "(empty body)"@);
    match verdict {
        Verdict::Success => NoteView {
            level: if access_log {
                Level::Info
            } else {
                Level::Debug
            },
            text: if attempts > 1 {
                answered + " (attempt "@ + dec(attempts as nat) + ")"@
            } else {
                answered
            },
        },
        Verdict::ReturnToClient => NoteView {
            level: Level::Warn,
            text: answered + ": "@ + said + hint,
        },
        Verdict::RetryOtherKey => NoteView {
            level: Level::Warn,
            text: answered + ": "@ + said + "; trying another key"@,
        },
    }
}

fn answered_line(req: &str, status: u16, label: &str, elapsed_ms: u128) -> (r: String)
    ensures
        r@ == answered_text(req@, status, label@, elapsed_ms),
{
    let mut out = String::new();
    out.append(req);
    out.append(" -> ");
    out.append(text::decimal(status as u128).as_str());
    out.append(" via ");
    out.append(label);
    out.append(" in ");
    out.append(text::decimal(elapsed_ms).as_str());
    out.append("ms");
    assert(out@ =~= answered_text(req@, status, label@, elapsed_ms));
    out
}

/// A response as the log speaks of it.
pub struct Answered<'a> {
    /// The request, in words.
    pub req: &'a str,
    pub status: u16,
    /// The key it was sent with.
    pub label: &'a str,
    pub elapsed_ms: u128,
    /// How many times the request was sent so far.
    pub attempts: u32,
    /// The beginning of the body of an error.
    pub excerpt: &'a Option<String>,
    /// The path of the request.
    pub path: &'a str,
}

/// What to say about a response.
pub fn response_note(verdict: Verdict, access_log: bool, a: &Answered<'_>) -> (r: Note)
    ensures
        r@ == response_note_of(
            verdict,
            access_log,
            answered_text(a.req@, a.status, a.label@, a.elapsed_ms),
            a.attempts,
            opt_text(*a.excerpt),
            proxy::hint_text(a.status, a.path@),
        ),
{
    let mut out = answered_line(a.req, a.status, a.label, a.elapsed_ms);
    let ghost answered = out@;
    let said = match a.excerpt {
        Some(s) => s.as_str(),
        None => "(empty body)",
    };
    match verdict {
        Verdict::Success => {
            if a.attempts > 1 {
                out.append(" (attempt ");
                out.append(text::decimal(a.attempts as u128).as_str());
                out.append(")");
            }
            Note {
                level: if access_log {
                    Level::Info
                } else {
                    Level::Debug
                },
                text: out,
            }
        },
        Verdict::ReturnToClient => {
            out.append(": ");
            out.append(said);
            out.append(proxy::hint_for(a.status, a.path));
            Note { level: Level::Warn, text: out }
        },
        Verdict::RetryOtherKey => {
            out.append(": ");
            out.append(said);
            out.append("; trying another key");
            Note { level: Level::Warn, text: out }
        },
    }
}

/// What to say about a request that brought no response.
pub fn failure_note(req: &str, label: &str, error: &str) -> (r: Note)
    ensures
        r.level == Level::Info,
        r.text@ == req@ + " via "@ + label@ + " failed: "@ + error@ + "; trying another key"@,
{
    let mut out = String::new();
    out.append(req);
    out.append(" via ");
    out.append(label);
    out.append(" failed: ");
    out.append(error);
    out.append("; trying another key");
    assert(out@ =~= req@ + " via "@ + label@ + " failed: "@ + error@ + "; trying another key"@);
    Note { level: Level::Info, text: out }
}

/// What to say about a request that got no key.
pub fn refusal_note(req: &str, reply: &ErrorReply) -> (r: Note)
    ensures
        r.level == Level::Warn,
        r.text@ == match reply.retry_after_ms {
            Some(ms) if reply.status == 429 => req@ + ": all keys busy for another "@ + dec(
                ms as nat,
            ) + "ms (> MAX_QUEUE_WAIT_MS); rejecting with 429"@,
            _ => req@ + ": no usable key ("@ + reply.detail@ + ")"@,
        },
{
    let mut out = String::new();
    out.append(req);
    match reply.retry_after_ms {
        Some(ms) if reply.status == 429 => {
            out.append(": all keys busy for another ");
            out.append(text::decimal(ms).as_str());
            out.append("ms (> MAX_QUEUE_WAIT_MS); rejecting with 429");
            assert(out@ =~= req@ + ": all keys busy for another "@ + dec(ms as nat)
                + "ms (> MAX_QUEUE_WAIT_MS); rejecting with 429"@);
        },
        _ => {
            out.append(": no usable key (");
            out.append(reply.detail.as_str());
            out.append(")");
            assert(out@ =~= req@ + ": no usable key ("@ + reply.detail@ + ")"@);
        },
    }
    Note { level: Level::Warn, text: out }
}

/// What to say about a request that is answered with a response that another key could not better.
pub fn giving_up_note(req: &str, attempts: u32, status: u16, label: &str) -> (r: Note)
    ensures
        r.level == Level::Warn,
        r.text@ == req@ + ": giving up after "@ + dec(attempts as nat)
            + " attempts, returning upstream "@ + dec(status as nat) + " from "@ + label@,
{
    let mut out = String::new();
    out.append(req);
    out.append(": giving up after ");
    out.append(text::decimal(attempts as u128).as_str());
    out.append(" attempts, returning upstream ");
    out.append(text::decimal(status as u128).as_str());
    out.append(" from ");
    out.append(label);
    assert(out@ =~= req@ + ": giving up after "@ + dec(attempts as nat)
        + " attempts, returning upstream "@ + dec(status as nat) + " from "@ + label@);
    Note { level: Level::Warn, text: out }
}

/// What to say about a request that never brought a response.
pub fn unreachable_note(req: &str, detail: &str) -> (r: Note)
    ensures
        r.level == Level::Warn,
        r.text@ == req@ + ": upstream unreachable: "@ + detail@,
{
    let mut out = String::new();
    out.append(req);
    out.append(": upstream unreachable: ");
    out.append(detail);
    assert(out@ =~= req@ + ": upstream unreachable: "@ + detail@);
    Note { level: Level::Warn, text: out }
}

/// Whatever puts a key out of use is announced with a warning: that it is disabled, for how long,
/// at which strike, why and until when, or that its month is used up and until when. That a key
/// has failed is a warning too, with how often it has and how often it may.
pub proof fn law_trouble_is_announced(b: KeyView, now: Instant, o: OutcomeView, clock: Clock)
    requires
        b.wf(),
        b.disable_strikes < u32::MAX,
    ensures
        ({
            let k = digested(b, now, o);
            let rl = match o {
                OutcomeView::Response { rl, .. } => rl,
                OutcomeView::Transport(_) => None,
            };
            let said = trouble_notes(mark_of(b), k, rl, clock);
            let named = "key "@ + k.label + ": "@;
            let rejected = o matches OutcomeView::Response { status, .. } && (status == 401
                || status == 403);
            let failed = match o {
                OutcomeView::Response { status, .. } => 500 <= status <= 599,
                OutcomeView::Transport(_) => true,
            };
            &&& rejected || failed && b.consecutive_failures == 2 ==> (
            k.health matches HealthView::Disabled { until, reason } && said == seq![
                NoteView {
                    level: Level::Warn,
                    text: named + "DISABLED for "@ + clock::dur_text(until.since(clock.now))
                        + " (strike "@ + dec((b.disable_strikes + 1) as nat) + ") - "@ + reason
                        + "; will probe again at "@ + clock::instant_text(until, clock),
                },
            ])
            &&& failed && b.consecutive_failures < 2 && !(b.health is Exhausted) ==> (
            k.stats.last_error matches Some(why) && said == seq![
                NoteView {
                    level: Level::Warn,
                    text: named + if o is Transport {
                        "transport error: "@
                    } else {
                        ""@
                    } + why + " ("@ + dec((b.consecutive_failures + 1) as nat) + "/"@ + dec(3)
                        + " before disabling)"@,
                },
            ])
            &&& k.health matches HealthView::Exhausted { until } ==> (b.health is Healthy
                ==> said == seq![
                NoteView {
                    level: Level::Warn,
                    text: named + "monthly quota EXHAUSTED ("@ + match k.month_limit {
                        Some(v) => key::quota_text(v),
                        None => "?"@,
                    } + " req/month); parked until "@ + clock::instant_text(until, clock)
                        + " (in "@ + clock::dur_text(until.since(clock.now)) + ")"@,
                },
            ])
        }),
{
    let k = digested(b, now, o);
    key_laws::law_outcomes_keep_the_rest(b, now, o);
}

/// A response that is no trouble to the key is not announced as any, and a 429 that merely holds
/// the key is no warning.
pub proof fn law_no_trouble_is_no_warning(
    b: KeyView,
    now: Instant,
    status: u16,
    rl: Option<RateLimitInfo>,
    body_snippet: Option<Seq<char>>,
    clock: Clock,
)
    requires
        b.wf(),
        b.health is Healthy,
        b.stats.ok < u64::MAX,
        b.consecutive_429 < u32::MAX,
        status != 401,
        status != 403,
        !(500 <= status <= 599),
    ensures
        ({
            let k = digested(b, now, OutcomeView::Response { status, rl, body_snippet });
            let said = trouble_notes(mark_of(b), k, rl, clock);
            &&& k.health is Healthy && status != 429 ==> said.len() == 0
            &&& k.health is Healthy && status == 429 ==> match rl {
                None => said.len() == 0,
                Some(r) => said == seq![
                    NoteView {
                        level: Level::Debug,
                        text: "key "@ + k.label
                            + ": "@ + "upstream per-second limit hit, holding "@ + clock::dur_text(
                            clock::Duration::of_secs(r.wait_secs()),
                        ),
                    },
                ],
            }
        }),
{
}

/// The first success of a key is announced, and one that ends a series of strikes; no other is.
pub proof fn law_recoveries_are_announced(
    b: KeyView,
    now: Instant,
    status: u16,
    rl: Option<RateLimitInfo>,
    body_snippet: Option<Seq<char>>,
)
    requires
        b.stats.ok < u64::MAX,
    ensures
        ({
            let k = digested(b, now, OutcomeView::Response { status, rl, body_snippet });
            let said = success_notes(mark_of(b), k, status);
            let code = " (HTTP "@ + dec(status as nat) + ")"@;
            let first = NoteView {
                level: Level::Info,
                text: "key "@ + k.label + ": "@ + "first successful request"@ + code,
            };
            let again = NoteView {
                level: Level::Info,
                text: "key "@ + k.label + ": "@ + "recovered"@ + code,
            };
            let succeeded = 200 <= status <= 299;
            &&& !succeeded ==> said.len() == 0
            &&& succeeded && b.stats.ok == 0 && b.disable_strikes == 0 ==> said == seq![first]
            &&& succeeded && b.stats.ok == 0 && b.disable_strikes > 0 ==> said == seq![
                first,
                again,
            ]
            &&& succeeded && b.stats.ok > 0 && b.disable_strikes > 0 ==> said == seq![again]
            &&& succeeded && b.stats.ok > 0 && b.disable_strikes == 0 ==> said.len() == 0
        }),
{
    let k = digested(b, now, OutcomeView::Response { status, rl, body_snippet });
    let code = " (HTTP "@ + dec(status as nat) + ")"@;
    let named = "key "@ + k.label + ": "@;
    assert(success_text(k.label, "first successful request"@, status) =~= named
        + "first successful request"@ + code);
    assert(success_text(k.label, "recovered"@, status) =~= named + "recovered"@ + code);
}

/// The plan of a key is announced once, when it becomes known.
pub proof fn law_plans_are_announced_once(
    b: KeyView,
    now: Instant,
    status: u16,
    rl: RateLimitInfo,
    body_snippet: Option<Seq<char>>,
)
    ensures
        ({
            let k = digested(b, now, OutcomeView::Response { status, rl: Some(rl), body_snippet });
            let said = learned_notes(mark_of(b), k, Some(rl));
            let lead = "key "@ + k.label + ": plan limits learned: "@ + dec(k.sec_limit as nat);
            let tells = rl.limit.second is Some || rl.limit.month is Some;
            let left = match rl.remaining.month {
                Some(m) => Some(m),
                None => b.month_remaining,
            };
            let resets = match rl.reset.month {
                Some(s) => clock::dur_text(clock::Duration::of_secs(s as nat)),
                None => "?"@,
            };
            &&& b.limits_learned || !tells ==> said.len() == 0
            &&& !b.limits_learned && tells && k.unlimited() ==> said == seq![
                NoteView { level: Level::Info, text: lead + " req/s, no monthly cap"@ },
            ]
            &&& !b.limits_learned && tells && !k.unlimited() ==> said == seq![
                NoteView {
                    level: Level::Info,
                    text: lead + " req/s, "@ + number_text(k.month_limit) + " req/month, "@
                        + number_text(left) + " remaining, month resets in "@ + resets,
                },
            ]
        }),
{
    let k = digested(b, now, OutcomeView::Response { status, rl: Some(rl), body_snippet });
    key_laws::law_bursts_are_learned(b, now, status, rl, body_snippet);
    let lead = "key "@ + k.label + ": plan limits learned: "@ + dec(k.sec_limit as nat);
    let left = match rl.remaining.month {
        Some(m) => Some(m),
        None => b.month_remaining,
    };
    let resets = match rl.reset.month {
        Some(s) => clock::dur_text(clock::Duration::of_secs(s as nat)),
        None => "?"@,
    };
    reveal_strlit(": ");
    reveal_strlit("plan limits learned: ");
    reveal_strlit(": plan limits learned: ");
    assert(": plan limits learned: "@ =~= ": "@ + "plan limits learned: "@);
    assert(k.unlimited() ==> learned_text(k, rl, left) =~= lead + " req/s, no monthly cap"@);
    assert(!k.unlimited() ==> learned_text(k, rl, left) =~= lead + " req/s, "@ + number_text(
        k.month_limit,
    ) + " req/month, "@ + number_text(left) + " remaining, month resets in "@ + resets);
}

/// The end of a cooldown is announced, with what it was for, and nothing else is.
pub proof fn law_ends_of_cooldowns_are_announced(k: KeyView, now: Instant)
    ensures
        ({
            let said = cooldown_notes_of(mark_of(k), k.refreshed(now));
            let named = "key "@ + k.label + ": "@;
            match k.health {
                HealthView::Healthy => said.len() == 0,
                HealthView::Disabled { until, reason } => {
                    &&& until.nanos > now.nanos ==> said.len() == 0
                    &&& until.nanos <= now.nanos ==> said == seq![
                        NoteView {
                            level: Level::Info,
                            text: named + "cooldown over, probing again (was: "@ + reason + ")"@,
                        },
                    ]
                },
                HealthView::Exhausted { until } => {
                    &&& until.nanos > now.nanos ==> said.len() == 0
                    &&& until.nanos <= now.nanos ==> said == seq![
                        NoteView {
                            level: Level::Info,
                            text: named + "monthly quota should have reset, probing again"@,
                        },
                    ]
                },
            }
        }),
{
}

/// A line about a response tells the request, the status, the key and how long it took. A success
/// is worth a line only to those who want to see every request, and tells if it was not the first
/// attempt. Anything else is a warning with what the body says: with a hint if it is the answer,
/// and with what happens next if it is not.
pub proof fn law_responses_are_logged(
    access_log: bool,
    req: Seq<char>,
    status: u16,
    label: Seq<char>,
    elapsed_ms: u128,
    attempts: u32,
    body: Seq<char>,
    hint: Seq<char>,
)
    ensures
        ({
            let line = req + " -> "@ + dec(status as nat) + " via "@ + label + " in "@ + dec(
                elapsed_ms as nat,
            ) + "ms"@;
            let answered = answered_text(req, status, label, elapsed_ms);
            let ok = response_note_of(
                Verdict::Success,
                access_log,
                answered,
                attempts,
                Some(body),
                hint,
            );
            let returned = response_note_of(
                Verdict::ReturnToClient,
                access_log,
                answered,
                attempts,
                Some(body),
                hint,
            );
            let retried = response_note_of(
                Verdict::RetryOtherKey,
                access_log,
                answered,
                attempts,
                Some(body),
                hint,
            );
            &&& access_log ==> ok.level == Level::Info
            &&& !access_log ==> ok.level == Level::Debug
            &&& attempts <= 1 ==> ok.text == line
            &&& attempts > 1 ==> ok.text == line + " (attempt "@ + dec(attempts as nat) + ")"@
            &&& returned == (NoteView { level: Level::Warn, text: line + ": "@ + body + hint })
            &&& retried == (NoteView {
                level: Level::Warn,
                text: line + ": "@ + body + "; trying another key"@,
            })
            &&& response_note_of(
                Verdict::ReturnToClient,
                access_log,
                answered,
                attempts,
                None,
                hint,
            ).text == line + ": "@ + "(empty body)"@ + hint
            &&& response_note_of(
                Verdict::RetryOtherKey,
                access_log,
                answered,
                attempts,
                None,
                hint,
            ).text == line + ": "@ + "(empty body)"@ + "; trying another key"@
        }),
{
}

} // verus!
