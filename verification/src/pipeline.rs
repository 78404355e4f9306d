//! Pipeline decisions for both simulation modes.
//!
//! sampler → generator (streaming, transform, batching) → bounded channel →
//! N workers → transport (retries + backoff) + global rate limiter.
//!
//! Backpressure: the bounded channel (~2× worker occupancy) is the only
//! buffering; a slow transport or engaged limiter blocks the generator. Retry
//! uses exponential backoff with full jitter and honors `Retry-After`; auth
//! (401/403) retries once, then aborts the run. What is decided stands here;
//! tasks, channels, clocks and sockets are driven from outside.

use vstd::prelude::*;

use crate::clock::{
    answers, answers_when, clock_showed, in_range, local_offset_at, local_offset_when, utc_now,
    valid_offset, whole_seconds, LocalOffset, LocalReading, MAX_SECS, MIN_SECS, UtcTime,
};
use crate::config::{mode_label, mode_name, Config, SimMode, TimeWindow};
use crate::detectors::scan;
use crate::event::{detect_severity, name_view, severity_of, Event, RawEvent};
use crate::sampling::{advanced, mixed, Rng};
use crate::stats::{counted, Snapshot, Stats};
use crate::text::{chars_of, find_char, trim, trim_chars};
use crate::timestamp::{
    is_json_transformed, is_transformed, parse, transform, transform_json,
};
use crate::transport::BatchResult;

verus! {

broadcast use vstd::string::group_string_axioms;

// ---------------------------------------------------------------------------
// Backoff
// ---------------------------------------------------------------------------

/// The longest delay before the first retry, in milliseconds.
pub const BASE_BACKOFF_MS: u64 = 500;

/// The longest delay before any retry, in milliseconds.
pub const MAX_BACKOFF_MS: u64 = 30_000;

/// How often the delay can double.
pub const MAX_DOUBLINGS: u32 = 12;

/// The base delay doubled `k` times.
pub open spec fn doubled(k: int) -> int
    decreases k,
{
    if k <= 0 {
        BASE_BACKOFF_MS as int
    } else {
        2 * doubled(k - 1)
    }
}

/// How often the delay has doubled before the retry.
pub open spec fn doublings(attempt: int) -> int {
    if attempt <= 1 {
        0
    } else if attempt - 1 > MAX_DOUBLINGS {
        MAX_DOUBLINGS as int
    } else {
        attempt - 1
    }
}

/// The longest delay before the retry: it doubles with every retry, up to a
/// limit.
pub open spec fn backoff_ceiling(attempt: int) -> int {
    let k = doublings(attempt);
    if doubled(k) > MAX_BACKOFF_MS {
        MAX_BACKOFF_MS as int
    } else {
        doubled(k)
    }
}

/// The longest delay before the retry, in milliseconds.
pub fn backoff_ceiling_ms(attempt: u32) -> (r: u64)
    ensures
        r == backoff_ceiling(attempt as int),
{
    let n: u32 = if attempt <= 1 {
        0
    } else if attempt - 1 > MAX_DOUBLINGS {
        MAX_DOUBLINGS
    } else {
        attempt - 1
    };
    let mut ms: u64 = BASE_BACKOFF_MS;
    let mut k: u32 = 0;
    while k < n
        invariant
            k <= n <= MAX_DOUBLINGS,
            ms == doubled(k as int),
            ms <= 500 * 4096,
            k < 12 ==> ms <= 500 * 2048,
        decreases n - k,
    {
        proof {
            lemma_doubled_bound(k + 1);
        }
        ms = 2 * ms;
        k = k + 1;
        assert(ms == doubled(k as int));
    }
    if ms > MAX_BACKOFF_MS {
        MAX_BACKOFF_MS
    } else {
        ms
    }
}

proof fn lemma_doubled_bound(k: int)
    requires
        0 <= k <= 12,
    ensures
        doubled(k) <= 500 * 4096,
        k < 12 ==> doubled(k) <= 500 * 2048,
{
    reveal_with_fuel(doubled, 13);
}

proof fn lemma_doubled_grows(a: int, b: int)
    requires
        a <= b,
    ensures
        BASE_BACKOFF_MS <= doubled(a) <= doubled(b),
    decreases (if a > 0 { a } else { 0 }) + (if b > 0 { b } else { 0 }),
{
    if b > 0 {
        if a <= 0 {
            lemma_doubled_grows(a, b - 1);
        } else {
            lemma_doubled_grows(a - 1, b - 1);
        }
    }
}

/// The limit of the delay never shrinks from one retry to the next, starts at
/// the base delay, and never exceeds the longest delay.
pub proof fn lemma_backoff_grows(a: int, b: int)
    requires
        a <= b,
    ensures
        BASE_BACKOFF_MS <= backoff_ceiling(a) <= backoff_ceiling(b) <= MAX_BACKOFF_MS,
        backoff_ceiling(1) == BASE_BACKOFF_MS,
{
    lemma_doubled_grows(doublings(a), doublings(b));
    lemma_doubled_grows(0, doublings(a));
}

/// The nearest whole number to `n / d`; of two, the even one.
pub open spec fn half_even(n: int, d: int) -> int {
    let q = n / d;
    let r = n % d;
    if 2 * r < d || (2 * r == d && q % 2 == 0) {
        q
    } else {
        q + 1
    }
}

/// Two to the power of 53: the integers up to it are doubles.
pub const TWO_53: u128 = 0x20_0000_0000_0000;

/// The distance of the doubles about the positive integer `x`, or one.
pub open spec fn spacing(x: int) -> int
    decreases x,
{
    if x < TWO_53 {
        1
    } else {
        2 * spacing(x / 2)
    }
}

/// The double nearest to the integer `x`.
pub open spec fn nearest_double(x: int) -> int {
    half_even(x, spacing(x)) * spacing(x)
}

/// The jitter of the backoff, in parts of 2^59: 53 random bits as a fraction of
/// one, but no less than the double nearest to 0.01.
pub open spec fn jitter(state: u64) -> int {
    let m = mixed(advanced(state)) as int / 2048 * 64;
    if m < MIN_JITTER {
        MIN_JITTER as int
    } else {
        m
    }
}

/// The double nearest to 0.01, in parts of 2^59.
pub const MIN_JITTER: u128 = 5_764_607_523_034_235;

/// Two to the power of 60.
pub const TWO_60: u128 = 0x1000_0000_0000_0000;

/// The delay before the retry, in nanoseconds: the limit of the delay times the
/// jitter, as the product of two doubles in seconds.
pub open spec fn backoff_nanos(attempt: int, state: u64) -> int {
    let product = nearest_double(backoff_ceiling(attempt) / 500 * jitter(state));
    half_even(product * 1_000_000_000, TWO_60 as int)
}

pub(crate) proof fn lemma_spacing(x: int)
    requires
        0 <= x,
    ensures
        1 <= spacing(x),
        x < TWO_53 ==> spacing(x) == 1,
        x >= TWO_53 ==> spacing(x) * 0x10_0000_0000_0000 <= x,
    decreases x,
{
    if x >= TWO_53 {
        lemma_spacing(x / 2);
    }
}

pub(crate) proof fn lemma_half_even(n: int, d: int, k: int)
    requires
        0 <= n,
        1 <= d,
    ensures
        0 <= half_even(n, d),
        2 * (half_even(n, d) * d) <= 2 * n + d,
        half_even(n, d) * d >= n - d,
        n <= k * d ==> half_even(n, d) <= k,
        k * d <= n ==> k <= half_even(n, d),
{
    let q = n / d;
    let r = n % d;
    vstd::arithmetic::div_mod::lemma_fundamental_div_mod(n, d);
    vstd::arithmetic::div_mod::lemma_div_pos_is_pos(n, d);
    assert(q * d == d * q) by (nonlinear_arith);
    assert((q + 1) * d == q * d + d) by (nonlinear_arith);
    assert(k < q ==> k * d <= q * d - d) by (nonlinear_arith)
        requires
            d >= 1,
    ;
    assert(k > q ==> k * d >= q * d + d) by (nonlinear_arith)
        requires
            d >= 1,
    ;
}

/// The limits of the delay are the base delay times one of a few numbers.
pub(crate) proof fn lemma_ceiling_steps(attempt: int)
    ensures
        backoff_ceiling(attempt) % 500 == 0,
        1 <= backoff_ceiling(attempt) / 500 <= 60,
{
    reveal_with_fuel(doubled, 13);
}

/// A product of a limit and a jitter, as a double, is about that product.
proof fn lemma_product(w: int, m: int)
    requires
        1 <= w <= 60,
        MIN_JITTER <= m <= 0x800_0000_0000_0000 - 64,
    ensures
        1_000_000_000_000_000 <= nearest_double(w * m) <= w * 0x800_0000_0000_0000,
{
    let x = w * m;
    assert(m <= x <= w * (0x800_0000_0000_0000 - 64)) by (nonlinear_arith)
        requires
            x == w * m,
            1 <= w,
            0 <= m <= 0x800_0000_0000_0000 - 64,
    ;
    lemma_spacing(x);
    lemma_half_even(x, spacing(x), 0);
    assert(spacing(x) <= 128 * w);
}

/// A delay is more than nothing and at most its limit.
pub proof fn lemma_backoff_within_limit(attempt: int, state: u64)
    ensures
        0 < backoff_nanos(attempt, state) <= backoff_ceiling(attempt) * 1_000_000,
{
    let w = backoff_ceiling(attempt) / 500;
    let p = nearest_double(w * jitter(state));
    lemma_ceiling_steps(attempt);
    lemma_product(w, jitter(state));
    lemma_half_even(p * 1_000_000_000, TWO_60 as int, 1);
    lemma_half_even(p * 1_000_000_000, TWO_60 as int, w * 500_000_000);
}

fn nearest(n: u128, d: u128) -> (r: u128)
    requires
        1 <= d <= TWO_60,
        n < 0x1_0000_0000_0000_0000_0000_0000_0000,
    ensures
        r == half_even(n as int, d as int),
{
    proof {
        lemma_half_even(n as int, d as int, n as int);
        assert(n <= n * d) by (nonlinear_arith)
            requires
                d >= 1,
        ;
    }
    let q: u128 = n / d;
    let r: u128 = n % d;
    if 2 * r < d || (2 * r == d && q % 2 == 0) {
        q
    } else {
        q + 1
    }
}

fn double_spacing(x: u128) -> (r: u128)
    requires
        x < 0x40_0000_0000_0000_0000,
    ensures
        r == spacing(x as int),
        1 <= r <= TWO_60,
{
    let mut q: u128 = x;
    let mut d: u128 = 1;
    while q >= TWO_53
        invariant
            1 <= d,
            q < 0x40_0000_0000_0000_0000,
            d * q < 0x40_0000_0000_0000_0000,
            d * spacing(q as int) == spacing(x as int),
        decreases q,
    {
        let ghost d0 = d as int;
        let ghost q0 = q as int;
        assert(d0 * 1 <= d0 * q0) by (nonlinear_arith)
            requires
                1 <= q0,
                1 <= d0,
        ;
        assert(2 * d0 * (q0 / 2) <= d0 * q0) by (nonlinear_arith)
            requires
                0 <= q0,
                1 <= d0,
        ;
        assert(d0 * (2 * spacing(q0 / 2)) == 2 * d0 * spacing(q0 / 2)) by (nonlinear_arith);
        q = q / 2;
        d = 2 * d;
    }
    proof {
        lemma_spacing(x as int);
        assert(d * 1 == d);
    }
    d
}

/// Exponential backoff with "full jitter", in nanoseconds: uniform in (1,
/// base×2^(n-1)].
pub fn backoff_delay(attempt: u32, rng: &mut Rng) -> (r: u64)
    ensures
        r == backoff_nanos(attempt as int, old(rng)@),
        0 < r <= backoff_ceiling(attempt as int) * 1_000_000,
        final(rng)@ == advanced(old(rng)@),
{
    let ghost state = rng@;
    let w: u64 = backoff_ceiling_ms(attempt) / 500;
    let bits: u64 = rng.next_u64();
    let m: u128 = (bits / 2048) as u128 * 64;
    let m: u128 = if m < MIN_JITTER {
        MIN_JITTER
    } else {
        m
    };
    proof {
        lemma_ceiling_steps(attempt as int);
        assert(m == jitter(state));
        lemma_product(w as int, m as int);
        assert(w * m <= 60 * 0x800_0000_0000_0000) by (nonlinear_arith)
            requires
                0 <= w <= 60,
                0 <= m <= 0x800_0000_0000_0000,
        ;
        lemma_backoff_within_limit(attempt as int, state);
    }
    let x: u128 = w as u128 * m;
    let d: u128 = double_spacing(x);
    let q: u128 = nearest(x, d);
    proof {
        assert(q * d == nearest_double(x as int));
    }
    let product: u128 = q * d;
    nearest(product * 1_000_000_000, TWO_60) as u64
}

/// The shortest delay before a retry, in nanoseconds.
pub const MIN_DELAY_NANOS: u128 = 10_000_000;

/// The delay before a retry, in nanoseconds: the backoff, or what the receiver
/// asks for when that is longer, and never less than the shortest delay.
pub open spec fn delay_of(backoff_nanos: int, retry_after: Option<u64>) -> int {
    let asked = match retry_after {
        Some(s) => s * 1_000_000_000,
        None => 0,
    };
    let longer = if asked > backoff_nanos {
        asked
    } else {
        backoff_nanos
    };
    if longer < MIN_DELAY_NANOS {
        MIN_DELAY_NANOS as int
    } else {
        longer
    }
}

/// The delay before a retry, in nanoseconds.
pub fn retry_delay(backoff_nanos: u64, retry_after: Option<u64>) -> (r: u128)
    ensures
        r == delay_of(backoff_nanos as int, retry_after),
{
    let asked: u128 = match retry_after {
        Some(s) => s as u128 * 1_000_000_000,
        None => 0,
    };
    let longer: u128 = if asked > backoff_nanos as u128 {
        asked
    } else {
        backoff_nanos as u128
    };
    if longer < MIN_DELAY_NANOS {
        MIN_DELAY_NANOS
    } else {
        longer
    }
}

// ---------------------------------------------------------------------------
// Sending one batch
// ---------------------------------------------------------------------------

/// What to do after a send.
#[derive(Debug, Clone, Copy, PartialEq, Eq, Structural)]
pub enum DispatchStep {
    /// The batch is done; `fatal` aborts the run.
    Finished { fatal: bool },
    /// Send again at once.
    Resend,
    /// Send again after a delay: the backoff of the attempt, or longer when the
    /// receiver asked for it.
    Wait { attempt: u32, retry_after: Option<u64> },
}

/// The sending of one batch with bounded retries.
pub struct Dispatch {
    pub n: u64,
    pub retries: u32,
    pub fail_fast: bool,
    /// The retries so far.
    pub attempt: u32,
}

/// No further send after a failure: an authentication error is confirmed once,
/// other failures are retried as far as they may resolve and retries are left.
pub open spec fn gives_up(r: BatchResult, attempt: int, retries: int) -> bool {
    if r.auth_error {
        attempt >= 1
    } else {
        !r.retryable || attempt >= retries
    }
}

/// The batch is done after the result.
pub open spec fn finishes(r: BatchResult, attempt: int, retries: int) -> bool {
    r.failed == 0 || gives_up(r, attempt, retries)
}

/// The events of a finished batch of `n` that count as sent. A batch without a
/// failed event counts as a whole.
pub open spec fn sent_of(r: BatchResult, n: int) -> int {
    if r.failed == 0 && r.succeeded < n {
        n
    } else {
        r.succeeded as int
    }
}

/// The events of a finished batch of `n` that count as failed.
pub open spec fn failed_of(r: BatchResult, n: int) -> int {
    if r.failed == 0 || r.succeeded >= n {
        0
    } else {
        n - r.succeeded
    }
}

/// What to do after the result of a send, the sending of the batch after it, and
/// the counters: a finished batch counts as sent and as failed, one that is sent
/// again counts as retried.
pub open spec fn dispatched(d: Dispatch, r: BatchResult, s: Snapshot) -> (
    DispatchStep,
    Dispatch,
    Snapshot,
) {
    let n = d.n as int;
    if finishes(r, d.attempt as int, d.retries as int) {
        (
            DispatchStep::Finished { fatal: r.failed > 0 && (r.auth_error || d.fail_fast) },
            d,
            Snapshot {
                sent: counted(s.sent, sent_of(r, n) as u64),
                bytes_sent: counted(s.bytes_sent, r.bytes),
                failed: counted(s.failed, failed_of(r, n) as u64),
                ..s
            },
        )
    } else {
        let attempt = (d.attempt + 1) as u32;
        (
            if r.auth_error {
                DispatchStep::Resend
            } else {
                DispatchStep::Wait { attempt, retry_after: r.retry_after }
            },
            Dispatch { attempt, ..d },
            Snapshot { retried: counted(s.retried, d.n), ..s },
        )
    }
}

impl Dispatch {
    /// The first send of a batch of `n` events is to come.
    pub fn new(n: u64, retries: u32, fail_fast: bool) -> (r: Dispatch)
        ensures
            r == (Dispatch { n, retries, fail_fast, attempt: 0 }),
    {
        Dispatch { n, retries, fail_fast, attempt: 0 }
    }

    /// Takes the result of a send. `failed` counts events whose final outcome
    /// is failure; retries on the way are counted by `retried` only.
    pub fn result(&mut self, r: &BatchResult, stats: &mut Stats) -> (step: DispatchStep)
        ensures
            (step, *final(self), final(stats)@) == dispatched(*old(self), *r, old(stats)@),
    {
        if r.failed == 0 {
            let sent: u64 = if r.succeeded < self.n {
                self.n
            } else {
                r.succeeded
            };
            stats.add_sent(sent, r.bytes);
            return DispatchStep::Finished { fatal: false };
        }
        let give_up = if r.auth_error {
            self.attempt >= 1
        } else {
            !r.retryable || self.attempt >= self.retries
        };
        if give_up {
            stats.add_sent(r.succeeded, r.bytes);
            stats.add_failed(
                if r.succeeded >= self.n {
                    0
                } else {
                    self.n - r.succeeded
                },
            );
            return DispatchStep::Finished { fatal: r.auth_error || self.fail_fast };
        }
        self.attempt = self.attempt + 1;
        stats.add_retried(self.n);
        if r.auth_error {
            DispatchStep::Resend
        } else {
            DispatchStep::Wait { attempt: self.attempt, retry_after: r.retry_after }
        }
    }
}

/// However the sends of a batch turn out, those that leave it undone are no
/// more than the retries that are allowed, or one where none is: a batch is
/// sent at most once more than that.
pub proof fn lemma_sends_are_bounded(results: Seq<BatchResult>, retries: int)
    requires
        0 <= retries,
        forall|i: int|
            0 <= i < results.len() ==> !finishes(#[trigger] results[i], i, retries),
    ensures
        results.len() <= if retries > 1 {
            retries
        } else {
            1
        },
{
    if results.len() > 0 {
        let last = results.len() - 1;
        assert(!finishes(results[last], last, retries));
    }
}

/// A batch that keeps being refused for authentication is sent twice.
pub proof fn lemma_auth_is_confirmed_once(r: BatchResult, retries: int)
    requires
        r.failed > 0,
        r.auth_error,
        0 <= retries,
    ensures
        !finishes(r, 0, retries),
        finishes(r, 1, retries),
{
}

/// Every event of a finished batch is counted once: as sent or as failed.
pub proof fn lemma_batch_is_accounted_for(r: BatchResult, n: int)
    requires
        r.succeeded <= n,
    ensures
        sent_of(r, n) + failed_of(r, n) == n,
        0 <= sent_of(r, n) <= n,
{
}

// ---------------------------------------------------------------------------
// Events
// ---------------------------------------------------------------------------

/// What was noticed of the generated events.
#[derive(Debug, Clone, Copy, PartialEq, Eq, Structural)]
pub struct GenCounters {
    pub malformed: u64,
    pub detected: u64,
    pub year_inferred: u64,
    pub encoding_errors: u64,
}

impl Default for GenCounters {
    fn default() -> (r: GenCounters)
        ensures
            r == (GenCounters { malformed: 0, detected: 0, year_inferred: 0, encoding_errors: 0 }),
    {
        GenCounters { malformed: 0, detected: 0, year_inferred: 0, encoding_errors: 0 }
    }
}

/// A line in which something was not UTF-8 when it was read.
pub open spec fn has_encoding_error(line: Seq<char>) -> bool {
    line.contains('\u{FFFD}')
}

/// A line of white space only.
pub open spec fn is_blank(line: Seq<char>) -> bool {
    trim(line).len() == 0
}

/// The year of the timestamp that is detected in the line is not in the line.
pub open spec fn year_is_inferred(line: Seq<char>) -> bool {
    scan(line) is Some && scan(line)->0.moment is Yearless
}

/// One when the condition holds.
pub open spec fn one_if(b: bool) -> int {
    if b {
        1
    } else {
        0
    }
}

/// The counters after a line.
pub open spec fn noticed(c: GenCounters, line: Seq<char>) -> GenCounters {
    GenCounters {
        malformed: (c.malformed + one_if(is_blank(line))) as u64,
        detected: (c.detected + one_if(scan(line) is Some)) as u64,
        year_inferred: (c.year_inferred + one_if(year_is_inferred(line))) as u64,
        encoding_errors: (c.encoding_errors + one_if(has_encoding_error(line))) as u64,
    }
}

/// The counters can count one more line.
pub open spec fn can_count(c: GenCounters) -> bool {
    c.malformed < u64::MAX && c.detected < u64::MAX && c.year_inferred < u64::MAX
        && c.encoding_errors < u64::MAX
}

/// The length of a window in nanoseconds; one that ends before it starts, or
/// that 64 bits cannot hold, counts as empty.
pub open spec fn span_of(start: int, anchor: int) -> int {
    if 0 <= anchor - start <= i64::MAX {
        anchor - start
    } else {
        0
    }
}

/// The instant that is drawn in the window.
pub open spec fn drawn_instant(start: int, anchor: int, state: u64) -> int {
    let span = span_of(start, anchor);
    if span > 0 {
        start + mixed(advanced(state)) as int % span
    } else {
        start
    }
}

/// An instant that is drawn lies in the window: at its start or behind, and
/// before its end unless the window is empty.
pub proof fn lemma_drawn_instant_in_window(start: int, anchor: int, state: u64)
    requires
        start <= anchor,
    ensures
        start <= drawn_instant(start, anchor, state) <= anchor,
        start < anchor && anchor - start <= i64::MAX ==> drawn_instant(start, anchor, state)
            < anchor,
{
}

/// `body` is the line with its timestamp replaced, by the machine's time zone:
/// that of a JSON object under one of the timestamp keys, or else the one that is
/// detected in the line; there is none when it has neither.
pub open spec fn is_rewritten(line: Seq<char>, t: int, body: Option<Seq<char>>) -> bool {
    ||| body is Some && is_json_transformed(line, t, body)
    ||| is_json_transformed(line, t, None) && is_transformed(line, t, body)
}

/// `e` is the event of the raw line. Replay keeps the body and has no
/// timestamp; synthetic-today rewrites the body to the instant `t`, or, where
/// there is no timestamp to rewrite, keeps it and has none. The machine's clock
/// showed when it was made.
pub open spec fn event_is(e: Event, raw: RawEvent, mode: SimMode, t: int) -> bool {
    &&& match e.timestamp {
        Some(ts) => mode == SimMode::SyntheticToday && ts@ == t && is_rewritten(
            raw.line@,
            t,
            Some(e.body@),
        ),
        None => e.body@ == raw.line@ && (mode == SimMode::SyntheticToday ==> is_rewritten(
            raw.line@,
            t,
            None,
        )),
    }
    &&& clock_showed(e.observed@)
    &&& name_view(e.severity) == severity_of(raw.line@)
    &&& e.source_file@ == raw.source_file@
    &&& e.source_type == raw.source_type
    &&& e.ts_detected == (scan(raw.line@) is Some)
    &&& e.ts_year_inferred == year_is_inferred(raw.line@)
    &&& e.line_no == raw.line_no
}

/// The state of the generator of random numbers after an event.
pub open spec fn state_after(mode: SimMode, start: int, anchor: int, state: u64) -> u64 {
    if mode == SimMode::SyntheticToday && span_of(start, anchor) > 0 {
        advanced(state)
    } else {
        state
    }
}

fn count_line(
    line: &str,
    detected: bool,
    inferred: bool,
    counters: &mut GenCounters,
)
    requires
        can_count(*old(counters)),
        detected == (scan(line@) is Some),
        inferred == year_is_inferred(line@),
    ensures
        *final(counters) == noticed(*old(counters), line@),
{
    let cs = chars_of(line);
    if find_char(&cs, '\u{FFFD}').is_some() {
        proof {
            assert(cs@.contains('\u{FFFD}'));
        }
        counters.encoding_errors = counters.encoding_errors + 1;
    }
    if trim_chars(&cs).len() == 0 {
        counters.malformed = counters.malformed + 1;
    }
    if detected {
        counters.detected = counters.detected + 1;
    }
    if inferred {
        counters.year_inferred = counters.year_inferred + 1;
    }
}

fn draw_instant(start: UtcTime, anchor: UtcTime, rng: &mut Rng) -> (r: UtcTime)
    ensures
        r@ == drawn_instant(start@, anchor@, old(rng)@),
        final(rng)@ == state_after(SimMode::SyntheticToday, start@, anchor@, old(rng)@),
{
    let gap: i128 = anchor.nanos_since(&start);
    if gap <= 0 || gap > 9_223_372_036_854_775_807 {
        return start;
    }
    let span: u64 = gap as u64;
    let offset: u64 = rng.next_u64() % span;
    match start.plus_nanos(offset) {
        Some(t) => t,
        None => start,
    }
}

/// Build the normalized event for a raw line.
///
/// Replay keeps the body verbatim, with no parsed event timestamp; transports
/// stamp the observed (send) time into the envelope so bodies remain
/// historical while ingestion looks recent. Synthetic-today rewrites only the
/// confidently detected timestamp substring/JSON field; without detection the
/// body is untouched and the transport falls back to observed time.
pub fn build_event(
    raw: RawEvent,
    mode: SimMode,
    window_start: UtcTime,
    anchor: UtcTime,
    rng: &mut Rng,
    counters: &mut GenCounters,
) -> (r: Event)
    requires
        can_count(*old(counters)),
    ensures
        event_is(r, raw, mode, drawn_instant(window_start@, anchor@, old(rng)@)),
        final(rng)@ == state_after(mode, window_start@, anchor@, old(rng)@),
        *final(counters) == noticed(*old(counters), raw.line@),
{
    let found = parse(raw.line.as_str());
    let detected = found.is_some();
    let inferred = match found {
        Some((_, _, inferred)) => inferred,
        None => false,
    };
    count_line(raw.line.as_str(), detected, inferred, counters);
    let severity = detect_severity(raw.line.as_str());
    let mut body = raw.line.clone();
    let mut timestamp: Option<UtcTime> = None;
    if mode == SimMode::SyntheticToday {
        let new_ts = draw_instant(window_start, anchor, rng);
        let rewritten = match transform_json(raw.line.as_str(), new_ts) {
            Some(x) => Some(x),
            None => transform(raw.line.as_str(), new_ts),
        };
        if let Some(x) = rewritten {
            body = x.body;
            timestamp = Some(new_ts);
        }
    }
    Event {
        body,
        timestamp,
        observed: utc_now(),
        severity,
        source_file: raw.source_file,
        source_type: raw.source_type,
        ts_detected: detected,
        ts_year_inferred: inferred,
        line_no: raw.line_no,
    }
}

// ---------------------------------------------------------------------------
// The recent window
// ---------------------------------------------------------------------------

/// The longest window that is taken as it is given, in seconds; a longer one
/// counts as one of an hour.
pub const MAX_WINDOW_SECS: u64 = 9_223_372_036_854_775;

/// The length of a window of that many seconds.
pub open spec fn window_secs(n: u64) -> int {
    if n <= MAX_WINDOW_SECS {
        n as int
    } else {
        3600
    }
}

/// The window starts at an instant that can be held.
pub open spec fn window_fits(w: TimeWindow, anchor: int) -> bool {
    w matches TimeWindow::Seconds(n) ==> in_range(anchor - window_secs(n) * 1_000_000_000)
}

/// The second at which the local day began that the clock shows `local` seconds
/// past the epoch.
pub open spec fn local_midnight(local: int) -> int {
    local - local % 86400
}

/// The start of the local day of the instant, where the local clock is `off`
/// seconds east of UTC then and `at_midnight` when the day began; the instant
/// itself when that is not known.
pub open spec fn today_of(anchor: int, off: int, at_midnight: Option<i32>) -> int {
    let midnight = local_midnight(whole_seconds(anchor) + off);
    match at_midnight {
        Some(o) => if in_range((midnight - o) * 1_000_000_000) {
            (midnight - o) * 1_000_000_000
        } else {
            anchor
        },
        None => anchor,
    }
}

/// The start of the local day of the instant, by offsets of the local clock.
pub fn today_start(anchor: UtcTime, off: i32, at_midnight: Option<i32>) -> (r: UtcTime)
    requires
        valid_offset(off as int),
        at_midnight matches Some(o) ==> valid_offset(o as int),
    ensures
        r@ == today_of(anchor@, off as int, at_midnight),
{
    let midnight: i64 = midnight_of(&anchor, off);
    match at_midnight {
        Some(o) => match UtcTime::new(midnight - o as i64, 0) {
            Some(t) => t,
            None => anchor,
        },
        None => anchor,
    }
}

fn midnight_of(anchor: &UtcTime, off: i32) -> (r: i64)
    requires
        valid_offset(off as int),
    ensures
        r == local_midnight(whole_seconds(anchor@) + off),
        MIN_SECS - 200_000 <= r <= MAX_SECS + 200_000,
{
    let local: i64 = anchor.seconds() + off as i64;
    let day: i64 = 86400;
    let rem: i64 = local % day;
    if rem < 0 {
        local - rem - day
    } else {
        local - rem
    }
}

/// `start` is the start of the local day of the anchor by the machine's time
/// zone: it was asked about the anchor, and then about the local midnight before
/// it, where that is within range.
pub open spec fn is_today(start: int, anchor: int) -> bool {
    exists|o: LocalOffset, at: Option<LocalReading>| #[trigger]
        asked_about_today(o, at, anchor) && start == today_of(
            anchor,
            o.east_of_utc(),
            match at {
                Some(a) => a.east_then(),
                None => None,
            },
        )
}

/// What the machine's time zone answered about the anchor and about the local
/// midnight before it.
pub open spec fn asked_about_today(o: LocalOffset, at: Option<LocalReading>, anchor: int) -> bool {
    let midnight = local_midnight(whole_seconds(anchor) + o.east_of_utc());
    &&& answers(o, Some(whole_seconds(anchor)))
    &&& match at {
        Some(a) => answers_when(a, midnight),
        None => !(MIN_SECS <= midnight <= MAX_SECS),
    }
}

/// Where the window that ends at the anchor starts.
pub open spec fn is_window_start(w: TimeWindow, anchor: int, start: int) -> bool {
    match w {
        TimeWindow::Now => start == anchor,
        TimeWindow::Today => is_today(start, anchor),
        TimeWindow::Seconds(n) => start == anchor - window_secs(n) * 1_000_000_000,
    }
}

fn local_day(anchor: UtcTime) -> (r: UtcTime)
    ensures
        is_today(r@, anchor@),
{
    let o = local_offset_at(anchor.seconds());
    let midnight: i64 = midnight_of(&anchor, o.seconds());
    if midnight < MIN_SECS || MAX_SECS < midnight {
        let r = today_start(anchor, o.seconds(), None);
        assert(asked_about_today(o, None, anchor@));
        return r;
    }
    let a = local_offset_when(midnight);
    let r = today_start(anchor, o.seconds(), a.seconds());
    assert(asked_about_today(o, Some(a), anchor@));
    r
}

/// The resolved recent window [start, anchor).
pub fn recent_window_span(cfg: &Config, anchor: UtcTime) -> (r: (UtcTime, UtcTime))
    requires
        window_fits(cfg.recent_window, anchor@),
    ensures
        r.1 == anchor,
        is_window_start(cfg.recent_window, anchor@, r.0@),
        !(cfg.recent_window is Today) ==> r.0@ <= anchor@,
{
    let start = match cfg.recent_window {
        TimeWindow::Now => anchor,
        TimeWindow::Today => local_day(anchor),
        TimeWindow::Seconds(n) => {
            let secs: i64 = if n <= MAX_WINDOW_SECS {
                n as i64
            } else {
                3600
            };
            match anchor.minus_secs(secs) {
                Some(t) => t,
                None => anchor,
            }
        },
    };
    (start, anchor)
}

pub fn mode_str(cfg: &Config) -> (r: &'static str)
    ensures
        r@ == mode_label(cfg.mode),
{
    mode_name(cfg.mode)
}

// ---------------------------------------------------------------------------
// Batches
// ---------------------------------------------------------------------------

/// The number of batches that may wait for each worker.
pub const QUEUE_PER_WORKER: usize = 2;

/// How long a batch that is not full may wait, in milliseconds.
pub const FLUSH_TIMEOUT_MS: u64 = 1000;

/// At least one.
pub open spec fn at_least_one(n: usize) -> usize {
    if n == 0 {
        1
    } else {
        n
    }
}

/// The number of workers of a run.
pub fn worker_count(cfg: &Config) -> (r: usize)
    ensures
        r == at_least_one(cfg.workers),
{
    if cfg.workers == 0 {
        1
    } else {
        cfg.workers
    }
}

/// The number of events in a full batch of a run.
pub fn full_batch(cfg: &Config) -> (r: usize)
    ensures
        r == at_least_one(cfg.batch_size),
{
    if cfg.batch_size == 0 {
        1
    } else {
        cfg.batch_size
    }
}

/// The batches that may wait between the generator and the workers.
pub fn queue_capacity(workers: usize) -> (r: usize)
    requires
        workers * QUEUE_PER_WORKER <= usize::MAX,
    ensures
        r == if workers * QUEUE_PER_WORKER > 4 {
            workers * QUEUE_PER_WORKER
        } else {
            4
        },
{
    let n: usize = workers * QUEUE_PER_WORKER;
    if n > 4 {
        n
    } else {
        4
    }
}

/// What the generator does next: when it is finished, nothing more; else it
/// sends the batch, if there is one, stops the timer, if it is to, and takes
/// the next line.
pub struct GenStep {
    pub finished: bool,
    pub send: Option<Vec<Event>>,
    pub stop_timer: bool,
}

/// The events of batches, one after the other.
pub open spec fn events_in(batches: Seq<Seq<Event>>) -> Seq<Event>
    decreases batches.len(),
{
    if batches.len() == 0 {
        Seq::empty()
    } else {
        events_in(batches.drop_last()) + batches.last()
    }
}

/// Every batch has an event, and none has more than `size`.
pub open spec fn are_batches(batches: Seq<Seq<Event>>, size: int) -> bool {
    forall|i: int| 0 <= i < batches.len() ==> 1 <= (#[trigger] batches[i]).len() <= size
}

/// The batches with one more, if there is one.
pub open spec fn and_batch(batches: Seq<Seq<Event>>, b: Option<Vec<Event>>) -> Seq<Seq<Event>> {
    match b {
        Some(v) => batches.push(v@),
        None => batches,
    }
}

/// The gathering of events into batches.
pub struct Generator {
    pub lines: u64,
    pub batch_size: usize,
    pub generated: u64,
    pub buffer: Vec<Event>,
    /// The batches that were sent, in their order.
    pub sent: Ghost<Seq<Seq<Event>>>,
    /// The events that were generated.
    pub taken: Ghost<Seq<Event>>,
}

impl Generator {
    /// No more events than lines were asked for, and no more wait than a batch
    /// holds; and none is lost, repeated or moved: those that were sent and
    /// those that wait are those that were generated. Every batch that was sent has
    /// events, and no more than a batch holds.
    pub open spec fn wf(self) -> bool {
        &&& 1 <= self.batch_size
        &&& self.buffer@.len() <= self.batch_size
        &&& self.generated <= self.lines
        &&& self.generated == self.taken@.len()
        &&& are_batches(self.sent@, self.batch_size as int)
        &&& events_in(self.sent@) + self.buffer@ == self.taken@
    }

    /// Nothing has been generated of the lines.
    pub fn new(lines: u64, batch_size: usize) -> (r: Generator)
        requires
            1 <= batch_size,
        ensures
            r.wf(),
            r.lines == lines,
            r.batch_size == batch_size,
            r.generated == 0,
            r.buffer@.len() == 0,
            r.sent@.len() == 0,
    {
        let r = Generator {
            lines,
            batch_size,
            generated: 0,
            buffer: Vec::new(),
            sent: Ghost(Seq::empty()),
            taken: Ghost(Seq::empty()),
        };
        assert(events_in(r.sent@) + r.buffer@ =~= r.taken@);
        r
    }

    /// The next step. `stop` ends the run; `flush_due` says that a timer runs
    /// and has run out.
    pub fn step(&mut self, stop: bool, flush_due: bool) -> (r: GenStep)
        requires
            old(self).wf(),
        ensures
            final(self).wf(),
            final(self).lines == old(self).lines,
            final(self).batch_size == old(self).batch_size,
            final(self).generated == old(self).generated,
            final(self).taken@ == old(self).taken@,
            final(self).sent@ == and_batch(old(self).sent@, r.send),
            r.finished == (old(self).generated >= old(self).lines || stop),
            r.finished && !stop ==> final(self).generated == final(self).lines,
            r.finished ==> r.send is None && !r.stop_timer && final(self).buffer@
                == old(self).buffer@,
            !r.finished ==> {
                let full = old(self).buffer@.len() == old(self).batch_size;
                let flush = !full && flush_due;
                &&& r.stop_timer == flush
                &&& r.send is Some <==> (full || (flush && old(self).buffer@.len() > 0))
                &&& r.send matches Some(b) ==> b@ == old(self).buffer@
                &&& r.send is Some ==> final(self).buffer@.len() == 0
                &&& r.send is None ==> final(self).buffer@ == old(self).buffer@
                &&& final(self).buffer@.len() < final(self).batch_size
                &&& final(self).generated < final(self).lines
            },
    {
        if self.generated >= self.lines || stop {
            return GenStep { finished: true, send: None, stop_timer: false };
        }
        if self.buffer.len() >= self.batch_size {
            return GenStep { finished: false, send: Some(self.take_buffer()), stop_timer: false };
        }
        if flush_due {
            let send = if self.buffer.len() > 0 {
                Some(self.take_buffer())
            } else {
                None
            };
            return GenStep { finished: false, send, stop_timer: true };
        }
        GenStep { finished: false, send: None, stop_timer: false }
    }

    fn take_buffer(&mut self) -> (r: Vec<Event>)
        requires
            old(self).wf(),
            old(self).buffer@.len() > 0,
        ensures
            final(self).wf(),
            r@ == old(self).buffer@,
            final(self).buffer@.len() == 0,
            final(self).lines == old(self).lines,
            final(self).batch_size == old(self).batch_size,
            final(self).generated == old(self).generated,
            final(self).taken@ == old(self).taken@,
            final(self).sent@ == old(self).sent@.push(r@),
    {
        let mut out: Vec<Event> = Vec::new();
        std::mem::swap(&mut out, &mut self.buffer);
        self.sent = Ghost(self.sent@.push(out@));
        assert(self.sent@.drop_last() =~= old(self).sent@);
        assert(events_in(self.sent@) + self.buffer@ =~= self.taken@);
        out
    }

    /// Takes a generated event. The result says whether to start the timer: the
    /// event is the first of its batch.
    pub fn push(&mut self, e: Event) -> (r: bool)
        requires
            old(self).wf(),
            old(self).buffer@.len() < old(self).batch_size,
            old(self).generated < old(self).lines,
        ensures
            final(self).wf(),
            final(self).lines == old(self).lines,
            final(self).batch_size == old(self).batch_size,
            final(self).generated == old(self).generated + 1,
            final(self).buffer@ == old(self).buffer@.push(e),
            final(self).taken@ == old(self).taken@.push(e),
            final(self).sent@ == old(self).sent@,
            r == (old(self).buffer@.len() == 0),
    {
        self.generated = self.generated + 1;
        self.taken = Ghost(self.taken@.push(e));
        self.buffer.push(e);
        assert(events_in(self.sent@) + self.buffer@ =~= self.taken@);
        self.buffer.len() == 1
    }

    /// The last batch, if any event waits. With it, everything that was
    /// generated has been sent, in batches of at least one event and at most as
    /// many as a batch holds.
    pub fn finish(self) -> (r: Option<Vec<Event>>)
        requires
            self.wf(),
        ensures
            events_in(and_batch(self.sent@, r)) == self.taken@,
            are_batches(and_batch(self.sent@, r), self.batch_size as int),
            match r {
                Some(b) => b@ == self.buffer@ && b@.len() > 0,
                None => self.buffer@.len() == 0,
            },
    {
        if self.buffer.len() > 0 {
            assert(self.sent@.push(self.buffer@).drop_last() =~= self.sent@);
            Some(self.buffer)
        } else {
            assert(events_in(self.sent@) + self.buffer@ =~= events_in(self.sent@));
            None
        }
    }
}

} // verus!
