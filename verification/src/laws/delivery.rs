//! Deliveries: what an answer of the receiver means for a batch, whether the
//! batch is sent again, and after which delay.

use vstd::prelude::*;

use crate::json::{field_of, integer_value, json_value, FieldView, JsonView};
use crate::laws::configuration::{
    lemma_decimal_texts_are_numbers, lemma_other_texts_are_no_numbers,
};
use crate::pipeline::{
    backoff_ceiling, backoff_nanos, delay_of, dispatched, doubled, half_even, jitter,
    lemma_backoff_grows, lemma_ceiling_steps, lemma_half_even, lemma_spacing, nearest_double,
    spacing, Dispatch, DispatchStep,
};
use crate::sampling::{advanced, mixed};
use crate::settings::text_view;
use crate::stats::Snapshot;
use crate::text::{
    ascii_digit, decimal, digits_value, lemma_padded_reads_back, padded, signed_padded,
};
use crate::transport::hec::{accepted, network_failure, reply_of, tally_of, ReplyView};
use crate::transport::otel::ExportLogsServiceResponse;
use crate::transport::{hec, otel, retry_after_seconds, BatchResult};

verus! {

// ---------------------------------------------------------------------------
// Answers
// ---------------------------------------------------------------------------

/// A batch that the HEC receiver does not accept: every server error may pass and
/// is retried when the receiver says, a rate limit too; an authentication error
/// is told from both; any other status is final. No event counts as delivered.
pub proof fn lemma_hec_refusals(
    status: u16,
    retry_after: Option<u64>,
    text: &str,
    n: u64,
    bytes: u64,
    r: BatchResult,
)
    requires
        call_ensures(hec::response, (status, retry_after, text, n, bytes), r),
    ensures
        status < 200 || status >= 300 ==> r.succeeded == 0 && r.failed == n && r.bytes == 0,
        status >= 500 ==> r.retryable && !r.auth_error && r.retry_after == retry_after,
        status == 429 ==> r.retryable && !r.auth_error && r.retry_after == retry_after,
        status == 401 || status == 403 ==> r.auth_error && r.retryable && r.retry_after is None,
        400 <= status <= 499 && status != 401 && status != 403 && status != 429 ==> !r.retryable
            && !r.auth_error && r.retry_after is None,
        status < 200 || 300 <= status <= 399 ==> !r.retryable && !r.auth_error
            && r.retry_after is None,
{
}

/// The same of a batch that the OTLP receiver does not accept.
pub proof fn lemma_otlp_refusals(
    status: u16,
    retry_after: Option<u64>,
    body: &Option<ExportLogsServiceResponse>,
    n: u64,
    bytes: u64,
    r: BatchResult,
)
    requires
        call_ensures(otel::response, (status, retry_after, body, n, bytes), r),
    ensures
        status < 200 || status >= 300 ==> r.succeeded == 0 && r.failed == n && r.bytes == 0,
        status >= 500 ==> r.retryable && !r.auth_error && r.retry_after == retry_after,
        status == 429 ==> r.retryable && !r.auth_error && r.retry_after == retry_after,
        status == 401 || status == 403 ==> r.auth_error && r.retryable && r.retry_after is None,
        400 <= status <= 499 && status != 401 && status != 403 && status != 429 ==> !r.retryable
            && !r.auth_error && r.retry_after is None,
        status < 200 || 300 <= status <= 399 ==> !r.retryable && !r.auth_error
            && r.retry_after is None,
{
}

/// Either receiver treats a status alike: where it refuses a batch, the outcome
/// differs in nothing but the words for a status that is final.
pub proof fn lemma_receivers_agree(
    status: u16,
    retry_after: Option<u64>,
    text: &str,
    body: &Option<ExportLogsServiceResponse>,
    n: u64,
    bytes: u64,
    h: BatchResult,
    o: BatchResult,
)
    requires
        call_ensures(hec::response, (status, retry_after, text, n, bytes), h),
        call_ensures(otel::response, (status, retry_after, body, n, bytes), o),
    ensures
        h.retryable == o.retryable && h.auth_error == o.auth_error && h.retry_after
            == o.retry_after && h.bytes == o.bytes,
        status < 200 || status >= 300 ==> h.succeeded == o.succeeded && h.failed == o.failed,
        status == 401 || status == 403 ==> text_view(h.reason) == Some(
            "authentication failed (HTTP "@ + decimal(status as int) + ")"@,
        ) && text_view(o.reason) == text_view(h.reason),
        status == 429 ==> text_view(h.reason) == Some("rate limited (429)"@) && text_view(o.reason)
            == text_view(h.reason),
        status >= 500 ==> text_view(h.reason) == Some("server error (5xx)"@) && text_view(o.reason)
            == text_view(h.reason),
        status < 200 || 300 <= status < 500 && status != 401 && status != 403 && status != 429
            ==> text_view(h.reason) == Some("unexpected HTTP "@ + decimal(status as int))
            && text_view(o.reason) == Some(
            "OTLP export rejected (HTTP "@ + decimal(status as int) + ")"@,
        ),
{
    reveal_strlit("");
    if let Some(t) = text_view(h.reason) {
        assert("unexpected HTTP "@ + decimal(status as int) + ""@ =~= "unexpected HTTP "@ + decimal(
            status as int,
        ));
    }
}

/// A batch that the HEC receiver answers with a status of success is not sent
/// again. Without a code for every event it counts as a whole: delivered when the
/// answer has the code 0 or none, rejected when it has another.
pub proof fn lemma_hec_acceptance(
    status: u16,
    retry_after: Option<u64>,
    text: &str,
    n: u64,
    bytes: u64,
    r: BatchResult,
)
    requires
        200 <= status <= 299,
        call_ensures(hec::response, (status, retry_after, text, n, bytes), r),
    ensures
        !r.retryable && !r.auth_error && r.retry_after is None && r.bytes == bytes,
        json_value(text@) is Err ==> r.succeeded == n && r.failed == 0,
        json_value(text@) matches Ok(JsonView::Other) ==> r.succeeded == n && r.failed == 0,
        json_value(text@) matches Ok(JsonView::Object(e)) ==> {
            &&& !(field_of(e, "code"@) matches Some(FieldView::Number(_))) ==> r.succeeded == n
                && r.failed == 0
            &&& field_of(e, "code"@) matches Some(FieldView::Number(t)) ==> {
                &&& integer_value(t) is None ==> r.succeeded == n && r.failed == 0
                &&& integer_value(t) == Some(0i64) ==> r.succeeded == n && r.failed == 0
                &&& (integer_value(t) matches Some(k) && k != 0) ==> r.succeeded == 0 && r.failed
                    == n
            }
        },
        r.reason is Some <==> r.failed > 0,
{
}

/// Where every event has a code of its own, those with the code 0 are delivered
/// and the others rejected: with one more code of an event, the delivered events
/// are one more when it is 0, and else the rejected events are.
pub proof fn lemma_hec_codes_are_counted(codes: Seq<Option<i64>>, code: Option<i64>, n: int)
    ensures
        tally_of(ReplyView::List(Seq::empty()), n) == (0int, 0int),
        code == Some(0i64) ==> tally_of(ReplyView::List(codes.push(code)), n) == (
            tally_of(ReplyView::List(codes), n).0 + 1,
            tally_of(ReplyView::List(codes), n).1,
        ),
        code != Some(0i64) ==> tally_of(ReplyView::List(codes.push(code)), n) == (
            tally_of(ReplyView::List(codes), n).0,
            tally_of(ReplyView::List(codes), n).1 + 1,
        ),
{
    lemma_accepted_of_more(codes, code, codes.len() as int);
}

/// The item of a list is an object with the number 0 under `code`.
pub open spec fn has_code_0(item: Option<Seq<(Seq<char>, FieldView)>>) -> bool {
    match item {
        Some(e) => match field_of(e, "code"@) {
            Some(FieldView::Number(t)) => integer_value(t) == Some(0i64),
            _ => false,
        },
        None => false,
    }
}

/// An integer of 64 bits is read from its decimal text.
pub proof fn lemma_codes_are_integers(n: i64)
    ensures
        integer_value(signed_padded(n as int, 1)) == Some(n),
{
    let text = signed_padded(n as int, 1);
    assert(exists|k: i64| text == #[trigger] signed_padded(k as int, 1));
    let m = choose|k: i64| text == #[trigger] signed_padded(k as int, 1);
    lemma_signed_value(n as int);
    lemma_signed_value(m as int);
}

proof fn lemma_signed_value(n: int)
    ensures
        signed_padded(n, 1).len() >= 1,
        n < 0 ==> signed_padded(n, 1)[0] == '-' && digits_value(signed_padded(n, 1).skip(1)) == -n,
        n >= 0 ==> signed_padded(n, 1)[0] != '-' && digits_value(signed_padded(n, 1)) == n,
{
    if n < 0 {
        lemma_padded_reads_back(-n, 0);
        assert((seq!['-'] + padded(-n, 0)).skip(1) =~= padded(-n, 0));
    } else {
        lemma_padded_reads_back(n, 1);
        assert(ascii_digit(padded(n, 1)[0]));
    }
}

/// In a list of items each item stands for an event, and has the code 0 where it
/// says so.
pub proof fn lemma_hec_items_have_codes(items: Seq<Option<Seq<(Seq<char>, FieldView)>>>)
    ensures
        reply_of(Ok(JsonView::List(items))) is List,
        reply_of(Ok(JsonView::List(items)))->List_0.len() == items.len(),
        forall|i: int|
            0 <= i < items.len() ==> ((#[trigger] reply_of(
                Ok(JsonView::List(items)),
            )->List_0[i]) == Some(0i64) <==> has_code_0(items[i])),
{
}

proof fn lemma_accepted_of_more(codes: Seq<Option<i64>>, code: Option<i64>, k: int)
    requires
        0 <= k <= codes.len(),
    ensures
        accepted(codes.push(code), k) == accepted(codes, k),
    decreases k,
{
    if k > 0 {
        lemma_accepted_of_more(codes, code, k - 1);
    }
}

/// A batch that the OTLP receiver answers with a status of success is not sent
/// again: the records that the answer rejects have failed, all others are
/// delivered.
pub proof fn lemma_otlp_acceptance(
    status: u16,
    retry_after: Option<u64>,
    body: &Option<ExportLogsServiceResponse>,
    n: u64,
    bytes: u64,
    r: BatchResult,
)
    requires
        200 <= status <= 299,
        call_ensures(otel::response, (status, retry_after, body, n, bytes), r),
    ensures
        !r.retryable && !r.auth_error && r.retry_after is None && r.bytes == bytes,
        *body is None ==> r.succeeded == n && r.failed == 0,
        *body matches Some(b) ==> {
            &&& b.partial_success is None ==> r.succeeded == n && r.failed == 0
            &&& b.partial_success matches Some(p) ==> {
                &&& p.rejected_log_records is None ==> r.succeeded == n && r.failed == 0
                &&& p.rejected_log_records matches Some(k) ==> {
                    &&& k <= 0 ==> r.succeeded == n && r.failed == 0
                    &&& 0 < k <= n ==> r.succeeded == n - k && r.failed == k
                    &&& k > n ==> r.succeeded == 0 && r.failed == k
                }
            }
        },
        r.reason is Some <==> r.failed > 0,
{
}

/// A `Retry-After` header of a decimal number is that many seconds; one with
/// anything but digits in it says nothing.
pub proof fn lemma_retry_after_is_read(header: &str, n: u64, i: int, r: Option<u64>)
    requires
        call_ensures(retry_after_seconds, (header,), r),
    ensures
        header@ == decimal(n as int) ==> r == Some(n),
        0 < i < header@.len() && !ascii_digit(header@[i]) ==> r is None,
        header@.len() == 0 ==> r is None,
{
    lemma_decimal_texts_are_numbers(n as int, u64::MAX as int);
    if 0 < i < header@.len() && !ascii_digit(header@[i]) {
        lemma_other_texts_are_no_numbers(header@, i, u64::MAX as int);
    }
}

/// A batch that could not be sent may be sent again, and no event of it counts as
/// delivered.
pub proof fn lemma_network_failures_are_retried(
    timed_out: bool,
    message: &str,
    n: u64,
    r: BatchResult,
)
    requires
        call_ensures(network_failure, (timed_out, message, n), r),
    ensures
        r.retryable && !r.auth_error && r.retry_after is None,
        r.succeeded == 0 && r.failed == n && r.bytes == 0,
        r.reason is Some,
        timed_out ==> text_view(r.reason) == Some("request timed out"@),
{
}

// ---------------------------------------------------------------------------
// Sending again
// ---------------------------------------------------------------------------

/// A batch starts without a retry behind it.
pub proof fn lemma_batches_start_fresh(n: u64, retries: u32, fail_fast: bool, d: Dispatch)
    requires
        call_ensures(Dispatch::new, (n, retries, fail_fast), d),
    ensures
        d.n == n && d.retries == retries && d.fail_fast == fail_fast && d.attempt == 0,
{
}

/// What becomes of a batch after an answer: it is done when no event failed; an
/// authentication error is confirmed at once by one more send, and ends the run
/// when it comes again; another failure is waited out while it may pass and
/// retries are left, and ends the run only where the first failure is to.
pub proof fn lemma_failures_are_retried(d: Dispatch, r: BatchResult, s: Snapshot)
    ensures
        r.failed == 0 ==> dispatched(d, r, s).0 == (DispatchStep::Finished { fatal: false }),
        r.failed > 0 && r.auth_error && d.attempt == 0 ==> dispatched(d, r, s).0
            == DispatchStep::Resend,
        r.failed > 0 && r.auth_error && d.attempt > 0 ==> dispatched(d, r, s).0
            == (DispatchStep::Finished { fatal: true }),
        r.failed > 0 && !r.auth_error && r.retryable && d.attempt < d.retries ==> dispatched(
            d,
            r,
            s,
        ).0 == (DispatchStep::Wait {
            attempt: (d.attempt + 1) as u32,
            retry_after: r.retry_after,
        }),
        r.failed > 0 && !r.auth_error && (!r.retryable || d.attempt >= d.retries) ==> dispatched(
            d,
            r,
            s,
        ).0 == (DispatchStep::Finished { fatal: d.fail_fast }),
        !(dispatched(d, r, s).0 is Finished) ==> dispatched(d, r, s).1 == (Dispatch {
            attempt: (d.attempt + 1) as u32,
            ..d
        }),
{
}

/// What an answer adds to the counters, where they do not run over: the delivered
/// events, those of the batch that were not, or, where it is sent again, the whole
/// batch as retried.
pub proof fn lemma_outcomes_are_counted(d: Dispatch, r: BatchResult, s: Snapshot)
    requires
        s.sent + d.n + r.succeeded <= u64::MAX,
        s.failed + d.n <= u64::MAX,
        s.retried + d.n <= u64::MAX,
        s.bytes_sent + r.bytes <= u64::MAX,
        r.succeeded <= d.n,
    ensures
        ({
            let (step, after, t) = dispatched(d, r, s);
            &&& step is Finished && r.failed == 0 ==> t.sent == s.sent + d.n && t.failed == s.failed
            &&& step is Finished && r.failed > 0 ==> t.sent == s.sent + r.succeeded && t.failed
                == s.failed + d.n - r.succeeded
            &&& step is Finished ==> t.retried == s.retried && t.bytes_sent == s.bytes_sent
                + r.bytes
            &&& !(step is Finished) ==> t.retried == s.retried + d.n && t.sent == s.sent && t.failed
                == s.failed && t.bytes_sent == s.bytes_sent
            &&& t.requested == s.requested && t.generated == s.generated
            &&& t.ts_detected == s.ts_detected && t.ts_year_inferred == s.ts_year_inferred
            &&& t.malformed_lines == s.malformed_lines && t.encoding_errors == s.encoding_errors
        }),
{
}

// ---------------------------------------------------------------------------
// Delays
// ---------------------------------------------------------------------------

/// The limit of the delay is half a second before the first retry, doubles with
/// every further one, and stays at thirty seconds once it has come to them.
#[verifier::rlimit(40)]
pub proof fn lemma_limit_doubles(attempt: int)
    ensures
        attempt <= 1 ==> backoff_ceiling(attempt) == 500,
        attempt >= 1 ==> backoff_ceiling(attempt + 1) == (if 2 * backoff_ceiling(attempt)
            < 30_000 {
            2 * backoff_ceiling(attempt)
        } else {
            30_000
        }),
{
    reveal_with_fuel(doubled, 8);
    if attempt >= 7 {
        assert(backoff_ceiling(7) == 30_000);
        lemma_backoff_grows(7, attempt);
        lemma_backoff_grows(7, attempt + 1);
    }
}

/// A backoff is a part of its limit, to two nanoseconds: the upper 53 bits of the
/// draw as a fraction of one, but no less than a hundredth.
#[verifier::rlimit(40)]
pub proof fn lemma_backoff_follows_the_draw(attempt: int, state: u64)
    ensures
        ({
            let drawn = mixed(advanced(state)) as int / 2048 * 64;
            let share = if drawn < 5_764_607_523_034_235 {
                5_764_607_523_034_235
            } else {
                drawn
            };
            let whole = 0x800_0000_0000_0000int;
            let exact = backoff_ceiling(attempt) * 1_000_000 * share;
            -2 * whole <= backoff_nanos(attempt, state) * whole - exact <= 2 * whole
        }),
{
    let m = jitter(state);
    let w = backoff_ceiling(attempt) / 500;
    let x = w * m;
    let d = spacing(x);
    let p = nearest_double(x);
    let n = backoff_nanos(attempt, state);
    lemma_ceiling_steps(attempt);
    assert(0 <= x <= 60 * 0x800_0000_0000_0000) by (nonlinear_arith)
        requires
            x == w * m,
            1 <= w <= 60,
            0 <= m <= 0x800_0000_0000_0000,
    ;
    lemma_spacing(x);
    assert(1 <= d <= 8192);
    lemma_half_even(x, d, 0);
    assert(x - 8192 <= p <= x + 8192);
    assert(0 <= p) by (nonlinear_arith)
        requires
            p == half_even(x, d) * d,
            0 <= half_even(x, d),
            1 <= d,
    ;
    lemma_half_even(p * 1_000_000_000, 0x1000_0000_0000_0000, 0);
    assert(backoff_ceiling(attempt) == 500 * w);
    assert(backoff_ceiling(attempt) * 1_000_000 * m == 500_000_000 * x) by (nonlinear_arith)
        requires
            backoff_ceiling(attempt) == 500 * w,
            x == w * m,
    ;
}

/// The delay is the longest of three: the backoff, what the receiver asks for,
/// and ten milliseconds.
pub proof fn lemma_delay_is_the_longest(backoff: int, retry_after: Option<u64>)
    ensures
        delay_of(backoff, retry_after) >= backoff,
        delay_of(backoff, retry_after) >= 10_000_000,
        retry_after matches Some(s) ==> delay_of(backoff, retry_after) >= s * 1_000_000_000,
        delay_of(backoff, retry_after) == backoff || delay_of(backoff, retry_after) == 10_000_000
            || (retry_after matches Some(s) && delay_of(backoff, retry_after) == s * 1_000_000_000),
{
}

} // verus!
