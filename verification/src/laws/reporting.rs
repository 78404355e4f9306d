//! The counters of a run, and what is reported of it.

use vstd::prelude::*;

use crate::config::SimMode;
use crate::stats::{
    exit_code, run_warnings, texts, warning_lines, warnings_of, Snapshot, Stats, Summary,
};
use crate::text::decimal;

verus! {

broadcast use vstd::string::group_string_axioms;

// ---------------------------------------------------------------------------
// Counters
// ---------------------------------------------------------------------------

/// Requested events are counted as requested, and as nothing else.
pub proof fn lemma_requested_is_counted(s: &mut Stats, n: u64)
    requires
        old(s)@.requested + n <= u64::MAX,
        call_ensures(Stats::add_requested, (s, n), ()),
    ensures
        final(s)@ == (Snapshot { requested: (old(s)@.requested + n) as u64, ..old(s)@ }),
{
}

/// Generated events are counted as generated, and as nothing else.
pub proof fn lemma_generated_is_counted(s: &mut Stats, n: u64)
    requires
        old(s)@.generated + n <= u64::MAX,
        call_ensures(Stats::add_generated, (s, n), ()),
    ensures
        final(s)@ == (Snapshot { generated: (old(s)@.generated + n) as u64, ..old(s)@ }),
{
}

/// Failed events are counted as failed, and as nothing else.
pub proof fn lemma_failed_is_counted(s: &mut Stats, n: u64)
    requires
        old(s)@.failed + n <= u64::MAX,
        call_ensures(Stats::add_failed, (s, n), ()),
    ensures
        final(s)@ == (Snapshot { failed: (old(s)@.failed + n) as u64, ..old(s)@ }),
{
}

/// Retried events are counted as retried, and as nothing else.
pub proof fn lemma_retried_is_counted(s: &mut Stats, n: u64)
    requires
        old(s)@.retried + n <= u64::MAX,
        call_ensures(Stats::add_retried, (s, n), ()),
    ensures
        final(s)@ == (Snapshot { retried: (old(s)@.retried + n) as u64, ..old(s)@ }),
{
}

/// Malformed lines are counted as such, and as nothing else.
pub proof fn lemma_malformed_is_counted(s: &mut Stats, n: u64)
    requires
        old(s)@.malformed_lines + n <= u64::MAX,
        call_ensures(Stats::add_malformed, (s, n), ()),
    ensures
        final(s)@ == (Snapshot {
            malformed_lines: (old(s)@.malformed_lines + n) as u64,
            ..old(s)@
        }),
{
}

/// Lines that were not UTF-8 are counted as such, and as nothing else.
pub proof fn lemma_encoding_errors_is_counted(s: &mut Stats, n: u64)
    requires
        old(s)@.encoding_errors + n <= u64::MAX,
        call_ensures(Stats::add_encoding_errors, (s, n), ()),
    ensures
        final(s)@ == (Snapshot {
            encoding_errors: (old(s)@.encoding_errors + n) as u64,
            ..old(s)@
        }),
{
}

/// Sent events and their bytes are counted as such, and as nothing else.
pub proof fn lemma_sent_is_counted(s: &mut Stats, n: u64, m: u64)
    requires
        old(s)@.sent + n <= u64::MAX,
        old(s)@.bytes_sent + m <= u64::MAX,
        call_ensures(Stats::add_sent, (s, n, m), ()),
    ensures
        final(s)@ == (Snapshot {
            sent: (old(s)@.sent + n) as u64,
            bytes_sent: (old(s)@.bytes_sent + m) as u64,
            ..old(s)@
        }),
{
}

/// Events with a timestamp, and those of them whose year was inferred, are counted as
/// such, and as nothing else.
pub proof fn lemma_ts_detected_is_counted(s: &mut Stats, n: u64, m: u64)
    requires
        old(s)@.ts_detected + n <= u64::MAX,
        old(s)@.ts_year_inferred + m <= u64::MAX,
        call_ensures(Stats::add_ts_detected, (s, n, m), ()),
    ensures
        final(s)@ == (Snapshot {
            ts_detected: (old(s)@.ts_detected + n) as u64,
            ts_year_inferred: (old(s)@.ts_year_inferred + m) as u64,
            ..old(s)@
        }),
{
}

/// A counter that runs over starts again at zero.
pub proof fn lemma_counters_start_again(s: &mut Stats, n: u64)
    requires
        old(s)@.failed + n > u64::MAX,
        call_ensures(Stats::add_failed, (s, n), ()),
    ensures
        final(s)@.failed == old(s)@.failed + n - 0x1_0000_0000_0000_0000,
{
}

/// A run starts with all counters at zero, but that of the requested events.
pub proof fn lemma_counters_start_at_zero(requested: u64, s: Stats)
    requires
        call_ensures(Stats::new, (requested,), s),
    ensures
        s@.requested == requested,
        s@.generated == 0 && s@.sent == 0 && s@.failed == 0 && s@.retried == 0,
        s@.ts_detected == 0 && s@.ts_year_inferred == 0,
        s@.malformed_lines == 0 && s@.encoding_errors == 0 && s@.bytes_sent == 0,
{
}

/// What is read of the counters is what they are.
pub proof fn lemma_counters_are_read(
    s: Stats,
    requested: u64,
    generated: u64,
    sent: u64,
    failed: u64,
    all: Snapshot,
)
    requires
        call_ensures(Stats::requested, (&s,), requested),
        call_ensures(Stats::generated, (&s,), generated),
        call_ensures(Stats::sent, (&s,), sent),
        call_ensures(Stats::failed, (&s,), failed),
        call_ensures(Stats::snapshot, (&s,), all),
    ensures
        requested == s@.requested && generated == s@.generated && sent == s@.sent && failed
            == s@.failed,
        all == s@,
{
}

/// The summary of a run has its counters, its mode, its transport, its seed and
/// whether it was aborted, and warns of what the counters show.
pub proof fn lemma_summary_of_a_run(
    all: Snapshot,
    mode: SimMode,
    transport: &str,
    seed: u64,
    aborted: bool,
    r: Summary,
)
    requires
        call_ensures(Summary::new, (all, mode, transport, seed, aborted), r),
    ensures
        r.snapshot == all && r.aborted == aborted && r.seed == Some(seed),
        r.transport@ == transport@ && r.endpoint is None,
        mode == SimMode::Replay ==> r.mode@ == "replay"@,
        mode == SimMode::SyntheticToday ==> r.mode@ == "synthetic-today"@,
        texts(r.warnings@) == warnings_of(all, mode),
{
}

// ---------------------------------------------------------------------------
// Warnings
// ---------------------------------------------------------------------------

/// A run warns of failed events whenever there are some, and of low coverage
/// whenever a synthetic run found no timestamp in more than half of its events;
/// it warns of nothing else.
pub proof fn lemma_warnings_of_a_run(s: Snapshot, mode: SimMode, r: Vec<String>)
    requires
        call_ensures(run_warnings, (&s, mode), r),
    ensures
        ({
            let few = mode == SimMode::SyntheticToday && 2 * (s.generated - s.ts_detected)
                > s.generated;
            &&& s.failed == 0 && !few ==> r@.len() == 0
            &&& s.failed > 0 && !few ==> r@.len() == 1
            &&& s.failed == 0 && few ==> r@.len() == 1
            &&& s.failed > 0 && few ==> r@.len() == 2
            &&& s.failed > 0 ==> r@[0]@ == decimal(s.failed as int) + " events failed"@
            &&& few ==> r@.last()@ == "timestamp detection coverage low: "@ + decimal(
                s.ts_detected as int,
            ) + " / "@ + decimal(s.generated as int) + " events"@
        }),
{
    assert(texts(r@).len() == r@.len());
    if r@.len() > 0 {
        assert(texts(r@)[0] == r@[0]@);
        assert(texts(r@)[r@.len() - 1] == r@.last()@);
    }
}

/// A run that was not aborted ends with the code 0, whatever failed; one that was
/// ends with the code 2.
pub proof fn lemma_exit_codes(aborted: bool, r: i32)
    requires
        call_ensures(exit_code, (aborted,), r),
    ensures
        aborted ==> r == 2,
        !aborted ==> r == 0,
{
}

/// A warning has a line of its own behind the others.
pub proof fn lemma_warnings_have_lines(w: Seq<Seq<char>>, text: Seq<char>)
    ensures
        warning_lines(w.push(text), w.len() as int) == "warning: "@ + text + "\n"@,
{
    reveal_with_fuel(warning_lines, 2);
    assert(warning_lines(w.push(text), w.len() as int) =~= "warning: "@ + text + "\n"@);
}

} // verus!
