//! Events: what becomes of a line, when an event is said to have happened, and
//! how events are gathered into batches.

use vstd::prelude::*;

use vstd::arithmetic::div_mod::lemma_small_mod;

use crate::clock::{in_range, whole_seconds, UtcTime};
use crate::config::{Config, SimMode, TimeWindow};
use crate::detectors::scan;
use crate::event::{detect_severity, name_view, stamp_of, Event, RawEvent};
use crate::json::{field_of, json_double, json_text, json_value, with_field, FieldView, JsonView};
use crate::laws::naming::{lemma_lines_without_keywords_have_no_severity, severity_keywords};
use crate::laws::sampling::lemma_every_value_is_drawn;
use crate::laws::texts::lemma_trimmed_to_nothing;
use crate::pipeline::{
    build_event, drawn_instant, full_batch, queue_capacity, recent_window_span, today_of,
    worker_count, GenCounters, GenStep, Generator,
};
use crate::sampling::{advanced, mixed, Rng};
use crate::text::{contains, signed_padded, white_space};
use crate::timestamp::{chosen_key, retimed_number};

verus! {

// ---------------------------------------------------------------------------
// Lines
// ---------------------------------------------------------------------------

/// What is detected of a line is the level of its first keyword: no level only
/// where it has none, and an error wherever it has `ERROR` and no `FATAL`.
pub proof fn lemma_detected_severity(line: &str, r: Option<&'static str>)
    requires
        call_ensures(detect_severity, (line,), r),
    ensures
        contains(line@, "FATAL"@) ==> name_view(r) == Some("FATAL"@),
        !contains(line@, "FATAL"@) && contains(line@, "ERROR"@) ==> name_view(r) == Some("ERROR"@),
        forall|k: int|
            0 <= k < severity_keywords().len() && contains(
                line@,
                #[trigger] severity_keywords()[k].0,
            ) ==> r is Some,
{
    lemma_lines_without_keywords_have_no_severity(line@);
}

/// An event keeps what its line is known by: the file, its dataset family and the
/// number of the line; and it has the severity that the line names.
pub proof fn lemma_event_is_of_its_line(
    raw: RawEvent,
    mode: SimMode,
    window_start: UtcTime,
    anchor: UtcTime,
    rng: &mut Rng,
    counters: &mut GenCounters,
    e: Event,
)
    requires
        call_ensures(build_event, (raw, mode, window_start, anchor, rng, counters), e),
    ensures
        e.source_file@ == raw.source_file@,
        e.source_type == raw.source_type,
        e.line_no == raw.line_no,
        contains(raw.line@, "FATAL"@) ==> name_view(e.severity) == Some("FATAL"@),
        !contains(raw.line@, "FATAL"@) && contains(raw.line@, "ERROR"@) ==> name_view(e.severity)
            == Some("ERROR"@),
        e.ts_detected == (scan(raw.line@) is Some),
        e.ts_year_inferred ==> e.ts_detected,
{
}

/// A replayed event has the line for its body, to the letter, and no timestamp of
/// its own, so that the time of sending stands for it; and it takes no draw.
pub proof fn lemma_replayed_event_is_verbatim(
    raw: RawEvent,
    window_start: UtcTime,
    anchor: UtcTime,
    rng: &mut Rng,
    counters: &mut GenCounters,
    e: Event,
)
    requires
        call_ensures(
            build_event,
            (raw, SimMode::Replay, window_start, anchor, rng, counters),
            e,
        ),
    ensures
        e.body@ == raw.line@,
        e.timestamp is None,
        stamp_of(e) == e.observed,
        final(rng)@ == old(rng)@,
{
}

/// A synthetic event happened in the window, at a draw modulo the length of the
/// window; where no timestamp was rewritten, the body is the line and there is
/// none.
pub proof fn lemma_synthetic_event_is_in_the_window(
    raw: RawEvent,
    window_start: UtcTime,
    anchor: UtcTime,
    rng: &mut Rng,
    counters: &mut GenCounters,
    e: Event,
)
    requires
        call_ensures(
            build_event,
            (raw, SimMode::SyntheticToday, window_start, anchor, rng, counters),
            e,
        ),
        0 < anchor@ - window_start@ <= i64::MAX,
    ensures
        final(rng)@ == advanced(old(rng)@),
        match e.timestamp {
            Some(ts) => window_start@ <= ts@ < anchor@ && ts@ == window_start@ + mixed(
                advanced(old(rng)@),
            ) as int % (anchor@ - window_start@) && stamp_of(e) == ts,
            None => e.body@ == raw.line@ && scan(raw.line@) is None,
        },
{
}

/// In a JSON line the timestamp of the object goes before one that stands
/// elsewhere in the line: where the object has a number for one, the body is the
/// object with the new number.
#[verifier::rlimit(40)]
pub proof fn lemma_objects_go_first(
    raw: RawEvent,
    window_start: UtcTime,
    anchor: UtcTime,
    rng: &mut Rng,
    counters: &mut GenCounters,
    e: Event,
    fields: Seq<(Seq<char>, FieldView)>,
    n: Seq<char>,
    v: int,
)
    requires
        call_ensures(
            build_event,
            (raw, SimMode::SyntheticToday, window_start, anchor, rng, counters),
            e,
        ),
        json_value(raw.line@) == Ok::<JsonView, Seq<char>>(JsonView::Object(fields)),
        chosen_key(fields, 0) is Some,
        field_of(fields, chosen_key(fields, 0)->0) == Some(FieldView::Number(n)),
        retimed_number(json_double(n), drawn_instant(window_start@, anchor@, old(rng)@)) == Some(v),
        json_text(
            with_field(fields, chosen_key(fields, 0)->0, FieldView::Number(signed_padded(v, 1))),
        ) is Some,
    ensures
        e.timestamp is Some,
        Some(e.body@) == json_text(
            with_field(fields, chosen_key(fields, 0)->0, FieldView::Number(signed_padded(v, 1))),
        ),
{
}

/// In an empty window every synthetic event happens at its start, and takes no
/// draw.
pub proof fn lemma_empty_window_is_its_start(
    raw: RawEvent,
    window_start: UtcTime,
    anchor: UtcTime,
    rng: &mut Rng,
    counters: &mut GenCounters,
    e: Event,
)
    requires
        call_ensures(
            build_event,
            (raw, SimMode::SyntheticToday, window_start, anchor, rng, counters),
            e,
        ),
        anchor@ <= window_start@,
    ensures
        final(rng)@ == old(rng)@,
        e.timestamp matches Some(ts) ==> ts@ == window_start@,
{
}

/// The time that stands for an event is its timestamp, or else the time when it
/// was generated.
pub proof fn lemma_stamp_of_an_event(e: Event, r: UtcTime)
    requires
        call_ensures(Event::stamp, (&e,), r),
    ensures
        e.timestamp matches Some(t) ==> r == t,
        e.timestamp is None ==> r == e.observed,
{
}

/// Every instant of a window is drawn in some state, from its start up to its end.
pub proof fn lemma_every_instant_is_drawn(start: int, anchor: int, t: int)
    requires
        start <= t < anchor,
        anchor - start <= i64::MAX,
    ensures
        exists|state: u64| #[trigger] drawn_instant(start, anchor, state) == t,
{
    lemma_every_value_is_drawn((t - start) as u64);
    let state = choose|state: u64| #[trigger] mixed(advanced(state)) == (t - start) as u64;
    lemma_small_mod((t - start) as nat, (anchor - start) as nat);
    assert(drawn_instant(start, anchor, state) == t);
}

/// What is noticed of a line: that it is blank exactly when every character is
/// white space, that it was not UTF-8 when it has the replacement character, and
/// that a timestamp, or one without a year, is detected in it.
#[verifier::rlimit(40)]
pub proof fn lemma_lines_are_counted(
    raw: RawEvent,
    mode: SimMode,
    window_start: UtcTime,
    anchor: UtcTime,
    rng: &mut Rng,
    counters: &mut GenCounters,
    e: Event,
)
    requires
        old(counters).malformed < u64::MAX,
        old(counters).detected < u64::MAX,
        old(counters).year_inferred < u64::MAX,
        old(counters).encoding_errors < u64::MAX,
        call_ensures(build_event, (raw, mode, window_start, anchor, rng, counters), e),
    ensures
        final(counters).malformed == old(counters).malformed + (if (forall|i: int|
            0 <= i < raw.line@.len() ==> white_space(#[trigger] raw.line@[i])) {
            1int
        } else {
            0
        }),
        final(counters).encoding_errors == old(counters).encoding_errors + (if raw.line@.contains(
            '\u{FFFD}',
        ) {
            1int
        } else {
            0
        }),
        final(counters).detected == old(counters).detected + (if e.ts_detected {
            1int
        } else {
            0
        }),
        final(counters).year_inferred == old(counters).year_inferred + (if e.ts_year_inferred {
            1int
        } else {
            0
        }),
{
    lemma_trimmed_to_nothing(raw.line@);
}

// ---------------------------------------------------------------------------
// Windows
// ---------------------------------------------------------------------------

/// The window of a run ends at the anchor and has the length that was asked for,
/// or an hour where that is too long to count with.
pub proof fn lemma_window_has_its_length(cfg: Config, anchor: UtcTime, r: (UtcTime, UtcTime))
    requires
        call_ensures(recent_window_span, (&cfg, anchor), r),
    ensures
        r.1@ == anchor@,
        cfg.recent_window is Now ==> r.0@ == anchor@,
        cfg.recent_window matches TimeWindow::Seconds(n) ==> {
            &&& n <= 9_223_372_036_854_775 ==> anchor@ - r.0@ == n * 1_000_000_000
            &&& n > 9_223_372_036_854_775 ==> anchor@ - r.0@ == 3_600_000_000_000
        },
{
}

/// Where the local clock does not show midnight, today starts at the instant.
pub proof fn lemma_today_without_midnight(anchor: int, off: int)
    ensures
        today_of(anchor, off, None) == anchor,
{
}

/// Today starts at a local midnight, and not a whole day before the instant,
/// where the local clock is not set anew on that day.
pub proof fn lemma_today_starts_at_midnight(anchor: int, off: int)
    requires
        -86400 < off < 86400,
        in_range(today_of(anchor, off, Some(off as i32))),
        today_of(anchor, off, Some(off as i32)) != anchor,
    ensures
        ({
            let start = today_of(anchor, off, Some(off as i32));
            &&& (start / 1_000_000_000 + off) % 86400 == 0
            &&& start % 1_000_000_000 == 0
            &&& start <= anchor < start + 86_400_000_000_000
        }),
{
    let local = whole_seconds(anchor) + off;
    let midnight = local - local % 86400;
    let start = today_of(anchor, off, Some(off as i32));
    assert(start == (midnight - off) * 1_000_000_000);
    assert(start / 1_000_000_000 == midnight - off);
    assert(midnight % 86400 == 0);
}

// ---------------------------------------------------------------------------
// Batches
// ---------------------------------------------------------------------------

/// A run has the workers and the batch size that were asked for, but at least one
/// of each, and room for two batches for every worker, but at least for four.
pub proof fn lemma_run_sizes(cfg: Config, workers: usize, size: usize, room: usize)
    requires
        call_ensures(worker_count, (&cfg,), workers),
        call_ensures(full_batch, (&cfg,), size),
        2 * workers <= usize::MAX,
        call_ensures(queue_capacity, (workers,), room),
    ensures
        cfg.workers > 0 ==> workers == cfg.workers,
        cfg.workers == 0 ==> workers == 1,
        cfg.batch_size > 0 ==> size == cfg.batch_size,
        cfg.batch_size == 0 ==> size == 1,
        room >= 4,
        room >= 2 * workers,
        room == 4 || room == 2 * workers,
{
}

/// The generator ends when it has generated all lines or is stopped. Until then it
/// sends a full batch at once, and one that is not full when its time has run out,
/// and never an empty one.
pub proof fn lemma_batches_are_sent(
    g: &mut Generator,
    stop: bool,
    flush_due: bool,
    r: GenStep,
)
    requires
        old(g).wf(),
        call_ensures(Generator::step, (g, stop, flush_due), r),
    ensures
        r.finished <==> stop || old(g).generated == old(g).lines,
        !r.finished && old(g).buffer@.len() == old(g).batch_size ==> r.send is Some,
        !r.finished && flush_due && old(g).buffer@.len() > 0 ==> r.send is Some,
        r.finished || old(g).buffer@.len() == 0 ==> r.send is None,
        !flush_due && old(g).buffer@.len() < old(g).batch_size ==> r.send is None,
        r.send matches Some(b) ==> b@ == old(g).buffer@ && final(g).buffer@.len() == 0,
        r.send is None ==> final(g).buffer@ == old(g).buffer@,
        r.stop_timer ==> flush_due,
{
}

/// An event that is taken waits behind the others, and starts the timer when it
/// is the first of its batch.
pub proof fn lemma_events_wait_in_order(g: &mut Generator, e: Event, r: bool)
    requires
        old(g).wf(),
        call_ensures(Generator::push, (g, e), r),
    ensures
        final(g).buffer@ == old(g).buffer@.push(e),
        final(g).generated == old(g).generated + 1,
        r <==> final(g).buffer@ == seq![e],
{
    assert(seq![e].len() == 1);
    if old(g).buffer@.len() == 0 {
        assert(final(g).buffer@ =~= seq![e]);
    }
}

} // verus!
