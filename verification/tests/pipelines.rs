use std::time::Duration;

use logpushi::clock::{utc_now, UtcTime};
use logpushi::config::{Config, SimMode, TimeWindow};
use logpushi::event::{Event, RawEvent};
use logpushi::pipeline::{
    backoff_ceiling_ms, backoff_delay, build_event, full_batch, mode_str, queue_capacity,
    recent_window_span, retry_delay, today_start, worker_count, Dispatch, DispatchStep, GenCounters,
    Generator,
};
use logpushi::sampling::Rng;
use logpushi::stats::{exit_code, report_text, run_warnings, summary_text, Snapshot, Stats, Summary};
use logpushi::transport::BatchResult;

fn hours_before(t: UtcTime, n: i64) -> UtcTime {
    t.minus_secs(n * 3600).unwrap()
}

fn raw(line: &str, source_type: &'static str, line_no: u64) -> RawEvent {
    RawEvent {
        line: line.to_string(),
        source_file: "a.log".into(),
        source_type,
        line_no,
    }
}

#[test]
fn synthetic_instants_uniform_in_window() {
    // Statistical sanity: many draws stay strictly within [start, anchor].
    let mut rng = Rng::new(99);
    let anchor = utc_now();
    let start = hours_before(anchor, 1);
    let span = anchor.nanos_since(&start) as u64;
    for _ in 0..200 {
        let t = start.plus_nanos(rng.next_u64() % span).unwrap();
        assert!(start.not_after(&t) && t.not_after(&anchor));
    }
}

#[test]
fn build_event_replay_keeps_body_and_clears_ts() {
    let mut rng = Rng::new(5);
    let mut counters = GenCounters::default();
    let first = raw("2015-10-17 15:37:56 INFO x", "apache", 1);
    let second = raw("Dec 10 06:55:46 host-a app[1]: alpha", "linux-syslog", 2);
    let e = build_event(
        first,
        SimMode::Replay,
        utc_now().minus_secs(600).unwrap(),
        utc_now(),
        &mut rng,
        &mut counters,
    );
    assert!(e.timestamp.is_none());
    assert!(e.ts_detected);
    assert_eq!(e.body, "2015-10-17 15:37:56 INFO x");
    assert_eq!(counters.detected, 1);
    let e2 = build_event(
        second,
        SimMode::Replay,
        utc_now().minus_secs(600).unwrap(),
        utc_now(),
        &mut rng,
        &mut counters,
    );
    assert!(e2.ts_year_inferred, "syslog line infers the year");
    assert_eq!(counters.year_inferred, 1);
}

#[test]
fn build_event_synthetic_rewrites_detected_ts() {
    let mut rng = Rng::new(6);
    let mut counters = GenCounters::default();
    let anchor = utc_now();
    let window = hours_before(anchor, 2);
    let e = build_event(
        raw("2015-10-17 15:37:56 INFO x", "other", 1),
        SimMode::SyntheticToday,
        window,
        anchor,
        &mut rng,
        &mut counters,
    );
    let ts = e.timestamp.expect("timestamp");
    assert!(ts.not_after(&anchor) && window.not_after(&ts));
    // Only the timestamp span is rewritten; the remainder is preserved.
    assert!(e.body.ends_with(" INFO x"), "{}", e.body);
    assert!(!e.body.contains("2015-10-17"), "{}", e.body);
}

#[test]
fn build_event_synthetic_undetected_untouched() {
    let mut rng = Rng::new(7);
    let mut counters = GenCounters::default();
    let anchor = utc_now();
    let line = RawEvent {
        source_file: "q.log".into(),
        ..raw("no timestamps in here", "other", 3)
    };
    let e = build_event(
        line,
        SimMode::SyntheticToday,
        hours_before(anchor, 1),
        anchor,
        &mut rng,
        &mut counters,
    );
    assert!(e.timestamp.is_none());
    assert_eq!(e.body, "no timestamps in here");
    assert_eq!(counters.detected, 0);
}

#[test]
fn build_event_rewrites_json_fields() {
    let mut rng = Rng::new(8);
    let mut counters = GenCounters::default();
    let anchor = UtcTime::new(1_709_210_096, 0).unwrap();
    let line = r#"{"@timestamp": "2015-10-17T15:37:56Z", "level": "info", "msg": "value"}"#;
    let e = build_event(
        raw(line, "other", 3),
        SimMode::SyntheticToday,
        anchor,
        anchor,
        &mut rng,
        &mut counters,
    );
    assert_eq!(
        e.body,
        r#"{"@timestamp":"2024-02-29T12:34:56Z","level":"info","msg":"value"}"#
    );
    // An empty window draws nothing.
    assert_eq!(e.timestamp, Some(anchor));
    assert_eq!(rng.next_u64(), Rng::new(8).next_u64());
}

#[test]
fn build_event_draws_below_the_span() {
    let start = UtcTime::new(1_709_210_096, 0).unwrap();
    let anchor = UtcTime::new(1_709_210_097, 0).unwrap();
    let mut counters = GenCounters::default();
    let mut rng = Rng::new(9);
    let e = build_event(
        raw("1117838570 x", "other", 3),
        SimMode::SyntheticToday,
        start,
        anchor,
        &mut rng,
        &mut counters,
    );
    let drawn = Rng::new(9).next_u64() % 1_000_000_000;
    assert_eq!(e.timestamp, start.plus_nanos(drawn));
    assert_eq!(e.body, "1709210096 x");
}

#[test]
fn build_event_counts_what_it_notices() {
    let mut rng = Rng::new(1);
    let mut c = GenCounters::default();
    for line in [" \t", "bad \u{FFFD} byte", "Dec 10 06:55:46 h x", "", "2015-10-17T15:37:56Z"] {
        let now = utc_now();
        let e = build_event(raw(line, "other", 1), SimMode::Replay, now, now, &mut rng, &mut c);
        assert_eq!(e.body, line);
        assert_eq!((e.source_file.as_str(), e.source_type, e.line_no), ("a.log", "other", 1));
    }
    let want = GenCounters {
        malformed: 2,
        detected: 2,
        year_inferred: 1,
        encoding_errors: 1,
    };
    assert_eq!(c, want);
}

// ---------------------------------------------------------------------------
// The window
// ---------------------------------------------------------------------------

fn window(w: TimeWindow) -> Config {
    Config {
        recent_window: w,
        ..Default::default()
    }
}

#[test]
fn windows_end_at_the_anchor() {
    let anchor = UtcTime::new(1_709_210_096, 5).unwrap();
    let (start, end) = recent_window_span(&window(TimeWindow::Now), anchor);
    assert_eq!((start, end), (anchor, anchor));
    let (start, end) = recent_window_span(&window(TimeWindow::Seconds(300)), anchor);
    assert_eq!((start, end), (anchor.minus_secs(300).unwrap(), anchor));
    // A window beyond what a duration can hold is one of an hour.
    let w = TimeWindow::Seconds(9_223_372_036_854_776);
    let (start, _) = recent_window_span(&window(w), anchor);
    assert_eq!(start, anchor.minus_secs(3600).unwrap());
    let (start, end) = recent_window_span(&window(TimeWindow::Today), anchor);
    assert!(start.not_after(&end));
}

#[test]
fn today_starts_at_local_midnight() {
    // 2024-02-29 12:34:56 UTC
    let anchor = UtcTime::new(1_709_210_096, 5).unwrap();
    let midnight = 1_709_164_800;
    assert_eq!(today_start(anchor, 0, Some(0)).seconds(), midnight);
    assert_eq!(today_start(anchor, 3600, Some(3600)).seconds(), midnight - 3600);
    assert_eq!(today_start(anchor, 50_000, Some(0)).seconds(), midnight + 86_400);
    assert_eq!(today_start(anchor, 3600, None), anchor);
    let early = UtcTime::new(-1, 0).unwrap();
    assert_eq!(today_start(early, 0, Some(0)).seconds(), -86_400);
}

// ---------------------------------------------------------------------------
// Retries
// ---------------------------------------------------------------------------

#[test]
fn backoff_doubles_up_to_a_limit() {
    let want = [500, 500, 1000, 2000, 4000, 8000, 16_000, 30_000, 30_000];
    for (attempt, ms) in want.iter().enumerate() {
        assert_eq!(backoff_ceiling_ms(attempt as u32), *ms, "{attempt}");
    }
    assert_eq!(backoff_ceiling_ms(u32::MAX), 30_000);
}

#[test]
fn retry_after_is_honored_when_longer() {
    let ms = 1_000_000u64;
    assert_eq!(retry_delay(700 * ms, None), 700_000_000);
    assert_eq!(retry_delay(700 * ms, Some(0)), 700_000_000);
    assert_eq!(retry_delay(700 * ms, Some(2)), 2_000_000_000);
    assert_eq!(retry_delay(3, Some(0)), 10_000_000);
    assert_eq!(retry_delay(0, Some(u64::MAX)), u64::MAX as u128 * 1_000_000_000);
}

fn refused(n: u64, auth: bool, retryable: bool) -> BatchResult {
    BatchResult {
        auth_error: auth,
        ..BatchResult::none(n, retryable, "why")
    }
}

#[test]
fn a_delivered_batch_is_counted() {
    let mut stats = Stats::new(10);
    let mut d = Dispatch::new(5, 3, true);
    let step = d.result(&BatchResult::delivered(5, 70), &mut stats);
    assert_eq!(step, DispatchStep::Finished { fatal: false });
    assert_eq!((stats.sent(), stats.failed()), (5, 0));
    assert_eq!(stats.snapshot().bytes_sent, 70);
    // A batch without a failure counts as a whole.
    let step = Dispatch::new(5, 3, true).result(&BatchResult::delivered(2, 0), &mut stats);
    assert_eq!(step, DispatchStep::Finished { fatal: false });
    assert_eq!(stats.sent(), 10);
}

#[test]
fn transient_failures_are_retried() {
    let mut stats = Stats::new(10);
    let mut d = Dispatch::new(5, 2, false);
    let busy = BatchResult {
        retry_after: Some(4),
        ..refused(5, false, true)
    };
    for attempt in 1..=2 {
        let step = d.result(&busy, &mut stats);
        assert_eq!(
            step,
            DispatchStep::Wait {
                attempt,
                retry_after: Some(4)
            }
        );
    }
    let step = d.result(&busy, &mut stats);
    assert_eq!(step, DispatchStep::Finished { fatal: false });
    let s = stats.snapshot();
    assert_eq!((s.sent, s.failed, s.retried), (0, 5, 10));
}

#[test]
fn auth_failures_are_confirmed_once() {
    let mut stats = Stats::new(10);
    let mut d = Dispatch::new(5, 9, false);
    let auth = refused(5, true, true);
    assert_eq!(d.result(&auth, &mut stats), DispatchStep::Resend);
    assert_eq!(d.result(&auth, &mut stats), DispatchStep::Finished { fatal: true });
    let s = stats.snapshot();
    assert_eq!((s.sent, s.failed, s.retried), (0, 5, 5));
}

#[test]
fn partial_success_is_final() {
    let mut stats = Stats::new(10);
    let part = BatchResult {
        succeeded: 3,
        failed: 2,
        bytes: 40,
        ..refused(5, false, false)
    };
    let step = Dispatch::new(5, 9, true).result(&part, &mut stats);
    assert_eq!(step, DispatchStep::Finished { fatal: true });
    let s = stats.snapshot();
    assert_eq!((s.sent, s.failed, s.bytes_sent, s.retried), (3, 2, 40, 0));
}

#[test]
fn a_batch_counts_by_its_last_result() {
    let mut stats = Stats::new(10);
    let mut d = Dispatch::new(5, 3, true);
    let busy = refused(5, false, true);
    let part = BatchResult {
        succeeded: 4,
        failed: 1,
        bytes: 9,
        ..refused(5, false, false)
    };
    let steps: Vec<DispatchStep> = [&busy, &busy, &part]
        .iter()
        .map(|r| d.result(r, &mut stats))
        .collect();
    assert_eq!(steps[2], DispatchStep::Finished { fatal: true });
    let s = stats.snapshot();
    assert_eq!((s.sent, s.failed, s.retried, s.bytes_sent), (4, 1, 10, 9));
}

#[test]
fn generated_events_are_sent_or_failed() {
    let mut stats = Stats::new(7);
    let mut g = Generator::new(7, 3);
    let mut batches = Vec::new();
    loop {
        let step = g.step(false, false);
        batches.extend(step.send);
        if step.finished {
            break;
        }
        let n = g.generated;
        g.push(event(n));
    }
    let generated = g.generated;
    batches.extend(g.finish());
    assert!(batches.iter().all(|b| (1..=3).contains(&b.len())));
    // The workers count in any order.
    for (i, batch) in batches.iter().enumerate().rev() {
        let n = batch.len() as u64;
        let r = BatchResult {
            succeeded: n - 1,
            failed: 1,
            ..refused(n, false, i == 0)
        };
        let mut d = Dispatch::new(n, 2, false);
        while !matches!(d.result(&r, &mut stats), DispatchStep::Finished { .. }) {}
    }
    stats.add_generated(generated);
    let s = stats.snapshot();
    assert_eq!((s.requested, s.generated, s.sent, s.failed), (7, 7, 4, 3));
    assert_eq!(s.retried, 6);
}

#[test]
fn counters_do_not_mind_the_order() {
    let adds: [fn(&mut Stats); 5] = [
        |s| s.add_sent(3, 30),
        |s| s.add_failed(u64::MAX),
        |s| s.add_retried(4),
        |s| s.add_failed(2),
        |s| s.add_ts_detected(5, 1),
    ];
    let mut a = Stats::new(1);
    let mut b = Stats::new(1);
    for add in adds {
        add(&mut a);
    }
    for add in adds.iter().rev() {
        add(&mut b);
    }
    assert_eq!(a.snapshot(), b.snapshot());
    assert_eq!(a.snapshot(), a.snapshot());
    assert_eq!((a.sent(), a.failed()), (3, 1));
}

// ---------------------------------------------------------------------------
// Batches
// ---------------------------------------------------------------------------

fn event(n: u64) -> Event {
    Event {
        body: format!("{n}"),
        timestamp: None,
        observed: UtcTime::epoch(),
        severity: None,
        source_file: "a.log".into(),
        source_type: "generic",
        ts_detected: false,
        ts_year_inferred: false,
        line_no: n,
    }
}

fn bodies(batch: &[Event]) -> Vec<&str> {
    batch.iter().map(|e| e.body.as_str()).collect()
}

#[test]
fn lines_are_respected_across_batches() {
    let mut g = Generator::new(3, 2);
    let mut batches = Vec::new();
    let mut n = 0;
    loop {
        let step = g.step(false, false);
        if step.finished {
            break;
        }
        assert!(!step.stop_timer);
        batches.extend(step.send);
        n += 1;
        let first = g.push(event(n));
        assert_eq!(first, n != 2);
    }
    assert_eq!(g.generated, 3);
    batches.extend(g.finish());
    assert_eq!(batches.len(), 2);
    assert_eq!(bodies(&batches[0]), ["1", "2"]);
    assert_eq!(bodies(&batches[1]), ["3"]);
}

#[test]
fn a_waiting_batch_is_flushed() {
    let mut g = Generator::new(9, 5);
    let step = g.step(false, true);
    assert!(step.stop_timer && step.send.is_none() && !step.finished);
    assert!(g.push(event(1)));
    let step = g.step(false, true);
    assert!(step.stop_timer);
    assert_eq!(bodies(&step.send.unwrap()), ["1"]);
    assert!(g.push(event(2)));
    assert!(g.step(true, true).finished);
    assert_eq!(bodies(&g.finish().unwrap()), ["2"]);
    assert!(Generator::new(9, 5).finish().is_none());
}

#[test]
fn sizes_of_a_run() {
    let cfg = Config {
        workers: 0,
        batch_size: 0,
        mode: SimMode::SyntheticToday,
        ..Default::default()
    };
    assert_eq!((worker_count(&cfg), full_batch(&cfg)), (1, 1));
    assert_eq!(mode_str(&cfg), "synthetic-today");
    let cfg = Config::default();
    assert_eq!((worker_count(&cfg), full_batch(&cfg)), (4, 100));
    assert_eq!(mode_str(&cfg), "replay");
    assert_eq!((queue_capacity(1), queue_capacity(2), queue_capacity(3)), (4, 4, 6));
}

// ---------------------------------------------------------------------------
// Statistics
// ---------------------------------------------------------------------------

#[test]
fn counters_add_up() {
    let mut s = Stats::new(10);
    s.add_requested(1);
    s.add_generated(2);
    s.add_sent(3, 4);
    s.add_failed(5);
    s.add_retried(6);
    s.add_ts_detected(7, 8);
    s.add_malformed(9);
    s.add_encoding_errors(10);
    let want = Snapshot {
        requested: 11,
        generated: 2,
        sent: 3,
        failed: 5,
        retried: 6,
        ts_detected: 7,
        ts_year_inferred: 8,
        malformed_lines: 9,
        encoding_errors: 10,
        bytes_sent: 4,
    };
    assert_eq!(s.snapshot(), want);
    assert_eq!(
        (s.requested(), s.generated(), s.sent(), s.failed()),
        (11, 2, 3, 5)
    );
    s.add_sent(u64::MAX, 0);
    assert_eq!(s.sent(), 2);
}

fn counts(generated: u64, detected: u64, failed: u64) -> Snapshot {
    let mut s = Stats::new(generated);
    s.add_generated(generated);
    s.add_ts_detected(detected, 0);
    s.add_failed(failed);
    s.snapshot()
}

#[test]
fn warnings_of_a_run() {
    assert!(run_warnings(&counts(10, 5, 0), SimMode::SyntheticToday).is_empty());
    assert!(run_warnings(&counts(10, 0, 0), SimMode::Replay).is_empty());
    assert_eq!(
        run_warnings(&counts(10, 4, 3), SimMode::SyntheticToday),
        [
            "3 events failed",
            "timestamp detection coverage low: 4 / 10 events"
        ]
    );
    assert!(run_warnings(&counts(1, 2, 0), SimMode::SyntheticToday).is_empty());
}

#[test]
fn exit_codes() {
    assert_eq!((exit_code(false), exit_code(true)), (0, 2));
}

#[test]
fn printed_summaries() {
    let mut sum = Summary::new(counts(10, 4, 3), SimMode::Replay, "hec", 7, true);
    assert_eq!((sum.mode.as_str(), sum.transport.as_str()), ("replay", "hec"));
    assert_eq!((sum.seed, sum.aborted, sum.endpoint.is_none()), (Some(7), true, true));
    let text = summary_text(&sum, "1.50s", "6");
    assert!(text.contains("\nSeed:              7\nEvents requested:  10\n"), "{text}");
    assert!(text.contains("\nEndpoint:          -\n"));
    assert!(text.contains("\nElapsed:           1.50s\nRate:              6 events/s\n"));
    assert!(text.ends_with("─\nwarning: 3 events failed\n"));
    let report = report_text(&sum, "4 B", "1.50", "6");
    assert!(report.starts_with("Logpushi summary\n------"));
    assert!(report.contains("\nBytes sent:        4 B\nElapsed:           1.50s\n"));
    assert!(report.ends_with(
        "Rate:              6 events/sec\nStatus:            ABORTED\nwarning: 3 events failed\n"
    ));
    sum.seed = None;
    sum.aborted = false;
    sum.warnings.clear();
    assert!(report_text(&sum, "", "", "").contains("\n Seed:              auto\n"));
    assert!(report_text(&sum, "", "", "").ends_with(" events/sec\n"));
}

#[test]
fn backoff_delay_growth_and_jitter() {
    let mut rng = Rng::new(42);
    for attempt in 1..=6u32 {
        let d = Duration::from_nanos(backoff_delay(attempt, &mut rng));
        assert!(d <= Duration::from_secs(30));
        assert!(d >= Duration::ZERO);
    }
    // Deterministic with the same seed.
    let mut a = Rng::new(1);
    let mut b = Rng::new(1);
    assert_eq!(
        backoff_delay(3, &mut a),
        backoff_delay(3, &mut b),
        "same seed must give the same jitter"
    );
}

#[test]
fn backoff_delays_are_products_of_doubles() {
    let mut rng = Rng::new(5);
    for i in 0..200_000u32 {
        let attempt = i % 16;
        let mut same = rng;
        let fraction = (same.next_u64() >> 11) as f64 / (1u128 << 53) as f64;
        let want = Duration::from_millis(backoff_ceiling_ms(attempt))
            .mul_f64(fraction.max(0.01))
            .min(Duration::from_secs(30));
        let got = Duration::from_nanos(backoff_delay(attempt, &mut rng));
        assert_eq!(got, want, "{attempt} {fraction}");
    }
}
