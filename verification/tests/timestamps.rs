use chrono::{DateTime, Datelike, Local, Utc};

use logpushi::clock::{utc_now, UtcTime};
use logpushi::json::Field;
use logpushi::moments::{resolve_no_year, settle, YEARS_TRIED};
use logpushi::sampling::Rng;
use logpushi::timestamp::{
    detect, parse, pick_field, render_at, retime_field, retime_number, syslog_host, transform,
    transform_at, transform_json, Aux, DetectedFormat, Moment, NewField, Zone, ZoneStyle,
};

/// Deterministic sample instant from a fixed seed.
fn seed_ts(seed: u64) -> UtcTime {
    let mut rng = Rng::new(seed);
    let anchor = utc_now();
    let start = anchor.minus_secs(3600).unwrap();
    let span = anchor.nanos_since(&start) as u64;
    start.plus_nanos(rng.next_u64() % span).unwrap()
}

fn chrono_of(t: UtcTime) -> DateTime<Utc> {
    DateTime::from_timestamp(t.seconds(), t.subsec_nanos()).unwrap()
}

fn at(secs: i64, nanos: u32) -> UtcTime {
    UtcTime::new(secs, nanos).unwrap()
}

/// 2024-02-29 12:34:56.789012345 UTC
fn leap_day() -> UtcTime {
    at(1_709_210_096, 789_012_345)
}

#[test]
fn iso_formats() {
    for line in [
        "2017-05-16 00:00:00.008 INFO boot",
        "2015-10-17T15:37:56Z INFO x",
        "2015-10-17 15:37:56,547 INFO y", // log4j comma millis
    ] {
        let m = detect(line).expect("detect");
        assert_eq!(m.format, DetectedFormat::Iso, "{line}");
    }
    // Explicit offset: UTC instant is exact.
    let m = detect("x 2015-10-17 15:37:56,547+0000 INFO y").unwrap();
    assert_eq!(
        chrono_of(m.ts).format("%Y-%m-%d %H:%M:%S%.3f").to_string(),
        "2015-10-17 15:37:56.547"
    );
}

#[test]
fn iso_transform_preserves_shape() {
    let line = "prefix 2017-05-16 00:00:00.008 suffix";
    let t = transform(line, seed_ts(1)).unwrap();
    assert!(t.body.ends_with(" suffix"));
    assert!(t.body.starts_with("prefix 20"));
    // Same rendered shape: only digits differ.
    let new_part = &t.body["prefix ".len()..t.body.len() - " suffix".len()];
    assert_eq!(new_part.len(), "2017-05-16 00:00:00.008".len());
    assert_eq!(&new_part[10..11], " ");
}

#[test]
fn apache_ctf() {
    let line = r#"127.0.0.1 - - [Thu Jun 09 06:07:04 2005] "GET /x HTTP/1.0" 200 2326"#;
    let m = detect(line).unwrap();
    assert_eq!(m.format, DetectedFormat::ApacheCtf);
    let new_ts = seed_ts(2);
    let t = transform(line, new_ts).unwrap();
    let rendered = &t.body[t.body.find('[').unwrap() + 1..t.body.find(']').unwrap()];
    assert_eq!(rendered.len(), "Thu Jun 09 06:07:04 2005".len());
    let local = chrono_of(new_ts).with_timezone(&Local);
    let want = format!("{} {}", local.format("%H:%M:%S"), local.year());
    assert!(
        rendered.ends_with(&want),
        "rendered={rendered:?} want={want:?}"
    );
    // Weekday name is a 3-letter English short form.
    assert_eq!(rendered.len(), "Thu Jun 09 06:07:04 2005".len());
}

#[test]
fn apache_clf() {
    let line = "10/Jun/2005:06:07:04 +0000 GET x";
    let m = detect(line).unwrap();
    assert_eq!(m.format, DetectedFormat::ApacheClf);
    let t = transform(line, seed_ts(3)).unwrap();
    // Slice before the trailing " GET x" (offset tail is part of the token).
    let space = t.body.find(" GET").unwrap();
    let out = &t.body[..space];
    assert_eq!(out.len(), "10/Jun/2005:06:07:04 +0000".len(), "{out}");
    assert!(out.ends_with(" +0000"));
}

#[test]
fn epoch_guard() {
    // BGL: leading standalone epoch qualifies.
    let line = "1117838570 2005.06.03 R02-M1N0C: APP_START";
    let m = detect(line).unwrap();
    assert_eq!(m.format, DetectedFormat::Epoch);
    assert_eq!((m.start, m.end), (0, 10));
    // HPC epoch mid-line.
    let m2 = detect("1145552216 DE 2004-11-08-11.41.12.317555").unwrap();
    assert_eq!(m2.format, DetectedFormat::Epoch);
    // Embedded in a longer token: must NOT match as epoch.
    let embedded = detect("id=1234567890 tail");
    assert!(embedded.is_none() || embedded.unwrap().format != DetectedFormat::Epoch);
    // Invalid UTF-8-free short tokens below range.
    assert!(detect("12345678 tail").is_none());
}

#[test]
fn syslog_no_year_inference() {
    let line = "Dec 10 06:55:46 LabSZ sshd[21705]: input_userauth_request";
    let (ts, fmt, inferred) = parse(line).unwrap();
    assert_eq!(fmt, DetectedFormat::SyslogNoYear);
    assert!(inferred);
    // Most recent past year: never in the future.
    assert!(chrono_of(ts) <= Utc::now());
    let new_ts = seed_ts(4);
    let t = transform(line, new_ts).unwrap();
    assert!(
        t.body.contains(" LabSZ sshd[21705]"),
        "the space after the timestamp must survive: {}",
        t.body
    );
    let month_names = [
        "Jan", "Feb", "Mar", "Apr", "May", "Jun", "Jul", "Aug", "Sep", "Oct", "Nov", "Dec",
    ];
    assert!(month_names.iter().any(|m| t.body.starts_with(*m)));
}

#[test]
fn health_app() {
    let line = "20171223-22:15:29:606|demo|e|u|None|n|onExtend:1514038530000|0.0|0";
    let m = detect(line).unwrap();
    assert_eq!(m.format, DetectedFormat::HealthApp);
    let t = transform(line, seed_ts(5)).unwrap();
    // Metric-like epoch value must NOT be corrupted (guarded detector).
    assert!(t.body.contains("onExtend:1514038530000"));
    assert!(!t.body.contains("20171223-"));
}

#[test]
fn proxifier_and_android() {
    let p = "[10.30 16:49:06] fx";
    let m = detect(p).unwrap();
    assert_eq!(m.format, DetectedFormat::Proxifier);
    let a = "12-17 19:31:36.263 I/app process";
    let m = detect(a).unwrap();
    assert_eq!(m.format, DetectedFormat::Android);
}

#[test]
fn json_transformation() {
    let line = r#"{"@timestamp": "2015-10-17T15:37:56Z", "level": "info", "msg": "1,000,000 excellent things", "count": 42}"#;
    let new_ts = seed_ts(6);
    let t = transform_json(line, new_ts).unwrap();
    let v: serde_json::Value = serde_json::from_str(&t.body).unwrap();
    let ts_out = v["@timestamp"].as_str().unwrap();
    assert!(!ts_out.contains("2015"));
    assert_eq!(v["level"], "info");
    assert_eq!(v["count"], 42);
    assert_eq!(v["msg"], "1,000,000 excellent things");
    // Key order preserved (preserve_order feature).
    assert!(t.body.find("\"@timestamp\"").unwrap() < t.body.find("\"level\"").unwrap());
}

#[test]
fn no_timestamp_passes_through() {
    assert!(parse("garbage with no timestamp at all").is_none());
}

#[test]
fn invalid_timestamp_values_rejected() {
    // month 13 in an ISO position must not parse as ISO
    if let Some((_, fmt, _)) = parse("2017-13-16 00:00:00 stuff") {
        assert_ne!(fmt, DetectedFormat::Iso);
    }
}

#[test]
fn transform_systematic_epoch_line() {
    let line = "1117838570 R02-M1N0C APP";
    let t = transform(line, seed_ts(7)).unwrap();
    // 3 tokens after: new epoch + rest preserved verbatim.
    let toks: Vec<&str> = t.body.split_whitespace().collect();
    assert_eq!(toks.len(), 3);
    assert_eq!(toks[1], "R02-M1N0C");
    assert_eq!(toks[2], "APP");
}

#[test]
fn syslog_host_extraction() {
    let src = "Dec 10 06:55:46 LabSZ sshd[1]: hi";
    let host = syslog_host(src);
    assert_eq!(host.unwrap(), "LabSZ", "src={src:?}");
    // Host token even when the process tag has no trailing colon.
    let h2 = syslog_host("Dec 10 06:55:46 host9 app");
    assert_eq!(h2.as_deref(), Some("host9"));
    assert_eq!(syslog_host("no host here"), None);
}

// ---------------------------------------------------------------------------
// Exact values
// ---------------------------------------------------------------------------

#[test]
fn instants_of_texts_with_a_zone() {
    for (line, secs, nanos) in [
        ("2015-10-17T15:37:56Z", 1_445_096_276, 0),
        ("2015-10-17T15:37:56z", 1_445_096_276, 0),
        ("2015-10-17T15:37:56+02:00", 1_445_089_076, 0),
        ("2015-10-17 15:37:56-0530", 1_445_116_076, 0),
        ("2015-10-17 15:37:56.5Z", 1_445_096_276, 500_000_000),
        ("2015-10-17 15:37:56.123456789Z", 1_445_096_276, 123_456_000),
        ("10/Jun/2005:06:07:04 +0000", 1_118_383_624, 0),
        ("10/Jun/2005:06:07:04 -0700", 1_118_408_824, 0),
        ("[Thu Jun 09 06:07:04 2005]", 1_118_297_224, 0),
        ("[Thu Jun  9 06:07:04 2005]", 1_118_297_224, 0),
        ("1117838570", 1_117_838_570, 0),
        ("1514038530123", 1_514_038_530, 123_000_000),
        ("20171223-22:15:29:606", 1_514_067_329, 606_000_000),
    ] {
        let (ts, _, inferred) = parse(line).expect(line);
        assert_eq!((ts.seconds(), ts.subsec_nanos()), (secs, nanos), "{line}");
        assert!(!inferred, "{line}");
    }
}

#[test]
fn texts_that_name_no_date_are_rejected() {
    for line in [
        "2015-02-30 00:00:00Z",
        "2015-10-17 24:00:00Z",
        "2015-10-17 15:37:60Z",
        "2015-10-17T15:37:56+02",
        "2015-10-17T15:37:56+24:00",
        "10/Foo/2005:06:07:04 +0000",
        "[Thu Foo 09 06:07:04 2005]",
        "Foo 10 06:55:46 host",
        "20171323-22:15:29:606",
        "[13.30 16:49:06]",
        "13-17 19:31:36.263",
        "99999999 x",
        "2145916801 x",
        "10000000000 x",
        "1234567890123456 x",
    ] {
        assert!(detect(line).is_none(), "{line}");
    }
}

#[test]
fn only_the_first_match_of_a_format_counts() {
    // The first ISO shape names no date, so the ISO detector finds nothing.
    assert!(detect("2017-13-16 00:00:00 then 2017-12-16 00:00:00").is_none());
    // A later, plausible epoch is found behind an implausible one.
    let m = detect("123 999999999999 1117838570 x").unwrap();
    assert_eq!((m.format, m.start, m.end), (DetectedFormat::Epoch, 17, 27));
}

#[test]
fn iso_wins_over_later_detectors() {
    let m = detect("1117838570 2015-10-17T15:37:56Z").unwrap();
    assert_eq!(m.format, DetectedFormat::Iso);
    assert_eq!((m.start, m.end), (11, 31));
}

#[test]
fn word_boundaries_guard_iso() {
    assert!(detect("x2015-10-17 15:37:56Z").is_none());
    assert!(detect("é2015-10-17 15:37:56Z").is_none());
    assert!(detect("-2015-10-17 15:37:56Z").is_some());
}

#[test]
fn spans_are_in_bytes() {
    let m = detect("äö 2015-10-17T15:37:56Z").unwrap();
    assert_eq!((m.start, m.end), (5, 25));
}

#[test]
fn digits_beyond_ascii_are_no_date() {
    assert!(detect("٢٠١٥-10-17 15:37:56Z").is_none());
}

fn transformed(line: &str, off: i32) -> String {
    transform_at(line, leap_day(), off).expect(line).body
}

#[test]
fn rendering_keeps_the_format() {
    for (line, off, want) in [
        ("a 2015-10-17T15:37:56Z b", 0, "a 2024-02-29T12:34:56Z b"),
        ("2015-10-17T15:37:56z", 0, "2024-02-29T12:34:56z"),
        ("2015-10-17T15:37:56+00:00", 0, "2024-02-29T12:34:56+00:00"),
        ("2015-10-17T15:37:56-0000", 0, "2024-02-29T12:34:56-0000"),
        ("2015-10-17T15:37:56+02:00", 0, "2024-02-29T14:34:56+02:00"),
        ("2015-10-17 15:37:56-0530", 0, "2024-02-29 07:04:56-0530"),
        ("2015-10-17 15:37:56.1Z", 0, "2024-02-29 12:34:56.7Z"),
        ("2015-10-17 15:37:56,547", 3600, "2024-02-29 13:34:56,789"),
        ("2015-10-17 15:37:56.1234", 0, "2024-02-29 12:34:56.7890"),
        ("2015-10-17 15:37:56.123456", 0, "2024-02-29 12:34:56.789012"),
        ("2015-10-17 15:37:56.123456789", 0, "2024-02-29 12:34:56.789012000"),
        ("[Thu Jun 09 06:07:04 2005] x", -3600, "[Thu Feb 29 11:34:56 2024] x"),
        ("10/Jun/2005:06:07:04 +0000 x", 0, "29/Feb/2024:12:34:56 +0000 x"),
        ("10/Jun/2005:06:07:04 -0700 x", 0, "29/Feb/2024:05:34:56 -0700 x"),
        ("1117838570 x", 0, "1709210096 x"),
        ("1514038530123 x", 0, "1709210096789 x"),
        ("Dec 10 06:55:46 x", 86400 - 1, "Mar  1 12:34:55 x"),
        ("Dec 10 06:55:46 x", 0, "Feb 29 12:34:56 x"),
        ("20171223-22:15:29:606|x", 0, "20240229-12:34:56:789|x"),
        ("12-17 19:31:36.263 x", 0, "02-29 12:34:56.789 x"),
        ("[10.30 16:49:06] x", 0, "[02.29 12:34:56] x"),
    ] {
        assert_eq!(transformed(line, off), want, "{line}");
    }
}

#[test]
fn rendered_timestamps_read_back() {
    for line in [
        "2015-10-17T15:37:56.123+02:00",
        "10/Jun/2005:06:07:04 -0700",
        "1514038530123",
        "20171223-22:15:29:606",
        "[Thu Jun 09 06:07:04 2005]",
    ] {
        let before = detect(line).unwrap();
        let body = transformed(line, 0);
        let after = detect(&body).unwrap();
        assert_eq!(after.format, before.format, "{line}");
        assert_eq!(after.aux, before.aux, "{line}");
        assert_eq!((after.start, after.end), (0, body.len()), "{line}");
        assert_eq!(after.ts.seconds(), leap_day().seconds(), "{line}");
    }
}

#[test]
fn only_digits_differ_in_a_transformed_iso_line() {
    let line = "ä 2015-10-17T15:37:56.123456789+02:00 1234567890 é";
    let body = transformed(line, 0);
    assert_eq!(body.chars().count(), line.chars().count());
    for (a, b) in line.chars().zip(body.chars()) {
        assert!(a == b || (a.is_ascii_digit() && b.is_ascii_digit()), "{body}");
    }
    assert!(body.starts_with("ä ") && body.ends_with(" 1234567890 é"));
}

#[test]
fn rendering_without_details_falls_back() {
    let mut m = detect("2015-10-17T15:37:56.123+02:00").unwrap();
    m.aux = Aux::Unit;
    assert_eq!(render_at(&m, leap_day(), 3600), "2024-02-29T12:34:56Z");
    m.format = DetectedFormat::ApacheClf;
    assert_eq!(
        render_at(&m, leap_day(), 3600),
        "29/Feb/2024:12:34:56 +0000"
    );
}

#[test]
fn zones_are_less_than_a_day() {
    assert!(Zone::new(86_400, ZoneStyle::UpperZ).is_none());
    assert!(Zone::new(-86_400, ZoneStyle::UpperZ).is_none());
    let z = Zone::new(-86_399, ZoneStyle::LowerZ).unwrap();
    assert_eq!((z.offset(), z.style()), (-86_399, ZoneStyle::LowerZ));
}

#[test]
fn format_names() {
    for (f, name) in [
        (DetectedFormat::Iso, "iso8601"),
        (DetectedFormat::ApacheCtf, "apache-ctf"),
        (DetectedFormat::ApacheClf, "apache-clf"),
        (DetectedFormat::Epoch, "epoch"),
        (DetectedFormat::SyslogNoYear, "syslog"),
        (DetectedFormat::HealthApp, "health-app"),
        (DetectedFormat::Android, "android"),
        (DetectedFormat::Proxifier, "proxifier"),
    ] {
        assert_eq!(f.name(), name);
    }
}

// ---------------------------------------------------------------------------
// Years and zones that the text does not name
// ---------------------------------------------------------------------------

fn utc_everywhere() -> Vec<Option<i32>> {
    vec![Some(0); YEARS_TRIED]
}

#[test]
fn the_most_recent_year_that_is_not_in_the_future() {
    // Now: 2024-03-01 00:00:00 UTC.
    let now = at(1_709_251_200, 0);
    let offs = utc_everywhere();
    // Dec 10 06:55:46 was last in 2023.
    let t = resolve_no_year(12, 10, 24_946, 0, &now, &offs);
    assert_eq!(t.seconds(), 1_702_191_346);
    // Feb 29 was last in this year.
    let t = resolve_no_year(2, 29, 0, 0, &now, &offs);
    assert_eq!(t.seconds(), 1_709_164_800);
    // Now itself is not in the future, a second later is.
    let t = resolve_no_year(3, 1, 0, 0, &now, &offs);
    assert_eq!(t.seconds(), 1_709_251_200);
    let t = resolve_no_year(3, 1, 1, 0, &now, &offs);
    assert_eq!(t.seconds(), 1_677_628_801);
}

#[test]
fn a_leap_day_is_found_in_the_last_leap_year() {
    // Now: 2027-01-01 00:00:00 UTC.
    let now = at(1_798_761_600, 0);
    let t = resolve_no_year(2, 29, 0, 5, &now, &utc_everywhere());
    assert_eq!((t.seconds(), t.subsec_nanos()), (1_709_164_800, 5));
}

#[test]
fn a_local_new_year_may_come_before_that_in_utc() {
    // Now: 2023-12-31 23:00:00 UTC, where the local clock is two hours ahead.
    let now = at(1_704_063_600, 0);
    let offs = vec![Some(7200); YEARS_TRIED];
    let t = resolve_no_year(1, 1, 1800, 0, &now, &offs);
    assert_eq!(t.seconds(), 1_704_061_800);
}

#[test]
fn without_a_year_the_reading_is_of_the_year_2000() {
    let now = at(1_709_251_200, 0);
    let none = vec![None; YEARS_TRIED];
    let t = resolve_no_year(12, 10, 24_946, 0, &now, &none);
    assert_eq!(t.seconds(), 976_431_346);
}

#[test]
fn moments_settle_by_zone_and_year() {
    let now = at(1_709_251_200, 0);
    let offs = utc_everywhere();
    let exact = Moment::Exact { secs: 5, nanos: 6 };
    assert_eq!(settle(exact, 3600, &now, &offs), at(5, 6));
    let zoneless = Moment::Zoneless { secs: 7200, nanos: 6 };
    assert_eq!(settle(zoneless, 3600, &now, &offs), at(3600, 6));
    let yearless = Moment::Yearless { month: 12, day: 10, tod: 24_946, nanos: 0 };
    assert_eq!(settle(yearless, 3600, &now, &offs).seconds(), 1_702_191_346);
}

#[test]
fn yearless_formats_infer_the_year() {
    for line in ["[10.30 16:49:06] fx", "12-17 19:31:36.263 I/app process"] {
        let m = detect(line).unwrap();
        assert!(m.year_inferred, "{line}");
        assert!(chrono_of(m.ts) <= Utc::now());
    }
}

#[test]
fn zoneless_texts_are_local() {
    let (ts, _, _) = parse("2015-10-17 15:37:56 x").unwrap();
    let off = Local::now().offset().local_minus_utc() as i64;
    assert_eq!(ts.seconds(), 1_445_096_276 - off);
    let (ts, format, _) = parse("[Thu Jun 09 06:07:04 2005] x").unwrap();
    assert_eq!(format, DetectedFormat::ApacheCtf);
    assert_eq!(ts, at(1_118_297_224 - off, 0));
    let (ts, format, _) = parse("20171223-22:15:29:606|x").unwrap();
    assert_eq!(format, DetectedFormat::HealthApp);
    assert_eq!(ts, at(1_514_067_329 - off, 606_000_000));
}

// ---------------------------------------------------------------------------
// JSON
// ---------------------------------------------------------------------------

#[test]
fn json_numbers_by_magnitude() {
    let t = leap_day();
    for (x, want) in [
        (2e9, Some(1_709_210_096_789)),
        (1_514_038_530_000.0, Some(1_709_210_096_789)),
        (-2e9, Some(1_709_210_096)),
        (1_999_999_999.5, None),
        (8e12, None),
        (7.999e12, Some(1_709_210_096_789)),
        (f64::INFINITY, None),
        (f64::NAN, None),
        (0.0, None),
    ] {
        assert_eq!(retime_number(Some(x.to_bits()), t), want, "{x}");
    }
    assert_eq!(retime_number(None, t), None);
}

#[test]
fn json_fields_are_rewritten_in_place() {
    let line = r#"{"a":1.5,"ts":1514038530000,"b":[1,{"c":null}],"time":"x"}"#;
    let t = transform_json(line, leap_day()).unwrap();
    assert_eq!(
        t.body,
        r#"{"a":1.5,"ts":1709210096789,"b":[1,{"c":null}],"time":"x"}"#
    );
    assert_eq!(t.ts, leap_day());
    let text = r#"{"z":true,"timestamp":"at 10/Jun/2005:06:07:04 +0000!"}"#;
    let t = transform_json(text, leap_day()).unwrap();
    assert_eq!(
        t.body,
        r#"{"z":true,"timestamp":"at 29/Feb/2024:12:34:56 +0000!"}"#
    );
}

#[test]
fn json_without_a_timestamp_is_left_alone() {
    for line in [
        "not json",
        "[1,2]",
        "42",
        r#"{"level":"info"}"#,
        r#"{"ts":1}"#,
        r#"{"ts":true}"#,
        r#"{"ts":null}"#,
        r#"{"ts":{"x":1}}"#,
        r#"{"ts":"no timestamp","time":"2015-10-17T15:37:56Z"}"#,
    ] {
        assert!(transform_json(line, leap_day()).is_none(), "{line}");
    }
}

#[test]
fn timestamp_keys_have_an_order() {
    let text = |s: &str| Field::Text(s.to_string());
    let e = vec![
        ("_time".to_string(), text("a")),
        ("ts".to_string(), text("b")),
        ("@timestamp".to_string(), text("c")),
    ];
    assert_eq!(pick_field(&e), Some(("@timestamp", 2)));
    let none = vec![("x".to_string(), Field::Bool(true))];
    assert_eq!(pick_field(&none), None);
    for (i, key) in ["timestamp", "@timestamp", "ts", "time", "date", "datetime", "_time"]
        .iter()
        .enumerate()
    {
        let e = vec![("x".to_string(), text("")), (key.to_string(), text("y"))];
        assert_eq!(pick_field(&e), Some((*key, 1)), "{i}");
    }
}

#[test]
fn fields_by_kind() {
    let field = Field::Text("x 1117838570".to_string());
    match retime_field(&field, leap_day(), 0) {
        Some(NewField::Text(s)) => assert_eq!(s, "x 1709210096"),
        _ => panic!("a text"),
    }
    let number = Field::Number {
        text: "-3000000000".to_string(),
        double: Some((-3e9f64).to_bits()),
        integer: Some(-3_000_000_000),
    };
    match retime_field(&number, leap_day(), 0) {
        Some(NewField::Integer(n)) => assert_eq!(n, 1_709_210_096),
        _ => panic!("a number"),
    }
    assert!(retime_field(&Field::Bool(true), leap_day(), 0).is_none());
    assert!(retime_field(&Field::Other("null".to_string()), leap_day(), 0).is_none());
}

// ---------------------------------------------------------------------------
// Hosts
// ---------------------------------------------------------------------------

#[test]
fn hosts_of_syslog_lines() {
    for (line, host) in [
        ("Jun  9 06:06:20 combo kernel", Some("combo")),
        ("Jun\t9\t06:06:20\tcombo", Some("combo")),
        ("éöü 10 06:55:46 h", Some("h")),
        ("Dec 10 06:55:46", None),
        ("Dec 10 06:55:46 ", None),
        ("Dec 100 06:55:46 host", None),
        ("Dec10 06:55:46 host", None),
        (" Dec 10 06:55:46 host", None),
        ("Dece 10 06:55:46 host", None),
    ] {
        assert_eq!(syslog_host(line).as_deref(), host, "{line}");
    }
}

// ---------------------------------------------------------------------------
// Instants
// ---------------------------------------------------------------------------

#[test]
fn instants_have_a_range() {
    assert!(UtcTime::new(-8_334_601_228_800, 0).is_some());
    assert!(UtcTime::new(-8_334_601_228_801, 0).is_none());
    assert!(UtcTime::new(8_210_266_876_799, 999_999_999).is_some());
    assert!(UtcTime::new(8_210_266_876_800, 0).is_none());
    assert!(UtcTime::new(0, 1_000_000_000).is_none());
    assert_eq!(chrono_of(at(-8_334_601_228_800, 0)), DateTime::<Utc>::MIN_UTC);
    let max = at(8_210_266_876_799, 999_999_999);
    assert_eq!(chrono_of(max), DateTime::<Utc>::MAX_UTC);
    assert!(max.plus_nanos(1).is_none());
    assert!(at(-8_334_601_228_800, 0).minus_secs(1).is_none());
}

#[test]
fn instants_add_up() {
    let t = at(-1, 500_000_000);
    assert_eq!(t.millis(), -500);
    assert_eq!(t.nanos_since_epoch(), Some(-500_000_000));
    assert_eq!(t.plus_nanos(500_000_000), Some(UtcTime::epoch()));
    assert_eq!(t.minus_secs(-1), Some(at(0, 500_000_000)));
    assert!(t.not_after(&UtcTime::epoch()));
    assert!(!UtcTime::epoch().not_after(&t));
    assert_eq!(UtcTime::epoch().nanos_since(&t), 500_000_000);
    assert_eq!(at(9_223_372_037, 0).nanos_since_epoch(), None);
}

#[test]
fn civil_dates() {
    let c = leap_day().civil_at(0);
    assert_eq!(
        (c.year, c.month, c.day, c.hour, c.minute, c.second, c.weekday),
        (2024, 2, 29, 12, 34, 56, 4)
    );
    let c = UtcTime::epoch().civil_at(-1);
    assert_eq!(
        (c.year, c.month, c.day, c.hour, c.minute, c.second, c.weekday),
        (1969, 12, 31, 23, 59, 59, 3)
    );
}

#[test]
fn transformed_lines_are_detected_again() {
    for line in [
        "x 2015-10-17 15:37:56,547+0530 INFO y",
        "- [Thu Jun 9 06:07:04 2005] GET",
        "2005-01-01 00:00:10/Jun/2005:06:07:04 -0930 GET",
        "id 1117838570 R02",
        "id\t1117838570123",
        "Dec  9 06:55:46 host app",
        "a|20171223-22:15:29:606|b",
        "2015-13-01 [10.30 16:49:06] fx",
        "at 12-17 19:31:36.263 I/app",
    ] {
        let before = detect(line).expect(line);
        let body = transformed(line, 7200);
        let after = detect(&body).expect(&body);
        assert_ne!(body, line);
        assert_eq!(after.format, before.format, "{body}");
        assert_eq!(after.aux, before.aux, "{body}");
        assert_eq!(after.start, before.start, "{body}");
        assert_eq!(transformed(&body, 7200), body);
    }
}

#[test]
fn a_part_of_no_date_may_become_a_part_of_one() {
    let line = "2005-02-29 19:31:36.263 x";
    assert_eq!(detect(line).unwrap().format, DetectedFormat::Android);
    let body = transform_at(line, at(1_710_000_000, 0), 0).unwrap().body;
    assert_eq!(body, "2005-03-09 16:00:00.000 x");
    assert_eq!(detect(&body).unwrap().format, DetectedFormat::Iso);
}
