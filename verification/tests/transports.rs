use logpushi::clock::{utc_now, UtcTime};
use logpushi::config::{Config, TransportKind};
use logpushi::event::{detect_severity, Event};
use logpushi::transport::hec::{
    hec_time_parts, network_failure, normalize_hec_url, read_reply, response, sanitize, tally,
    Reply, SplunkHecTransport,
};
use logpushi::transport::otel::{
    self, any_value, build_request, normalize_otel_url, severity_number, to_log_record, AnyValue,
    ExportLogsPartialSuccess, ExportLogsServiceResponse, OtelTransport,
};
use logpushi::transport::stdout::StdoutTransport;
use logpushi::transport::{build, refusal, retry_after_seconds, BatchResult, Transport};

fn transport() -> SplunkHecTransport {
    SplunkHecTransport::new(
        "https://splunk.example.com",
        "TOKEN".to_string(),
        Some("idx-test".to_string()),
        None,
        None,
        "fallback-host",
    )
    .unwrap()
}

fn millis(ms: i64) -> UtcTime {
    UtcTime::new(ms.div_euclid(1000), (ms.rem_euclid(1000) * 1_000_000) as u32).unwrap()
}

fn ev(body: &str) -> Event {
    Event {
        body: body.into(),
        timestamp: Some(millis(1731916800123)),
        observed: millis(1731916800123),
        severity: detect_severity("2015-10-17 15:37:56 INFO x"),
        source_file: "sub/dir/a.log".into(),
        source_type: "hadoop",
        ts_detected: true,
        ts_year_inferred: false,
        line_no: 12,
    }
}

fn otel_ev(body: &str) -> Event {
    Event {
        body: body.into(),
        timestamp: Some(utc_now()),
        observed: utc_now(),
        severity: Some("ERROR"),
        source_file: "x/app.log".into(),
        source_type: "linux-syslog",
        ts_detected: true,
        ts_year_inferred: false,
        line_no: 4,
    }
}

#[test]
fn envelope_shape() {
    let t = transport();
    let env = t.envelope(&ev("hello world"));
    assert!(env.time.secs > 0);
    assert!(env.time.millis > 0, "millis kept");
    assert_eq!(env.host, "fallback-host");
    assert_eq!(env.source, "sub/dir/a.log");
    assert_eq!(env.sourcetype, "hadoop");
    assert_eq!(env.index.as_deref(), Some("idx-test"));
    assert_eq!(env.event, "hello world");
}

#[test]
fn envelope_uses_syslog_host_when_present() {
    let t = transport();
    let env = t.envelope(&ev("Dec 10 06:55:46 LabSZ sshd[1]: hi"));
    assert_eq!(env.host, "LabSZ");
}

#[test]
fn envelope_time_falls_back_to_observed() {
    let t = transport();
    let mut e = ev("x");
    e.timestamp = None;
    e.observed = millis(1731916800456);
    let env = t.envelope(&e);
    assert_eq!(env.time, hec_time_parts(e.observed));
}

#[test]
fn normalize_hec_url_appends_event_path() {
    assert_eq!(
        normalize_hec_url("https://splunk.example.com").unwrap(),
        "https://splunk.example.com/services/collector/event"
    );
    assert_eq!(
        normalize_hec_url("http://host:8088/").unwrap(),
        "http://host:8088/services/collector/event"
    );
    assert_eq!(
        normalize_hec_url("https://example.com/services/collector/event").unwrap(),
        "https://example.com/services/collector/event"
    );
}

#[test]
fn hec_time_is_secs_with_millis() {
    let t = millis(1731916800123);
    let parts = hec_time_parts(t);
    assert_eq!((parts.secs, parts.millis), (1731916800, 123));
    let time = parts.secs as f64 + parts.millis as f64 / 1_000.0;
    assert!((time - 1731916800.123).abs() < 1e-6);
}

#[test]
fn log_record_fields() {
    let r = to_log_record(&otel_ev("boom"), "svc", "dh", 7);
    assert!(r.time_unix_nano > 0);
    assert!(r.observed_time_unix_nano > 0);
    assert_eq!(
        r.severity_number,
        Some(17),
        "ERROR → SeverityNumber 17 per OTLP"
    );
    assert_eq!(r.severity_text.as_deref(), Some("ERROR"));
    match &r.body {
        Some(AnyValue {
            value: Some(any_value::Value::StringValue(s)),
        }) => assert_eq!(s, "boom"),
        other => panic!("bad body {other:?}"),
    }
    let keys: Vec<String> = r.attributes.iter().map(|a| a.key.clone()).collect();
    assert!(keys.contains(&"log.file.name".to_string()));
    assert!(keys.contains(&"source.type".to_string()));
}

#[test]
fn build_request_bundles_resource_and_records() {
    let req = build_request(&[otel_ev("a"), otel_ev("b")], "logpushi", "host", 3);
    let rl = &req.resource_logs[0];
    match &rl.resource.as_ref().unwrap().attributes[0].value {
        Some(AnyValue {
            value: Some(any_value::Value::StringValue(s)),
        }) => assert_eq!(s, "logpushi"),
        other => panic!("bad attr {other:?}"),
    }
    let n = rl.scope_logs[0].log_records.len();
    assert_eq!(n, 2);
}

#[test]
fn normalize_otel_url_variants() {
    assert_eq!(
        normalize_otel_url("http://otel:4318").unwrap(),
        "http://otel:4318/v1/logs"
    );
    assert_eq!(
        normalize_otel_url("http://otel:4318/my/ingest").unwrap(),
        "http://otel:4318/my/ingest"
    );
    assert_eq!(
        normalize_otel_url("http://otel:4318/v1/logs").unwrap(),
        "http://otel:4318/v1/logs"
    );
}

// ---------------------------------------------------------------------------
// URLs
// ---------------------------------------------------------------------------

#[test]
fn normalized_urls_are_stable() {
    for e in ["http://a", "http://a///", "a:8088", "", "http://a/services/collector/raw/"] {
        let once = normalize_hec_url(e).unwrap();
        assert_eq!(normalize_hec_url(&once).unwrap(), once, "{e}");
    }
    for e in ["http://a", "http://a//", "https://a:1/x/", "http://a/v1/logs"] {
        let once = normalize_otel_url(e).unwrap();
        assert_eq!(normalize_otel_url(&once).unwrap(), once, "{e}");
    }
    assert_eq!(normalize_otel_url("otel:4318/").unwrap(), "otel:4318/v1/logs");
    assert_eq!(normalize_otel_url("http://").unwrap(), "http:/v1/logs");
}

// ---------------------------------------------------------------------------
// Responses
// ---------------------------------------------------------------------------

fn parts(r: &BatchResult) -> (u64, u64, u64, bool, bool, Option<u64>, Option<&str>) {
    (
        r.succeeded,
        r.failed,
        r.bytes,
        r.retryable,
        r.auth_error,
        r.retry_after,
        r.reason.as_deref(),
    )
}

#[test]
fn results_of_whole_batches() {
    assert_eq!(
        parts(&BatchResult::delivered(3, 40)),
        (3, 0, 40, false, false, None, None)
    );
    assert_eq!(
        parts(&BatchResult::none(3, true, "why")),
        (0, 3, 0, true, false, None, Some("why"))
    );
}

#[test]
fn refused_responses() {
    let auth = "authentication failed (HTTP 401)";
    assert_eq!(
        parts(&response(401, Some(9), "", 5, 70)),
        (0, 5, 0, true, true, None, Some(auth))
    );
    assert_eq!(
        parts(&response(403, None, "", 5, 70)).6,
        Some("authentication failed (HTTP 403)")
    );
    assert_eq!(
        parts(&response(429, Some(9), "", 5, 70)),
        (0, 5, 0, true, false, Some(9), Some("rate limited (429)"))
    );
    assert_eq!(
        parts(&response(503, None, "", 5, 70)),
        (0, 5, 0, true, false, None, Some("server error (5xx)"))
    );
    assert_eq!(
        parts(&response(404, Some(9), "", 5, 70)),
        (0, 5, 0, false, false, None, Some("unexpected HTTP 404"))
    );
    assert_eq!(
        parts(&otel::response(302, None, &None, 5, 70)).6,
        Some("OTLP export rejected (HTTP 302)")
    );
    assert!(refusal(200, None, 5, "", "").is_none());
    assert!(refusal(299, None, 5, "", "").is_none());
    assert!(refusal(300, None, 5, "", "").is_some());
    assert!(refusal(199, None, 5, "", "").is_some());
}

#[test]
fn hec_replies() {
    let rejected = Some("HEC rejected some events");
    for (text, want) in [
        (r#"{"code":0}"#, (3, 0, None)),
        (r#"{"text":"ok"}"#, (3, 0, None)),
        (r#"{"code":"x"}"#, (3, 0, None)),
        (r#"{"code":7}"#, (0, 3, rejected)),
        (r#"[{"code":0},{"code":5},{}]"#, (1, 2, rejected)),
        (r#"[{"code":0},{"code":0},{"code":0}]"#, (3, 0, None)),
        ("[]", (0, 0, None)),
        ("fine", (3, 0, None)),
        ("true", (3, 0, None)),
        ("", (3, 0, None)),
    ] {
        let r = response(200, Some(9), text, 3, 70);
        assert_eq!((r.succeeded, r.failed, r.reason.as_deref()), want, "{text}");
        assert_eq!((r.bytes, r.retryable, r.auth_error, r.retry_after), (70, false, false, None));
    }
    let r = tally(&Reply::List(vec![Some(0), None, Some(1)]), 9, 1);
    assert_eq!((r.succeeded, r.failed), (1, 2));
    let r = tally(&Reply::Object(Some(2)), 9, 1);
    assert_eq!((r.succeeded, r.failed), (0, 9));
    let r = tally(&Reply::Other, 9, 1);
    assert_eq!((r.succeeded, r.failed), (9, 0));
}

#[test]
fn otlp_partial_success() {
    let body = |n: Option<i64>| {
        Some(ExportLogsServiceResponse {
            partial_success: Some(ExportLogsPartialSuccess {
                rejected_log_records: n,
                error_message: None,
            }),
        })
    };
    let part = Some("OTLP partial success (records rejected)");
    assert_eq!(
        parts(&otel::response(200, None, &body(Some(2)), 5, 70)),
        (3, 2, 70, false, false, None, part)
    );
    assert_eq!(
        parts(&otel::response(200, None, &body(Some(9)), 5, 70)),
        (0, 9, 70, false, false, None, part)
    );
    for b in [body(Some(-1)), body(None), None] {
        assert_eq!(
            parts(&otel::response(200, None, &b, 5, 70)),
            (5, 0, 70, false, false, None, None)
        );
    }
}

#[test]
fn network_failures_are_retryable() {
    assert_eq!(
        parts(&network_failure(true, "anything", 5)),
        (0, 5, 0, true, false, None, Some("request timed out"))
    );
    assert_eq!(
        parts(&network_failure(false, "broken pipe", 5)),
        (0, 5, 0, true, false, None, Some("broken pipe"))
    );
    assert_eq!(
        otel::network_failure(true, 5).reason.as_deref(),
        Some("request timed out or connection failed")
    );
    assert_eq!(
        otel::network_failure(false, 5).reason.as_deref(),
        Some("network error")
    );
}

#[test]
fn long_messages_are_cut() {
    let long = "x".repeat(301);
    assert_eq!(sanitize(&long), "x".repeat(300));
    assert_eq!(sanitize(&"é".repeat(151)), "é".repeat(150));
    assert_eq!(sanitize("short"), "short");
    let exact = "y".repeat(300);
    assert_eq!(sanitize(&exact), exact);
}

#[test]
fn retry_after_headers() {
    assert_eq!(retry_after_seconds("0"), Some(0));
    assert_eq!(retry_after_seconds("120"), Some(120));
    assert_eq!(retry_after_seconds("Wed, 21 Oct 2015 07:28:00 GMT"), None);
    assert_eq!(retry_after_seconds("-1"), None);
    assert_eq!(retry_after_seconds(""), None);
}

// ---------------------------------------------------------------------------
// Requests
// ---------------------------------------------------------------------------

#[test]
fn envelopes_take_overrides() {
    let t = SplunkHecTransport::new(
        "http://h",
        "T".to_string(),
        None,
        Some("src".to_string()),
        Some("st".to_string()),
        "",
    )
    .unwrap();
    assert_eq!(t.authorization(), "Splunk T");
    assert_eq!(t.name(), "hec");
    let all = t.envelopes(&[ev("a"), ev("b")]);
    assert_eq!(all.len(), 2);
    assert_eq!(all[1].event, "b");
    assert_eq!(
        (all[0].source.as_str(), all[0].sourcetype.as_str(), all[0].host.as_str()),
        ("src", "st", "simulated-host")
    );
    assert!(all[0].index.is_none());
}

fn attr(r: &otel::LogRecord, key: &str) -> String {
    match r.attributes.iter().find(|a| a.key == key).map(|a| &a.value) {
        Some(Some(AnyValue {
            value: Some(any_value::Value::StringValue(s)),
        })) => s.clone(),
        other => panic!("{key}: {other:?}"),
    }
}

#[test]
fn log_record_exact() {
    let mut e = ev("b");
    e.severity = None;
    e.ts_detected = false;
    e.timestamp = Some(UtcTime::new(-1, 999_999_999).unwrap());
    let r = to_log_record(&e, "svc", "dh", 42);
    assert_eq!(r.time_unix_nano, u64::MAX);
    assert_eq!(r.observed_time_unix_nano, 1_731_916_800_123_000_000);
    assert_eq!(r.severity_number, Some(9));
    assert_eq!(r.severity_text.as_deref(), Some("INFO"));
    assert_eq!(attr(&r, "log.file.path"), "sub/dir/a.log");
    assert_eq!(attr(&r, "log.file.name"), "a.log");
    assert_eq!(attr(&r, "source.type"), "hadoop");
    assert_eq!(attr(&r, "logpushi.dataset"), "hadoop");
    assert_eq!(attr(&r, "logpushi.mode"), "simulation");
    assert_eq!(attr(&r, "logpushi.seed"), "42");
    assert_eq!(attr(&r, "logpushi.ts_detected"), "false");
    e.timestamp = Some(UtcTime::new(9_223_372_037, 0).unwrap());
    assert_eq!(to_log_record(&e, "svc", "dh", 42).time_unix_nano, 0);
}

#[test]
fn severity_numbers() {
    for (level, n) in [
        (Some("DEBUG"), 5),
        (Some("TRACE"), 5),
        (Some("VERBOSE"), 5),
        (Some("NOTICE"), 9),
        (Some("INFO"), 9),
        (Some("WARN"), 13),
        (Some("ERROR"), 17),
        (Some("CRITICAL"), 21),
        (Some("FATAL"), 21),
        (Some("other"), 9),
        (None, 9),
    ] {
        assert_eq!(severity_number(level), n, "{level:?}");
    }
}

#[test]
fn otel_transport_requests() {
    let t = OtelTransport::new("http://o:1/", "svc", "").unwrap();
    assert_eq!(
        (t.name(), t.url.as_str(), t.host_default.as_str()),
        ("otel", "http://o:1/v1/logs", "simulated-host")
    );
    let r = t.request(&[ev("a")]);
    let record = &r.resource_logs[0].scope_logs[0].log_records[0];
    assert_eq!(attr(record, "logpushi.seed"), "0");
    assert_eq!(attr(record, "logpushi.mode"), "simulation");
    let t = t.with_seed(42).with_mode("replay".to_string());
    let r = t.request(&[ev("a")]);
    let record = &r.resource_logs[0].scope_logs[0].log_records[0];
    assert_eq!(attr(record, "logpushi.seed"), "42");
    assert_eq!(attr(record, "logpushi.mode"), "replay");
    let v: any_value::Value = "x".to_string().into();
    assert!(matches!(v, any_value::Value::StringValue(s) if s == "x"));
}

#[test]
fn one_resource_for_each_host_and_source_type() {
    let mut apache = ev("plain");
    apache.source_type = "apache";
    let batch = [
        ev("first"),
        ev("Dec 10 06:55:46 LabSZ sshd[1]: hi"),
        apache,
        ev("second"),
    ];
    let t = OtelTransport::new("http://o:1/", "svc", "given").unwrap();
    let r = t.request(&batch);
    let seen: Vec<(Vec<String>, Vec<String>)> = r
        .resource_logs
        .iter()
        .map(|l| {
            let text = |v: &Option<AnyValue>| match v {
                Some(AnyValue {
                    value: Some(any_value::Value::StringValue(s)),
                }) => s.clone(),
                other => panic!("{other:?}"),
            };
            let resource = l.resource.as_ref().unwrap();
            let attributes = resource
                .attributes
                .iter()
                .map(|a| format!("{}={}", a.key, text(&a.value)));
            assert_eq!(l.scope_logs.len(), 1);
            let bodies = l.scope_logs[0].log_records.iter().map(|r| text(&r.body));
            (attributes.collect(), bodies.collect())
        })
        .collect();
    assert_eq!(seen.len(), 3);
    assert_eq!(
        seen[0].0,
        ["service.name=svc", "host.name=given", "source.type=hadoop"]
    );
    assert_eq!(seen[0].1, ["first", "second"]);
    assert_eq!(
        seen[1].0,
        ["service.name=svc", "host.name=LabSZ", "source.type=hadoop"]
    );
    assert_eq!(seen[1].1.len(), 1);
    assert_eq!(
        seen[2].0,
        ["service.name=svc", "host.name=given", "source.type=apache"]
    );
    assert_eq!(seen[2].1, ["plain"]);
}

#[test]
fn stdout_counts_bytes() {
    let t = StdoutTransport::new();
    assert_eq!(t.name(), "stdout");
    assert_eq!(t.line(&ev("é")), "é\n");
    assert_eq!(
        parts(&t.written(&[ev("é"), ev("ab")])),
        (2, 0, 6, false, false, None, None)
    );
    assert_eq!(
        parts(&t.failed(&[ev("a")], "closed")),
        (0, 1, 0, false, false, None, Some("stdout write failed: closed"))
    );
}

#[test]
fn hosts_of_events() {
    assert_eq!(ev("Dec 10 06:55:46 LabSZ x").extracted_host(), "LabSZ");
    assert_eq!(ev("none").extracted_host(), "");
}

#[test]
fn a_given_host_is_that_of_all_events() {
    let t = transport().with_host("given".to_string());
    assert_eq!(t.envelope(&ev("hello")).host, "given");
    let env = t.envelope(&ev("Dec 10 06:55:46 LabSZ sshd[1]: hi"));
    assert_eq!(env.host, "given");
}

#[test]
fn configured_transports() {
    let stdout = build(&Config::default()).unwrap();
    assert!(matches!(stdout, Transport::Stdout(_)));
    assert_eq!(stdout.name(), "stdout");

    let otel = build(&Config {
        transport: TransportKind::Otel,
        endpoint: Some("http://otel:4318/".to_string()),
        service_name: "svc".to_string(),
        ..Config::default()
    })
    .unwrap();
    assert_eq!(otel.name(), "otel");
    match otel {
        Transport::Otel(t) => {
            assert_eq!(t.url, "http://otel:4318/v1/logs");
            assert_eq!(t.service_name, "svc");
            assert_eq!(t.host_default, "simulated-host");
            assert_eq!((t.mode.as_str(), t.seed), ("replay", 0));
        }
        _ => panic!("not the transport that was asked for"),
    }

    let cfg = Config {
        transport: TransportKind::Hec,
        endpoint: Some("http://hec:8088".to_string()),
        hec_token: Some("t".to_string()),
        hec_index: Some("i".to_string()),
        hec_source: Some("s".to_string()),
        host: "h".to_string(),
        ..Config::default()
    };
    let hec = build(&cfg).unwrap();
    assert_eq!(hec.name(), "hec");
    match hec {
        Transport::Hec(t) => {
            assert_eq!(t.url, "http://hec:8088/services/collector/event");
            assert_eq!(t.authorization(), "Splunk t");
            assert_eq!(t.index.as_deref(), Some("i"));
            assert_eq!(t.source_override.as_deref(), Some("s"));
            assert_eq!(t.sourcetype_override, None);
            assert_eq!(t.host_override.as_deref(), Some("h"));
        }
        _ => panic!("not the transport that was asked for"),
    }
    match build(&Config { host: String::new(), ..cfg }).unwrap() {
        Transport::Hec(t) => assert_eq!(t.host_override, None),
        _ => panic!("not the transport that was asked for"),
    }
}

#[test]
fn codes_of_replies() {
    let text = r#"[{"code":0},{"x":1,"code":-5},{"code":"0"},{},7,{"code":0.0},
        {"code":18446744073709551615}]"#;
    match read_reply(text) {
        Reply::List(codes) => {
            assert_eq!(codes, vec![Some(0), Some(-5), None, None, None, None, None]);
        }
        _ => panic!("not a list"),
    }
    for (text, want) in [
        (r#"{"text":"Success","code":0}"#, Some(0)),
        (r#"{"code":4}"#, Some(4)),
        (r#"{"code":null}"#, None),
        ("{}", None),
    ] {
        match read_reply(text) {
            Reply::Object(code) => assert_eq!(code, want, "{text}"),
            _ => panic!("not an object"),
        }
    }
    for text in ["", "ok", "null", "0", "\"code\"", "{"] {
        assert!(matches!(read_reply(text), Reply::Other), "{text}");
    }
}
