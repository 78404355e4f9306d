use logpushi::cli::{Cli, Commands, DiscoverArgs, RunArgs, ValidateArgs};
use logpushi::config::{
    parse_window, rate_choice, redact_url, resolve_config, resolve_corpus_dir, resolve_log_dir,
    transport_name, window_is_readable, window_text, Config, KeyValues, OtelProtocol, RateSource,
    SimMode, TimeWindow, TransportKind,
};
use logpushi::json::Field;
use logpushi::settings::{load_settings, settings_of};
use logpushi::text::parse_unsigned;

fn no_args() -> RunArgs {
    RunArgs {
        log_dir: None,
        lines: None,
        seed: None,
        file: None,
        transport: None,
        endpoint: None,
        batch_size: None,
        workers: None,
        rate: None,
        timeout: None,
        retries: None,
        insecure: false,
        fail_fast: false,
        quiet: false,
        verbose: false,
        json: false,
        start_offset: None,
        no_loop: false,
        recent_window: None,
        ts_distribution: None,
        hec_token: None,
        index: None,
        source: None,
        sourcetype: None,
        host: None,
        otel_protocol: None,
        service_name: None,
    }
}

fn values(pairs: &[(&str, &str)]) -> KeyValues {
    let mut kv = KeyValues::new();
    for (k, v) in pairs {
        kv.set(k.to_string(), v.to_string());
    }
    kv
}

fn none() -> KeyValues {
    KeyValues::new()
}

fn run(args: &RunArgs, env: &KeyValues, file: &KeyValues) -> Result<Config, String> {
    Config::from_run(args, SimMode::Replay, env, file, Ok(0)).map_err(|e| e.message())
}

fn text(s: &str) -> Option<String> {
    Some(s.to_string())
}

#[test]
fn defaults_of_a_run() {
    let c = run(&no_args(), &none(), &none()).unwrap();
    assert_eq!(c.log_dir, "./logs");
    assert_eq!((c.lines, c.batch_size, c.workers, c.timeout, c.retries), (100, 100, 4, 30, 3));
    assert_eq!((c.seed, c.rate, c.validate_sample), (None, 0, 200));
    assert_eq!(c.transport, TransportKind::Stdout);
    assert_eq!(c.otel_protocol, OtelProtocol::Http);
    assert_eq!(c.recent_window, TimeWindow::Seconds(3600));
    assert_eq!((c.host.as_str(), c.service_name.as_str()), ("", "logpushi"));
    assert_eq!(c.ts_distribution, "uniform");
    assert!(c.start_offset_random && !c.no_loop && !c.insecure && !c.json && !c.count_lines);
    assert!(c.validate().is_ok());
}

#[test]
fn baseline_defaults() {
    let c = Config::default();
    assert_eq!((c.log_dir.as_str(), c.lines, c.timeout), ("./logs", 100, 30));
    assert_eq!((c.batch_size, c.workers, c.rate, c.retries), (100, 4, 0, 3));
    assert_eq!(c.transport, TransportKind::Stdout);
    assert_eq!(c.recent_window, TimeWindow::Seconds(3600));
    assert_eq!((c.validate_sample, c.service_name.as_str()), (200, "logpushi"));
    assert_eq!(SimMode::default(), SimMode::Replay);
}

#[test]
fn a_run_without_settings_has_the_baseline() {
    let c = run(&no_args(), &none(), &none()).unwrap();
    assert_eq!(format!("{c:?}"), format!("{:?}", Config::default()));
}

#[test]
fn command_line_over_environment_over_file() {
    let file = values(&[("batch_size", "7"), ("transport", "hec"), ("seed", "3")]);
    let env = values(&[("LOGPUSHI_BATCH_SIZE", "8"), ("LOGPUSHI_TRANSPORT", "otel")]);
    let c = run(&no_args(), &none(), &file).unwrap();
    assert_eq!((c.batch_size, c.transport, c.seed), (7, TransportKind::Hec, Some(3)));
    let c = run(&no_args(), &env, &file).unwrap();
    assert_eq!((c.batch_size, c.transport, c.seed), (8, TransportKind::Otel, Some(3)));
    let mut args = no_args();
    args.batch_size = Some(9);
    args.transport = text("stdout");
    args.seed = Some(4);
    let c = run(&args, &env, &file).unwrap();
    assert_eq!((c.batch_size, c.transport, c.seed), (9, TransportKind::Stdout, Some(4)));
    // A value that is not used is not looked at.
    let c = run(&args, &values(&[("LOGPUSHI_BATCH_SIZE", "many")]), &none()).unwrap();
    assert_eq!(c.batch_size, 9);
}

#[test]
fn an_empty_variable_is_not_set() {
    let env = values(&[("LOGPUSHI_BATCH_SIZE", ""), ("LOGPUSHI_TRANSPORT", "")]);
    let c = run(&no_args(), &env, &values(&[("batch_size", "7")])).unwrap();
    assert_eq!((c.batch_size, c.transport), (7, TransportKind::Stdout));
}

#[test]
fn endpoints_and_tokens() {
    let env = values(&[
        ("LOGPUSHI_OTEL_ENDPOINT", "http://otel"),
        ("LOGPUSHI_HEC_ENDPOINT", "http://hec"),
        ("LOGPUSHI_HEC_TOKEN", "t"),
    ]);
    for (kind, want) in [
        ("otel", Some("http://otel")),
        ("hec", Some("http://hec")),
        ("stdout", None),
    ] {
        let mut args = no_args();
        args.transport = text(kind);
        let c = run(&args, &env, &none()).unwrap();
        assert_eq!(c.endpoint.as_deref(), want);
        assert_eq!(c.hec_token.as_deref(), Some("t"));
        args.endpoint = text("http://cli");
        let c = run(&args, &env, &none()).unwrap();
        assert_eq!(c.endpoint.as_deref(), Some("http://cli"));
    }
}

#[test]
fn flags_may_come_from_the_file() {
    let file = values(&[("insecure", "false"), ("no_loop", "true"), ("json", "true")]);
    let c = run(&no_args(), &none(), &file).unwrap();
    assert!(!c.insecure && c.no_loop && c.json && !c.quiet && !c.fail_fast && !c.verbose);
    let mut args = no_args();
    args.insecure = true;
    assert!(run(&args, &none(), &file).unwrap().insecure);
    for key in ["insecure", "fail_fast", "quiet", "verbose", "json", "no_loop"] {
        let on = values(&[(key, "true")]);
        let c = run(&no_args(), &none(), &on).unwrap();
        let flags = [c.insecure, c.fail_fast, c.quiet, c.verbose, c.json, c.no_loop];
        assert_eq!(flags.iter().filter(|f| **f).count(), 1, "{key}");
        // Whatever it says but `false`, the file sets a flag by naming it.
        for value in ["1", "yes", ""] {
            let c = run(&no_args(), &none(), &values(&[(key, value)])).unwrap();
            let flags = [c.insecure, c.fail_fast, c.quiet, c.verbose, c.json, c.no_loop];
            assert_eq!(flags.iter().filter(|f| **f).count(), 1, "{key}={value}");
        }
    }
}

#[test]
fn texts_from_the_file() {
    let file = values(&[
        ("index", "i"),
        ("source", "s"),
        ("sourcetype", "st"),
        ("host", "h"),
        ("file", "f.log"),
        ("service_name", "svc"),
        ("ts_distribution", "normal"),
        ("start_offset", "start"),
        ("otel_protocol", "grpc"),
        ("recent_window", "5m"),
        ("log_dir", "d"),
        ("endpoint", "e"),
        ("hec_token", "t"),
    ]);
    let c = run(&no_args(), &none(), &file).unwrap();
    assert_eq!(c.hec_index.as_deref(), Some("i"));
    assert_eq!(c.hec_source.as_deref(), Some("s"));
    assert_eq!(c.hec_sourcetype.as_deref(), Some("st"));
    assert_eq!((c.host.as_str(), c.service_name.as_str()), ("h", "svc"));
    assert_eq!(c.file.as_deref(), Some("f.log"));
    assert_eq!((c.ts_distribution.as_str(), c.start_offset_random), ("normal", false));
    assert_eq!(c.otel_protocol, OtelProtocol::Grpc);
    assert_eq!(c.recent_window, TimeWindow::Seconds(300));
    assert_eq!((c.log_dir.as_str(), c.endpoint.as_deref()), ("d", Some("e")));
    assert_eq!(c.hec_token.as_deref(), Some("t"));
}

#[test]
fn errors_of_a_run() {
    let message = |args: &RunArgs, env: &KeyValues, file: &KeyValues| {
        run(args, env, file).err().unwrap()
    };
    let args = no_args();
    assert_eq!(
        message(&args, &values(&[("LOGPUSHI_WORKERS", "x")]), &none()),
        "env LOGPUSHI_WORKERS=\"x\": invalid digit found in string"
    );
    assert_eq!(
        message(&args, &none(), &values(&[("retries", "4294967296")])),
        "config file key \"retries\": number too large to fit in target type"
    );
    assert_eq!(
        message(&args, &none(), &values(&[("lines", "")])),
        "config file key \"lines\": cannot parse integer from empty string"
    );
    assert_eq!(
        message(&args, &none(), &values(&[("transport", "smtp")])),
        "unknown transport \"smtp\" (expected otel|hec|stdout)"
    );
    assert_eq!(
        message(&args, &none(), &values(&[("start_offset", "end")])),
        "--start-offset must be random|start, got \"end\""
    );
    assert_eq!(
        message(&args, &none(), &values(&[("otel_protocol", "udp")])),
        "unknown --otel-protocol \"udp\" (use http|grpc)"
    );
    assert_eq!(
        message(&args, &none(), &values(&[("recent_window", "5y")])),
        "unknown recent-window \"5y\" (use now|today|Ns|Nm|Nh|Nd)"
    );
    // The first setting that is looked at decides.
    assert_eq!(
        message(&args, &none(), &values(&[("recent_window", "x"), ("lines", "y")])),
        "unknown recent-window \"x\""
    );
}

#[test]
fn rates() {
    let mut args = no_args();
    let bits = 2.5f64.to_bits();
    let file = values(&[("rate", "7")]);
    let env = values(&[("LOGPUSHI_RATE", "8")]);
    assert!(matches!(rate_choice(&args, &none(), &none()), RateSource::Default));
    assert!(matches!(rate_choice(&args, &none(), &file), RateSource::File(s) if s == "7"));
    assert!(matches!(rate_choice(&args, &env, &file), RateSource::Env(s) if s == "8"));
    let problem = || Err("invalid float literal".to_string());
    let failed = |env: &KeyValues, file: &KeyValues| {
        Config::from_run(&no_args(), SimMode::Replay, env, file, problem())
            .err()
            .unwrap()
            .message()
    };
    assert_eq!(failed(&env, &file), "env LOGPUSHI_RATE=\"8\": invalid float literal");
    assert_eq!(
        failed(&none(), &file),
        "config file key \"rate\": invalid float literal"
    );
    let c = Config::from_run(&args, SimMode::SyntheticToday, &env, &file, Ok(bits)).unwrap();
    assert_eq!((c.rate, c.mode), (bits, SimMode::SyntheticToday));
    args.rate = Some(bits);
    assert!(matches!(rate_choice(&args, &env, &file), RateSource::Given(b) if b == bits));
    let c = Config::from_run(&args, SimMode::Replay, &env, &file, problem()).unwrap();
    assert_eq!(c.rate, bits);
}

#[test]
fn windows() {
    for (s, want) in [
        ("now", TimeWindow::Now),
        (" Today\n", TimeWindow::Today),
        ("45s", TimeWindow::Seconds(45)),
        ("5m", TimeWindow::Seconds(300)),
        ("1H", TimeWindow::Seconds(3600)),
        ("+2d", TimeWindow::Seconds(172_800)),
        ("18446744073709551615s", TimeWindow::Seconds(u64::MAX)),
    ] {
        assert!(window_is_readable(s));
        assert_eq!(parse_window(s).unwrap(), want, "{s}");
    }
    for (s, message) in [
        ("", "unknown recent-window \"\""),
        ("5", "unknown recent-window \"5\""),
        ("s", "unknown recent-window \"s\""),
        ("-5m", "unknown recent-window \"-5m\""),
        ("X5 m", "unknown recent-window \"x5 m\""),
        ("5w", "unknown recent-window \"5w\" (use now|today|Ns|Nm|Nh|Nd)"),
        ("18446744073709551616s", "unknown recent-window \"18446744073709551616s\""),
    ] {
        assert!(window_is_readable(s));
        assert_eq!(parse_window(s).err().unwrap().message(), message);
    }
    assert!(!window_is_readable("5é"));
    assert!(!window_is_readable("18446744073709551615m"));
    assert_eq!(window_text(&no_args(), &none()), "1h");
    assert_eq!(window_text(&no_args(), &values(&[("recent_window", "5m")])), "5m");
}

#[test]
fn validation() {
    let fails = |c: &Config| c.validate().err().map(|e| e.message());
    let base = Config::default;
    assert_eq!(fails(&base()), None);
    let c = Config { workers: 0, ..base() };
    assert_eq!(fails(&c).unwrap(), "--workers must be >= 1");
    let c = Config { batch_size: 0, ..base() };
    assert_eq!(fails(&c).unwrap(), "--batch-size must be >= 1");
    let c = Config { lines: 0, ..base() };
    assert_eq!(fails(&c).unwrap(), "--lines must be >= 1");
    for x in [-1.0, -0.0, f64::NAN, -f64::NAN, f64::NEG_INFINITY] {
        let c = Config { rate: x.to_bits(), ..base() };
        assert_eq!(fails(&c).unwrap(), "--rate must be >= 0", "{x}");
    }
    for x in [0.0, 0.5, 1e300, f64::INFINITY] {
        let c = Config { rate: x.to_bits(), ..base() };
        assert_eq!(fails(&c), None, "{x}");
    }
    let otel = || Config { transport: TransportKind::Otel, ..Config::default() };
    let hec = || Config { transport: TransportKind::Hec, endpoint: text("e"), ..Config::default() };
    assert!(fails(&otel()).unwrap().starts_with("--transport otel requires --endpoint (or LOG"));
    let c = Config { endpoint: None, ..hec() };
    assert!(fails(&c).unwrap().ends_with("prevent accidental injection into production"));
    assert!(fails(&hec()).unwrap().starts_with("--transport hec requires a token"));
    let c = Config { hec_token: text("t"), ..hec() };
    assert_eq!(fails(&c), None);
    let c = Config { otel_protocol: OtelProtocol::Grpc, ..base() };
    assert_eq!(fails(&c).unwrap(), "--otel-protocol applies only to --transport otel");
    let c = Config { otel_protocol: OtelProtocol::Grpc, endpoint: text("e"), ..otel() };
    assert_eq!(fails(&c).unwrap(), "OTLP/gRPC is not implemented; use --otel-protocol http");
    let c = Config { ts_distribution: "normal".to_string(), ..base() };
    assert_eq!(
        fails(&c).unwrap(),
        "--ts-distribution normal is not implemented; only 'uniform'"
    );
}

#[test]
fn descriptions_are_redacted() {
    let c = Config {
        transport: TransportKind::Hec,
        endpoint: text("http://h?token=abc?x"),
        hec_token: text("SECRET"),
        seed: Some(5),
        ..Config::default()
    };
    assert_eq!(
        c.describe("2.5"),
        "mode=replay transport=hec endpoint=http://h?<redacted> lines=100 batch_size=100 workers=4 rate=2.5 retries=3 seed=5"
    );
    let c = Config { endpoint: text("http://h?q"), ..Config::default() };
    assert_eq!(
        c.describe("0"),
        "mode=replay transport=stdout endpoint=- lines=100 batch_size=100 workers=4 rate=0 retries=3 seed=auto"
    );
    assert_eq!(redact_url("http://h"), "http://h");
    assert_eq!(redact_url("?"), "?<redacted>");
}

#[test]
fn transport_names() {
    assert_eq!(transport_name(TransportKind::Stdout), "stdout");
    assert_eq!(transport_name(TransportKind::Otel), "otel");
    assert_eq!(transport_name(TransportKind::Hec), "hec");
}

#[test]
fn commands() {
    let resolve = |command: Commands, env: &KeyValues| {
        let cli = Cli { config: None, command };
        resolve_config(&cli, env, &none(), Ok(0)).map_err(|e| e.message())
    };
    let c = resolve(Commands::Replay(no_args()), &none()).unwrap();
    assert_eq!(c.mode, SimMode::Replay);
    let c = resolve(Commands::SyntheticToday(no_args()), &none()).unwrap();
    assert_eq!(c.mode, SimMode::SyntheticToday);
    let mut args = no_args();
    args.workers = Some(0);
    assert_eq!(
        resolve(Commands::Replay(args), &none()).err().unwrap(),
        "--workers must be >= 1"
    );
    let env = values(&[("LOGPUSHI_LOG_DIR", "d")]);
    let d = DiscoverArgs { log_dir: None, lines: true, json: true };
    let c = resolve(Commands::Discover(d), &env).unwrap();
    assert_eq!((c.log_dir.as_str(), c.count_lines, c.json), ("d", true, true));
    assert_eq!((c.lines, c.validate_sample), (0, 0));
    let v = ValidateArgs { log_dir: text("x"), file: text("f"), sample: Some(9), json: false };
    let c = resolve(Commands::Validate(v), &env).unwrap();
    assert_eq!((c.log_dir.as_str(), c.file.as_deref()), ("x", Some("f")));
    assert_eq!((c.count_lines, c.json, c.validate_sample), (false, false, 9));
}

#[test]
fn corpus_commands_go_by_the_same_precedence() {
    let resolve = |command: Commands, env: &KeyValues, file: &KeyValues| {
        let cli = Cli { config: None, command };
        resolve_config(&cli, env, file, Ok(0)).map_err(|e| e.message())
    };
    let discover = || Commands::Discover(DiscoverArgs { log_dir: None, lines: false, json: false });
    let validate = || {
        Commands::Validate(ValidateArgs { log_dir: None, file: None, sample: None, json: false })
    };
    let file = load_settings(r#"{"log_dir": "/corpus"}"#, "p").unwrap();
    assert_eq!(resolve(discover(), &none(), &file).unwrap().log_dir, "/corpus");
    assert_eq!(resolve(validate(), &none(), &file).unwrap().log_dir, "/corpus");
    let env = values(&[("LOGPUSHI_LOG_DIR", "/env")]);
    assert_eq!(resolve(discover(), &env, &file).unwrap().log_dir, "/env");
    // To these commands an empty variable is set.
    let empty = values(&[("LOGPUSHI_LOG_DIR", "")]);
    assert_eq!(resolve(discover(), &empty, &file).unwrap().log_dir, "");
    assert_eq!(resolve(validate(), &empty, &none()).unwrap().log_dir, "");
    assert_eq!(resolve(validate(), &none(), &none()).unwrap().log_dir, "./logs");
    let file = values(&[("json", "true"), ("file", "f.log"), ("sample", "7")]);
    let c = resolve(validate(), &none(), &file).unwrap();
    assert_eq!((c.json, c.file.as_deref(), c.validate_sample), (true, Some("f.log"), 7));
    assert!(resolve(discover(), &none(), &file).unwrap().json);
    let c = resolve(validate(), &none(), &none()).unwrap();
    assert_eq!((c.json, c.file, c.validate_sample), (false, None, 200));
    assert!(resolve(discover(), &none(), &values(&[("json", "yes")])).unwrap().json);
    assert!(!resolve(validate(), &none(), &values(&[("json", "false")])).unwrap().json);
    assert_eq!(
        resolve(validate(), &none(), &values(&[("sample", "x")])).err().unwrap(),
        "config file key \"sample\": invalid digit found in string"
    );
    assert_eq!(resolve_log_dir(&None, &none(), &none()), "./logs");
    assert_eq!(resolve_log_dir(&text("cli"), &env, &none()), "cli");
    assert_eq!(resolve_log_dir(&None, &empty, &none()), "./logs");
    assert_eq!(resolve_corpus_dir(&None, &empty, &none()), "");
    assert_eq!(resolve_corpus_dir(&None, &env, &none()), "/env");
}

#[test]
fn config_files() {
    let kv = load_settings(
        r#"{"transport": "hec", "batch-size": 500, "rate": 2.5, "quiet": true}"#,
        "p",
    )
    .unwrap();
    assert_eq!(kv.get("transport").as_deref(), Some("hec"));
    assert_eq!(kv.get("batch_size").as_deref(), Some("500"));
    assert_eq!(kv.get("batch-size"), None);
    assert_eq!(kv.get("rate").as_deref(), Some("2.5"));
    assert_eq!(kv.get("quiet").as_deref(), Some("true"));
    assert_eq!(kv.get("json"), None);
    let message = |text: &str| load_settings(text, "logpushi.json").err().unwrap().message();
    assert_eq!(message("[]"), "config file must be a JSON object");
    assert_eq!(
        message(r#"{"a": 1, "b": [1]}"#),
        "config key \"b\": unsupported value type"
    );
    assert_eq!(
        message("{"),
        "invalid JSON in logpushi.json: EOF while parsing an object at line 1 column 1"
    );
}

#[test]
fn later_settings_win() {
    let e = vec![
        ("batch_size".to_string(), Field::Text("1".to_string())),
        ("batch-size".to_string(), Field::Bool(false)),
    ];
    let kv = settings_of(&e).unwrap();
    assert_eq!(kv.get("batch_size").as_deref(), Some("false"));
    let bad = vec![("x-y".to_string(), Field::Other("null".to_string()))];
    assert_eq!(
        settings_of(&bad).err().unwrap().message(),
        "config key \"x-y\": unsupported value type"
    );
}

#[test]
fn unsigned_numbers_read_as_the_standard_library_reads_them() {
    for s in [
        "", "+", "-", "0", "+7", "-7", "007", "1 ", " 1", "1x", "99999999999999999999x", "x",
        "18446744073709551615", "18446744073709551616", "1_0", "٣",
    ] {
        let want = s.parse::<u64>().map_err(|e| e.to_string());
        let got = parse_unsigned(s, u64::MAX).map_err(|p| p.text().to_string());
        assert_eq!(got, want, "{s:?}");
        let want = s.parse::<u32>().map(u64::from).map_err(|e| e.to_string());
        let got = parse_unsigned(s, u32::MAX as u64).map_err(|p| p.text().to_string());
        assert_eq!(got, want, "{s:?}");
    }
}
