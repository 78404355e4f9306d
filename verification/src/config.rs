//! Runtime configuration: CLI flags -> environment -> config file -> defaults,
//! resolved per key. Command-line values arrive as `Option`s (None = "not
//! provided"), so precedence is explicit and testable.

use vstd::prelude::*;
use vstd::utf8::encode_utf8;

use crate::cli::{Cli, Commands, DiscoverArgs, RunArgs, ValidateArgs};
pub use crate::settings::{ConfigError, ConfigErrorView, KeyValues};
use crate::settings::{
    chosen_flag, chosen_number, chosen_opt, chosen_text, env_text, env_value, number_view,
    resolve_flag, resolve_opt, resolve_string, resolve_text, text_view, value_of,
};
use crate::text::{
    chars_of, decimal, find_char, lower, lower_chars, parse_unsigned, push_decimal, same, same_str,
    string_of, trim, trim_chars, unsigned_from, unsigned_value, IntProblem,
};

verus! {

broadcast use vstd::string::group_string_axioms;

#[derive(Debug, Clone, Copy, PartialEq, Eq, Structural)]
pub enum TransportKind {
    Stdout,
    Otel,
    Hec,
}

#[derive(Debug, Clone, Copy, PartialEq, Eq, Structural)]
pub enum SimMode {
    Replay,
    SyntheticToday,
}

impl Default for SimMode {
    fn default() -> (r: SimMode)
        ensures
            r == SimMode::Replay,
    {
        SimMode::Replay
    }
}

#[derive(Debug, Clone, Copy, PartialEq, Eq, Structural)]
pub enum OtelProtocol {
    Http,
    Grpc,
}

/// The span into which generated timestamps are distributed.
#[derive(Debug, Clone, Copy, PartialEq, Eq, Structural)]
pub enum TimeWindow {
    /// The instant at which the run starts.
    Now,
    /// Since local midnight.
    Today,
    /// That many seconds up to the start of the run.
    Seconds(u64),
}

#[derive(Debug, Clone)]
pub struct Config {
    pub log_dir: String,
    pub mode: SimMode,
    pub lines: u64,
    pub seed: Option<u64>,
    pub file: Option<String>,
    pub batch_size: usize,
    pub workers: usize,
    /// Events per second, as the IEEE 754 bits of a double.
    pub rate: u64,
    /// Seconds.
    pub timeout: u64,
    pub retries: u32,
    pub insecure: bool,
    pub fail_fast: bool,
    pub quiet: bool,
    pub verbose: bool,
    pub json: bool,
    pub transport: TransportKind,
    pub endpoint: Option<String>,
    pub hec_token: Option<String>,
    pub hec_index: Option<String>,
    pub hec_source: Option<String>,
    pub hec_sourcetype: Option<String>,
    pub host: String,
    pub otel_protocol: OtelProtocol,
    pub service_name: String,
    pub recent_window: TimeWindow,
    pub ts_distribution: String,
    pub start_offset_random: bool,
    pub no_loop: bool,
    pub count_lines: bool,
    pub validate_sample: u64,
    pub validate_file: Option<String>,
}

// ---------------------------------------------------------------------------
// Recent windows
// ---------------------------------------------------------------------------

/// The seconds in one of the units of a window.
pub open spec fn unit_seconds(unit: char) -> Option<int> {
    if unit == 's' {
        Some(1)
    } else if unit == 'm' {
        Some(60)
    } else if unit == 'h' {
        Some(3600)
    } else if unit == 'd' {
        Some(86400)
    } else {
        None
    }
}

/// The window that a text without outer white space, in lower case, names.
pub open spec fn named_window(s: Seq<char>) -> Result<TimeWindow, ConfigErrorView> {
    if s == "now"@ {
        Ok(TimeWindow::Now)
    } else if s == "today"@ {
        Ok(TimeWindow::Today)
    } else if encode_utf8(s).len() < 2 {
        Err(ConfigErrorView::UnknownWindow { text: s, usage: false })
    } else {
        match unsigned_value(s.drop_last(), u64::MAX as int) {
            Ok(n) => match unit_seconds(s.last()) {
                Some(k) => Ok(TimeWindow::Seconds((n * k) as u64)),
                None => Err(ConfigErrorView::UnknownWindow { text: s, usage: true }),
            },
            Err(_) => Err(ConfigErrorView::UnknownWindow { text: s, usage: false }),
        }
    }
}

/// A text that a window can be looked for in: it does not end in a character
/// beyond ASCII, and its number of seconds fits in 64 bits.
pub open spec fn readable_window(text: Seq<char>) -> bool {
    let s = lower(trim(text));
    s.len() > 0 ==> {
        &&& (s.last() as int) < 128
        &&& (unsigned_value(s.drop_last(), u64::MAX as int) matches Ok(n) ==> (unit_seconds(
            s.last(),
        ) matches Some(k) ==> n * k <= u64::MAX))
    }
}

fn seconds_per_unit(unit: char) -> (r: Option<u64>)
    ensures
        number_view(r) == unit_seconds(unit),
        r matches Some(k) ==> 1 <= k <= 86400,
{
    match unit {
        's' => Some(1),
        'm' => Some(60),
        'h' => Some(3600),
        'd' => Some(86400),
        _ => None,
    }
}

/// Whether [`parse_window`] can be asked about the text.
pub fn window_is_readable(text: &str) -> (r: bool)
    ensures
        r == readable_window(text@),
{
    let s = lower_chars(&trim_chars(&chars_of(text)));
    let n: usize = s.len();
    if n == 0 {
        return true;
    }
    if s[n - 1] as u32 >= 128 {
        return false;
    }
    let head = string_of(&s, 0, n - 1);
    assert(head@ =~= s@.drop_last());
    match parse_unsigned(head.as_str(), u64::MAX) {
        Ok(v) => match seconds_per_unit(s[n - 1]) {
            Some(k) => {
                assert(v <= u64::MAX / k <==> v * k <= u64::MAX) by (nonlinear_arith)
                    requires
                        1 <= k <= 86400,
                ;
                v <= u64::MAX / k
            },
            None => true,
        },
        Err(_) => true,
    }
}

proof fn lemma_ascii_width(c: char)
    requires
        (c as int) < 128,
    ensures
        encode_utf8(seq![c]).len() == 1,
{
    crate::text::lemma_utf8_one(c);
    assert((c as u32) < 128);
}

/// A text that ends in ASCII has less than two bytes when it has less than two
/// characters.
pub proof fn lemma_short_text(s: Seq<char>)
    requires
        s.len() == 0 || (s.last() as int) < 128,
    ensures
        encode_utf8(s).len() < 2 <==> s.len() < 2,
{
    if s.len() > 0 {
        let head = s.drop_last();
        let last = seq![s.last()];
        assert(s =~= head + last);
        crate::text::lemma_utf8_concat(head, last);
        lemma_ascii_width(s.last());
        if head.len() > 0 {
            let c = head[0];
            vstd::utf8::char_is_scalar(c);
            assert(encode_utf8(head).len() >= 1);
        } else {
            assert(encode_utf8(head).len() == 0);
        }
    } else {
        assert(encode_utf8(s).len() == 0);
    }
}

/// Parses a recent window: now | today | Ns | Nm | Nh | Nd, in any case.
pub fn parse_window(s: &str) -> (r: Result<TimeWindow, ConfigError>)
    requires
        readable_window(s@),
    ensures
        match r {
            Ok(w) => named_window(lower(trim(s@))) == Ok::<TimeWindow, ConfigErrorView>(w),
            Err(e) => named_window(lower(trim(s@))) == Err::<TimeWindow, ConfigErrorView>(e@),
        },
{
    let t = lower_chars(&trim_chars(&chars_of(s)));
    if same(&t, "now") {
        return Ok(TimeWindow::Now);
    }
    if same(&t, "today") {
        return Ok(TimeWindow::Today);
    }
    proof {
        lemma_short_text(t@);
    }
    let n: usize = t.len();
    let text = string_of(&t, 0, n);
    assert(text@ =~= t@);
    if n < 2 {
        return Err(ConfigError::UnknownWindow { text, usage: false });
    }
    let head = string_of(&t, 0, n - 1);
    assert(head@ =~= t@.drop_last());
    match parse_unsigned(head.as_str(), u64::MAX) {
        Ok(v) => match seconds_per_unit(t[n - 1]) {
            Some(k) => Ok(TimeWindow::Seconds(v * k)),
            None => Err(ConfigError::UnknownWindow { text, usage: true }),
        },
        Err(_) => Err(ConfigError::UnknownWindow { text, usage: false }),
    }
}

// ---------------------------------------------------------------------------
// Transports
// ---------------------------------------------------------------------------

/// The transport that a text names.
pub open spec fn named_transport(s: Seq<char>) -> Option<TransportKind> {
    if s == "stdout"@ {
        Some(TransportKind::Stdout)
    } else if s == "otel"@ {
        Some(TransportKind::Otel)
    } else if s == "hec"@ {
        Some(TransportKind::Hec)
    } else {
        None
    }
}

fn parse_transport(s: &str) -> (r: Result<TransportKind, ConfigError>)
    ensures
        match r {
            Ok(t) => named_transport(s@) == Some(t),
            Err(e) => named_transport(s@) is None && e@ == (ConfigErrorView::UnknownTransport {
                text: s@,
            }),
        },
{
    if same_str(s, "stdout") {
        Ok(TransportKind::Stdout)
    } else if same_str(s, "otel") {
        Ok(TransportKind::Otel)
    } else if same_str(s, "hec") {
        Ok(TransportKind::Hec)
    } else {
        Err(ConfigError::UnknownTransport { text: s.to_owned() })
    }
}

pub open spec fn transport_label(t: TransportKind) -> Seq<char> {
    match t {
        TransportKind::Stdout => "stdout"@,
        TransportKind::Otel => "otel"@,
        TransportKind::Hec => "hec"@,
    }
}

pub fn transport_name(t: TransportKind) -> (r: &'static str)
    ensures
        r@ == transport_label(t),
{
    match t {
        TransportKind::Stdout => "stdout",
        TransportKind::Otel => "otel",
        TransportKind::Hec => "hec",
    }
}

/// The names of transports are read back as the transports.
pub proof fn lemma_transport_names_read_back(t: TransportKind)
    ensures
        named_transport(transport_label(t)) == Some(t),
{
    reveal_strlit("stdout");
    reveal_strlit("otel");
    reveal_strlit("hec");
    assert("otel"@[0] != "stdout"@[0]);
    assert("hec"@[0] != "stdout"@[0]);
    assert("hec"@[0] != "otel"@[0]);
}

/// The name of a mode.
pub open spec fn mode_label(m: SimMode) -> Seq<char> {
    match m {
        SimMode::Replay => "replay"@,
        SimMode::SyntheticToday => "synthetic-today"@,
    }
}

pub fn mode_name(m: SimMode) -> (r: &'static str)
    ensures
        r@ == mode_label(m),
{
    match m {
        SimMode::Replay => "replay",
        SimMode::SyntheticToday => "synthetic-today",
    }
}

// ---------------------------------------------------------------------------
// A run
// ---------------------------------------------------------------------------

/// Where the rate of a run comes from: a double given on the command line, the
/// text of an environment variable or of the config file, or the default.
pub enum RateSource {
    Given(u64),
    Env(String),
    File(String),
    Default,
}

/// A [`RateSource`], with its text.
pub enum RateSourceView {
    Given(u64),
    Env(Seq<char>),
    File(Seq<char>),
    Default,
}

impl View for RateSource {
    type V = RateSourceView;

    open spec fn view(&self) -> RateSourceView {
        match self {
            RateSource::Given(b) => RateSourceView::Given(*b),
            RateSource::Env(s) => RateSourceView::Env(s@),
            RateSource::File(s) => RateSourceView::File(s@),
            RateSource::Default => RateSourceView::Default,
        }
    }
}

/// Where the rate comes from.
pub open spec fn rate_source(
    run: RunArgs,
    env: Seq<(Seq<char>, Seq<char>)>,
    file: Seq<(Seq<char>, Seq<char>)>,
) -> RateSourceView {
    match run.rate {
        Some(b) => RateSourceView::Given(b),
        None => match env_text(env, Some("LOGPUSHI_RATE"@)) {
            Some(s) => RateSourceView::Env(s),
            None => match value_of(file, "rate"@) {
                Some(s) => RateSourceView::File(s),
                None => RateSourceView::Default,
            },
        },
    }
}

/// The rate, where `parsed` is what its text, if it comes from one, reads as.
pub open spec fn rate_value(src: RateSourceView, parsed: Result<u64, Seq<char>>) -> Result<
    u64,
    ConfigErrorView,
> {
    match src {
        RateSourceView::Given(b) => Ok(b),
        RateSourceView::Env(value) => match parsed {
            Ok(b) => Ok(b),
            Err(problem) => Err(
                ConfigErrorView::EnvValue { key: "LOGPUSHI_RATE"@, value, problem },
            ),
        },
        RateSourceView::File(_) => match parsed {
            Ok(b) => Ok(b),
            Err(problem) => Err(ConfigErrorView::FileValue { key: "rate"@, problem }),
        },
        RateSourceView::Default => Ok(0),
    }
}

/// The text of the result of reading a rate.
pub open spec fn parsed_view(r: Result<u64, String>) -> Result<u64, Seq<char>> {
    match r {
        Ok(b) => Ok(b),
        Err(e) => Err(e@),
    }
}

/// Where the rate of a run comes from.
pub fn rate_choice(run: &RunArgs, env: &KeyValues, file: &KeyValues) -> (r: RateSource)
    ensures
        r@ == rate_source(*run, env@, file@),
{
    if let Some(b) = run.rate {
        return RateSource::Given(b);
    }
    if let Some(s) = env_value(env, "LOGPUSHI_RATE") {
        return RateSource::Env(s);
    }
    match file.get("rate") {
        Some(s) => RateSource::File(s),
        None => RateSource::Default,
    }
}

/// The settings of a run that are texts, by precedence.
pub open spec fn transport_text(
    run: RunArgs,
    env: Seq<(Seq<char>, Seq<char>)>,
    file: Seq<(Seq<char>, Seq<char>)>,
) -> Seq<char> {
    chosen_text(
        text_view(run.transport),
        env_text(env, Some("LOGPUSHI_TRANSPORT"@)),
        value_of(file, "transport"@),
        "stdout"@,
    )
}

pub open spec fn window_setting(run: RunArgs, file: Seq<(Seq<char>, Seq<char>)>) -> Seq<char> {
    chosen_text(text_view(run.recent_window), None, value_of(file, "recent_window"@), "1h"@)
}

pub open spec fn offset_setting(run: RunArgs, file: Seq<(Seq<char>, Seq<char>)>) -> Seq<char> {
    chosen_text(text_view(run.start_offset), None, value_of(file, "start_offset"@), "random"@)
}

pub open spec fn protocol_setting(run: RunArgs, file: Seq<(Seq<char>, Seq<char>)>) -> Seq<char> {
    chosen_text(text_view(run.otel_protocol), None, value_of(file, "otel_protocol"@), "http"@)
}

/// The endpoint: command line, then the environment variable of the transport,
/// then config file.
pub open spec fn endpoint_setting(
    run: RunArgs,
    transport: TransportKind,
    env: Seq<(Seq<char>, Seq<char>)>,
    file: Seq<(Seq<char>, Seq<char>)>,
) -> Option<Seq<char>> {
    chosen_opt(
        text_view(run.endpoint),
        match transport {
            TransportKind::Otel => env_text(env, Some("LOGPUSHI_OTEL_ENDPOINT"@)),
            TransportKind::Hec => env_text(env, Some("LOGPUSHI_HEC_ENDPOINT"@)),
            TransportKind::Stdout => None,
        },
        value_of(file, "endpoint"@),
    )
}

/// The numbers of a run, by precedence.
pub open spec fn lines_setting(run: RunArgs, file: Seq<(Seq<char>, Seq<char>)>) -> Result<
    Option<int>,
    ConfigErrorView,
> {
    chosen_number(
        number_view(run.lines),
        ""@,
        None,
        "lines"@,
        value_of(file, "lines"@),
        u64::MAX as int,
    )
}

pub open spec fn seed_setting(
    run: RunArgs,
    env: Seq<(Seq<char>, Seq<char>)>,
    file: Seq<(Seq<char>, Seq<char>)>,
) -> Result<Option<int>, ConfigErrorView> {
    chosen_number(
        number_view(run.seed),
        "LOGPUSHI_SEED"@,
        env_text(env, Some("LOGPUSHI_SEED"@)),
        "seed"@,
        value_of(file, "seed"@),
        u64::MAX as int,
    )
}

/// The value of an optional size.
pub open spec fn size_view(n: Option<usize>) -> Option<int> {
    match n {
        Some(v) => Some(v as int),
        None => None,
    }
}

pub open spec fn batch_setting(
    run: RunArgs,
    env: Seq<(Seq<char>, Seq<char>)>,
    file: Seq<(Seq<char>, Seq<char>)>,
) -> Result<Option<int>, ConfigErrorView> {
    chosen_number(
        size_view(run.batch_size),
        "LOGPUSHI_BATCH_SIZE"@,
        env_text(env, Some("LOGPUSHI_BATCH_SIZE"@)),
        "batch_size"@,
        value_of(file, "batch_size"@),
        usize::MAX as int,
    )
}

pub open spec fn workers_setting(
    run: RunArgs,
    env: Seq<(Seq<char>, Seq<char>)>,
    file: Seq<(Seq<char>, Seq<char>)>,
) -> Result<Option<int>, ConfigErrorView> {
    chosen_number(
        size_view(run.workers),
        "LOGPUSHI_WORKERS"@,
        env_text(env, Some("LOGPUSHI_WORKERS"@)),
        "workers"@,
        value_of(file, "workers"@),
        usize::MAX as int,
    )
}

pub open spec fn timeout_setting(
    run: RunArgs,
    env: Seq<(Seq<char>, Seq<char>)>,
    file: Seq<(Seq<char>, Seq<char>)>,
) -> Result<Option<int>, ConfigErrorView> {
    chosen_number(
        number_view(run.timeout),
        "LOGPUSHI_TIMEOUT"@,
        env_text(env, Some("LOGPUSHI_TIMEOUT"@)),
        "timeout"@,
        value_of(file, "timeout"@),
        u64::MAX as int,
    )
}

pub open spec fn retries_setting(
    run: RunArgs,
    env: Seq<(Seq<char>, Seq<char>)>,
    file: Seq<(Seq<char>, Seq<char>)>,
) -> Result<Option<int>, ConfigErrorView> {
    chosen_number(
        match run.retries {
            Some(v) => Some(v as int),
            None => None,
        },
        "LOGPUSHI_RETRIES"@,
        env_text(env, Some("LOGPUSHI_RETRIES"@)),
        "retries"@,
        value_of(file, "retries"@),
        u32::MAX as int,
    )
}

/// A number that was set, or its default.
pub open spec fn or_default(n: Result<Option<int>, ConfigErrorView>, default: int) -> int {
    match n {
        Ok(Some(v)) => v,
        _ => default,
    }
}

/// A flag, by precedence.
pub open spec fn flag_setting(cli: bool, key: Seq<char>, file: Seq<(Seq<char>, Seq<char>)>) -> bool {
    chosen_flag(cli, value_of(file, key))
}

/// The first error among the settings of a run, in the order in which they are
/// looked at.
pub open spec fn run_error(
    run: RunArgs,
    env: Seq<(Seq<char>, Seq<char>)>,
    file: Seq<(Seq<char>, Seq<char>)>,
    parsed: Result<u64, Seq<char>>,
) -> Option<ConfigErrorView> {
    let transport = transport_text(run, env, file);
    let window = named_window(lower(trim(window_setting(run, file))));
    let offset = offset_setting(run, file);
    let protocol = protocol_setting(run, file);
    if named_transport(transport) is None {
        Some(ConfigErrorView::UnknownTransport { text: transport })
    } else if window is Err {
        Some(window->Err_0)
    } else if offset != "random"@ && offset != "start"@ {
        Some(ConfigErrorView::UnknownStartOffset { text: offset })
    } else if protocol != "http"@ && protocol != "grpc"@ {
        Some(ConfigErrorView::UnknownProtocol { text: protocol })
    } else if lines_setting(run, file) is Err {
        Some(lines_setting(run, file)->Err_0)
    } else if seed_setting(run, env, file) is Err {
        Some(seed_setting(run, env, file)->Err_0)
    } else if batch_setting(run, env, file) is Err {
        Some(batch_setting(run, env, file)->Err_0)
    } else if workers_setting(run, env, file) is Err {
        Some(workers_setting(run, env, file)->Err_0)
    } else if rate_value(rate_source(run, env, file), parsed) is Err {
        Some(rate_value(rate_source(run, env, file), parsed)->Err_0)
    } else if timeout_setting(run, env, file) is Err {
        Some(timeout_setting(run, env, file)->Err_0)
    } else if retries_setting(run, env, file) is Err {
        Some(retries_setting(run, env, file)->Err_0)
    } else {
        None
    }
}

/// `c` is the configuration that the sources of a run's settings give.
pub open spec fn is_run_config(
    c: Config,
    run: RunArgs,
    mode: SimMode,
    env: Seq<(Seq<char>, Seq<char>)>,
    file: Seq<(Seq<char>, Seq<char>)>,
    parsed: Result<u64, Seq<char>>,
) -> bool {
    &&& c.log_dir@ == log_dir_of(text_view(run.log_dir), env, file)
    &&& c.mode == mode
    &&& c.lines == or_default(lines_setting(run, file), 100)
    &&& seed_setting(run, env, file) == Ok::<Option<int>, ConfigErrorView>(number_view(c.seed))
    &&& text_view(c.file) == chosen_opt(text_view(run.file), None, value_of(file, "file"@))
    &&& c.batch_size == or_default(batch_setting(run, env, file), 100)
    &&& c.workers == or_default(workers_setting(run, env, file), 4)
    &&& rate_value(rate_source(run, env, file), parsed) == Ok::<u64, ConfigErrorView>(c.rate)
    &&& c.timeout == or_default(timeout_setting(run, env, file), 30)
    &&& c.retries == or_default(retries_setting(run, env, file), 3)
    &&& c.insecure == flag_setting(run.insecure, "insecure"@, file)
    &&& c.fail_fast == flag_setting(run.fail_fast, "fail_fast"@, file)
    &&& c.quiet == flag_setting(run.quiet, "quiet"@, file)
    &&& c.verbose == flag_setting(run.verbose, "verbose"@, file)
    &&& c.json == flag_setting(run.json, "json"@, file)
    &&& named_transport(transport_text(run, env, file)) == Some(c.transport)
    &&& text_view(c.endpoint) == endpoint_setting(run, c.transport, env, file)
    &&& text_view(c.hec_token) == chosen_opt(
        text_view(run.hec_token),
        env_text(env, Some("LOGPUSHI_HEC_TOKEN"@)),
        value_of(file, "hec_token"@),
    )
    &&& text_view(c.hec_index) == chosen_opt(text_view(run.index), None, value_of(file, "index"@))
    &&& text_view(c.hec_source) == chosen_opt(
        text_view(run.source),
        None,
        value_of(file, "source"@),
    )
    &&& text_view(c.hec_sourcetype) == chosen_opt(
        text_view(run.sourcetype),
        None,
        value_of(file, "sourcetype"@),
    )
    &&& c.host@ == chosen_text(text_view(run.host), None, value_of(file, "host"@), ""@)
    &&& c.otel_protocol == (if protocol_setting(run, file) == "http"@ {
        OtelProtocol::Http
    } else {
        OtelProtocol::Grpc
    })
    &&& c.service_name@ == chosen_text(
        text_view(run.service_name),
        env_text(env, Some("LOGPUSHI_SERVICE_NAME"@)),
        value_of(file, "service_name"@),
        "logpushi"@,
    )
    &&& named_window(lower(trim(window_setting(run, file)))) == Ok::<TimeWindow, ConfigErrorView>(
        c.recent_window,
    )
    &&& c.ts_distribution@ == chosen_text(
        text_view(run.ts_distribution),
        None,
        value_of(file, "ts_distribution"@),
        "uniform"@,
    )
    &&& c.start_offset_random == (offset_setting(run, file) == "random"@)
    &&& c.no_loop == flag_setting(run.no_loop, "no_loop"@, file)
    &&& !c.count_lines
    &&& c.validate_sample == 200
    &&& c.validate_file is None
}

/// The text of the recent window of a run.
pub fn window_text(run: &RunArgs, file: &KeyValues) -> (r: String)
    ensures
        r@ == window_setting(*run, file@),
{
    resolve_string(&run.recent_window, None, file.get("recent_window"), "1h")
}

fn wide(n: Option<usize>) -> (r: Option<u64>)
    ensures
        number_view(r) == size_view(n),
        r matches Some(v) ==> v <= usize::MAX,
{
    match n {
        Some(v) => Some(v as u64),
        None => None,
    }
}

fn number_or(n: Option<u64>, default: u64) -> (r: u64)
    ensures
        r == or_default(Ok(number_view(n)), default as int),
{
    match n {
        Some(v) => v,
        None => default,
    }
}

fn rate_of(src: RateSource, parsed: Result<u64, String>) -> (r: Result<u64, ConfigError>)
    ensures
        match r {
            Ok(b) => rate_value(src@, parsed_view(parsed)) == Ok::<u64, ConfigErrorView>(b),
            Err(e) => rate_value(src@, parsed_view(parsed)) == Err::<u64, ConfigErrorView>(e@),
        },
{
    match src {
        RateSource::Given(b) => Ok(b),
        RateSource::Env(value) => match parsed {
            Ok(b) => Ok(b),
            Err(problem) => Err(
                ConfigError::EnvValue { key: "LOGPUSHI_RATE".to_owned(), value, problem },
            ),
        },
        RateSource::File(_) => match parsed {
            Ok(b) => Ok(b),
            Err(problem) => Err(ConfigError::FileValue { key: "rate".to_owned(), problem }),
        },
        RateSource::Default => Ok(0),
    }
}

fn resolve_endpoint(
    run: &RunArgs,
    transport: TransportKind,
    env: &KeyValues,
    file: &KeyValues,
) -> (r: Option<String>)
    ensures
        text_view(r) == endpoint_setting(*run, transport, env@, file@),
{
    let from_env = match transport {
        TransportKind::Otel => env_value(env, "LOGPUSHI_OTEL_ENDPOINT"),
        TransportKind::Hec => env_value(env, "LOGPUSHI_HEC_ENDPOINT"),
        TransportKind::Stdout => None,
    };
    resolve_text(&run.endpoint, from_env, file.get("endpoint"))
}

impl Config {
    /// The configuration of a run: each setting from the command line, else
    /// from the environment, else from the config file, else by default. The
    /// rate, where it comes as a text, has been read as a double already:
    /// `parsed` is what came of that.
    pub fn from_run(
        run: &RunArgs,
        mode: SimMode,
        env: &KeyValues,
        file: &KeyValues,
        parsed: Result<u64, String>,
    ) -> (r: Result<Config, ConfigError>)
        requires
            readable_window(window_setting(*run, file@)),
        ensures
            match r {
                Ok(c) => run_error(*run, env@, file@, parsed_view(parsed)) is None
                    && is_run_config(c, *run, mode, env@, file@, parsed_view(parsed)),
                Err(e) => run_error(*run, env@, file@, parsed_view(parsed)) == Some(e@),
            },
    {
        let transport_name = resolve_string(
            &run.transport,
            env_value(env, "LOGPUSHI_TRANSPORT"),
            file.get("transport"),
            "stdout",
        );
        let transport = parse_transport(transport_name.as_str())?;
        let hec_token = resolve_text(
            &run.hec_token,
            env_value(env, "LOGPUSHI_HEC_TOKEN"),
            file.get("hec_token"),
        );
        let endpoint = resolve_endpoint(run, transport, env, file);
        let recent_window = parse_window(window_text(run, file).as_str())?;
        let offset = resolve_string(&run.start_offset, None, file.get("start_offset"), "random");
        let start_offset_random = same_str(offset.as_str(), "random");
        if !start_offset_random && !same_str(offset.as_str(), "start") {
            return Err(ConfigError::UnknownStartOffset { text: offset });
        }
        let protocol = resolve_string(
            &run.otel_protocol,
            None,
            file.get("otel_protocol"),
            "http",
        );
        let http = same_str(protocol.as_str(), "http");
        if !http && !same_str(protocol.as_str(), "grpc") {
            return Err(ConfigError::UnknownProtocol { text: protocol });
        }
        let log_dir = resolve_log_dir(&run.log_dir, env, file);
        let lines: Option<u64> = resolve_opt(
            run.lines,
            "",
            None,
            "lines",
            file.get("lines"),
            u64::MAX,
        )?;
        let seed: Option<u64> = resolve_opt(
            run.seed,
            "LOGPUSHI_SEED",
            env_value(env, "LOGPUSHI_SEED"),
            "seed",
            file.get("seed"),
            u64::MAX,
        )?;
        let batch_size: Option<u64> = resolve_opt(
            wide(run.batch_size),
            "LOGPUSHI_BATCH_SIZE",
            env_value(env, "LOGPUSHI_BATCH_SIZE"),
            "batch_size",
            file.get("batch_size"),
            usize::MAX as u64,
        )?;
        let workers: Option<u64> = resolve_opt(
            wide(run.workers),
            "LOGPUSHI_WORKERS",
            env_value(env, "LOGPUSHI_WORKERS"),
            "workers",
            file.get("workers"),
            usize::MAX as u64,
        )?;
        let rate: u64 = rate_of(rate_choice(run, env, file), parsed)?;
        let timeout: Option<u64> = resolve_opt(
            run.timeout,
            "LOGPUSHI_TIMEOUT",
            env_value(env, "LOGPUSHI_TIMEOUT"),
            "timeout",
            file.get("timeout"),
            u64::MAX,
        )?;
        let given_retries: Option<u64> = match run.retries {
            Some(v) => Some(v as u64),
            None => None,
        };
        let retries: Option<u64> = resolve_opt(
            given_retries,
            "LOGPUSHI_RETRIES",
            env_value(env, "LOGPUSHI_RETRIES"),
            "retries",
            file.get("retries"),
            u32::MAX as u64,
        )?;
        let insecure = resolve_flag(run.insecure, file.get("insecure"));
        let fail_fast = resolve_flag(run.fail_fast, file.get("fail_fast"));
        let quiet = resolve_flag(run.quiet, file.get("quiet"));
        let verbose = resolve_flag(run.verbose, file.get("verbose"));
        let json = resolve_flag(run.json, file.get("json"));
        let no_loop = resolve_flag(run.no_loop, file.get("no_loop"));
        Ok(
            Config {
                log_dir,
                mode,
                lines: number_or(lines, 100),
                seed,
                file: resolve_text(&run.file, None, file.get("file")),
                batch_size: number_or(batch_size, 100) as usize,
                workers: number_or(workers, 4) as usize,
                rate,
                timeout: number_or(timeout, 30),
                retries: number_or(retries, 3) as u32,
                insecure,
                fail_fast,
                quiet,
                verbose,
                json,
                transport,
                endpoint,
                hec_token,
                hec_index: resolve_text(&run.index, None, file.get("index")),
                hec_source: resolve_text(&run.source, None, file.get("source")),
                hec_sourcetype: resolve_text(&run.sourcetype, None, file.get("sourcetype")),
                host: resolve_string(&run.host, None, file.get("host"), ""),
                otel_protocol: if http {
                    OtelProtocol::Http
                } else {
                    OtelProtocol::Grpc
                },
                service_name: resolve_string(
                    &run.service_name,
                    env_value(env, "LOGPUSHI_SERVICE_NAME"),
                    file.get("service_name"),
                    "logpushi",
                ),
                recent_window,
                ts_distribution: resolve_string(
                    &run.ts_distribution,
                    None,
                    file.get("ts_distribution"),
                    "uniform",
                ),
                start_offset_random,
                no_loop,
                count_lines: false,
                validate_sample: 200,
                validate_file: None,
            },
        )
    }
}

// ---------------------------------------------------------------------------
// Validation
// ---------------------------------------------------------------------------

/// The IEEE 754 bits of infinity: the doubles whose bits are greater are not
/// numbers, or negative.
pub const INFINITY: u64 = 0x7ff0_0000_0000_0000;

/// A double that is neither negative nor not a number.
pub open spec fn valid_rate(bits: u64) -> bool {
    bits <= INFINITY
}

/// What is wrong with a configuration, if anything: the first objection counts.
pub open spec fn config_error(c: Config) -> Option<ConfigErrorView> {
    if c.workers == 0 {
        Some(ConfigErrorView::NoWorkers)
    } else if c.batch_size == 0 {
        Some(ConfigErrorView::NoBatchSize)
    } else if c.lines == 0 {
        Some(ConfigErrorView::NoLines)
    } else if !valid_rate(c.rate) {
        Some(ConfigErrorView::BadRate)
    } else if c.transport != TransportKind::Stdout && c.endpoint is None {
        Some(ConfigErrorView::NoEndpoint { otel: c.transport == TransportKind::Otel })
    } else if c.transport == TransportKind::Hec && c.hec_token is None {
        Some(ConfigErrorView::NoToken)
    } else if c.otel_protocol == OtelProtocol::Grpc {
        if c.transport != TransportKind::Otel {
            Some(ConfigErrorView::ProtocolWithoutOtel)
        } else {
            Some(ConfigErrorView::GrpcNotImplemented)
        }
    } else if c.ts_distribution@ != "uniform"@ {
        Some(ConfigErrorView::UnknownDistribution { text: c.ts_distribution@ })
    } else {
        None
    }
}

/// The URL without what stands behind its first question mark, which could
/// carry credentials.
pub open spec fn redacted(url: Seq<char>) -> Seq<char> {
    if url.contains('?') {
        url.take(url.index_of_first('?')->0) + "?<redacted>"@
    } else {
        url
    }
}

/// Redact query parameters that could carry credentials.
pub fn redact_url(url: &str) -> (r: String)
    ensures
        r@ == redacted(url@),
{
    let cs = chars_of(url);
    match find_char(&cs, '?') {
        Some(i) => {
            proof {
                cs@.index_of_first_ensures('?');
                let f = cs@.index_of_first('?')->0;
                assert(f == i);
            }
            let mut out = string_of(&cs, 0, i);
            out.append("?<redacted>");
            out
        },
        None => url.to_owned(),
    }
}

/// Whatever stands behind the question mark, the redacted URL is the same.
pub proof fn lemma_redaction_hides_the_query(base: Seq<char>, q1: Seq<char>, q2: Seq<char>)
    requires
        !base.contains('?'),
    ensures
        redacted(base + seq!['?'] + q1) == redacted(base + seq!['?'] + q2),
        redacted(base + seq!['?'] + q1) == base + "?<redacted>"@,
{
    lemma_redacted(base, q1);
    lemma_redacted(base, q2);
}

proof fn lemma_redacted(base: Seq<char>, q: Seq<char>)
    requires
        !base.contains('?'),
    ensures
        redacted(base + seq!['?'] + q) == base + "?<redacted>"@,
{
    let url = base + seq!['?'] + q;
    assert(url[base.len() as int] == '?');
    url.index_of_first_ensures('?');
    let f = url.index_of_first('?')->0;
    assert(f == base.len()) by {
        if f < base.len() {
            assert(base[f] == url[f]);
            assert(base.contains('?'));
        }
    }
    assert(url.take(f) =~= base);
}

/// The endpoint as it may be shown.
pub open spec fn shown_endpoint(c: Config) -> Seq<char> {
    match c.transport {
        TransportKind::Stdout => "-"@,
        _ => redacted(
            match c.endpoint {
                Some(e) => e@,
                None => ""@,
            },
        ),
    }
}

/// A redacted, printable echo of the configuration.
pub open spec fn described(c: Config, rate: Seq<char>) -> Seq<char> {
    "mode="@ + mode_label(c.mode) + " transport="@ + transport_label(c.transport) + " endpoint="@
        + shown_endpoint(c) + " lines="@ + decimal(c.lines as int) + " batch_size="@ + decimal(
        c.batch_size as int,
    ) + " workers="@ + decimal(c.workers as int) + " rate="@ + rate + " retries="@ + decimal(
        c.retries as int,
    ) + " seed="@ + (match c.seed {
        Some(s) => decimal(s as int),
        None => "auto"@,
    })
}

impl Config {
    /// Whether the configuration can be run.
    pub fn validate(&self) -> (r: Result<(), ConfigError>)
        ensures
            match r {
                Ok(()) => config_error(*self) is None,
                Err(e) => config_error(*self) == Some(e@),
            },
    {
        if self.workers == 0 {
            return Err(ConfigError::NoWorkers);
        }
        if self.batch_size == 0 {
            return Err(ConfigError::NoBatchSize);
        }
        if self.lines == 0 {
            return Err(ConfigError::NoLines);
        }
        if self.rate > INFINITY {
            return Err(ConfigError::BadRate);
        }
        if self.transport != TransportKind::Stdout && self.endpoint.is_none() {
            return Err(
                ConfigError::NoEndpoint { otel: self.transport == TransportKind::Otel },
            );
        }
        if self.transport == TransportKind::Hec && self.hec_token.is_none() {
            return Err(ConfigError::NoToken);
        }
        if self.transport != TransportKind::Otel && self.otel_protocol == OtelProtocol::Grpc {
            return Err(ConfigError::ProtocolWithoutOtel);
        }
        if self.transport == TransportKind::Otel && self.otel_protocol == OtelProtocol::Grpc {
            return Err(ConfigError::GrpcNotImplemented);
        }
        if !same_str(self.ts_distribution.as_str(), "uniform") {
            return Err(
                ConfigError::UnknownDistribution { text: self.ts_distribution.clone() },
            );
        }
        Ok(())
    }

    /// A redacted, printable echo of the config for summaries; `rate` is the
    /// text of the rate.
    pub fn describe(&self, rate: &str) -> (r: String)
        ensures
            r@ == described(*self, rate@),
    {
        let endpoint = self.display_endpoint();
        let mut out = String::new();
        out.append("mode=");
        out.append(mode_name(self.mode));
        out.append(" transport=");
        out.append(transport_name(self.transport));
        out.append(" endpoint=");
        out.append(endpoint.as_str());
        out.append(" lines=");
        push_decimal(&mut out, self.lines);
        out.append(" batch_size=");
        push_decimal(&mut out, self.batch_size as u64);
        out.append(" workers=");
        push_decimal(&mut out, self.workers as u64);
        out.append(" rate=");
        out.append(rate);
        out.append(" retries=");
        push_decimal(&mut out, self.retries as u64);
        out.append(" seed=");
        match self.seed {
            Some(s) => push_decimal(&mut out, s),
            None => out.append("auto"),
        }
        assert(out@ =~= described(*self, rate@));
        out
    }

    /// The endpoint as it may be shown: without its query, and `-` where the
    /// transport has none.
    pub fn display_endpoint(&self) -> (r: String)
        ensures
            r@ == shown_endpoint(*self),
    {
        match self.transport {
            TransportKind::Stdout => "-".to_owned(),
            _ => match &self.endpoint {
                Some(e) => redact_url(e.as_str()),
                None => redact_url(""),
            },
        }
    }
}

/// The echo of a configuration tells nothing of the HEC token, and nothing of
/// the query of the endpoint.
pub proof fn lemma_description_hides_secrets(c1: Config, c2: Config, rate: Seq<char>)
    requires
        c1.mode == c2.mode,
        c1.transport == c2.transport,
        redacted(text_view(c1.endpoint).unwrap_or(""@)) == redacted(
            text_view(c2.endpoint).unwrap_or(""@),
        ),
        c1.lines == c2.lines,
        c1.batch_size == c2.batch_size,
        c1.workers == c2.workers,
        c1.retries == c2.retries,
        c1.seed == c2.seed,
    ensures
        described(c1, rate) == described(c2, rate),
{
}

// ---------------------------------------------------------------------------
// Precedence as a law
// ---------------------------------------------------------------------------

/// Command line over environment over config file over default: a text setting
/// is the first that is given.
pub proof fn lemma_precedence(
    cli: Option<Seq<char>>,
    env: Option<Seq<char>>,
    file: Option<Seq<char>>,
    default: Seq<char>,
)
    ensures
        cli is Some ==> chosen_text(cli, env, file, default) == cli->0,
        cli is None && env is Some ==> chosen_text(cli, env, file, default) == env->0,
        cli is None && env is None && file is Some ==> chosen_text(cli, env, file, default)
            == file->0,
        cli is None && env is None && file is None ==> chosen_text(cli, env, file, default)
            == default,
{
}

/// The same of a number: what a later source says does not count, not even
/// where it is no number.
pub proof fn lemma_number_precedence(
    cli: Option<int>,
    env_key: Seq<char>,
    env: Option<Seq<char>>,
    file_key: Seq<char>,
    file1: Option<Seq<char>>,
    file2: Option<Seq<char>>,
    max: int,
)
    ensures
        cli is Some ==> chosen_number(cli, env_key, env, file_key, file1, max) == Ok::<
            Option<int>,
            ConfigErrorView,
        >(cli),
        cli is Some || env is Some ==> chosen_number(cli, env_key, env, file_key, file1, max)
            == chosen_number(cli, env_key, env, file_key, file2, max),
{
}

// ---------------------------------------------------------------------------
// All commands
// ---------------------------------------------------------------------------

/// The log directory of a run, by precedence.
pub open spec fn log_dir_of(
    cli: Option<Seq<char>>,
    env: Seq<(Seq<char>, Seq<char>)>,
    file: Seq<(Seq<char>, Seq<char>)>,
) -> Seq<char> {
    chosen_text(
        cli,
        env_text(env, Some("LOGPUSHI_LOG_DIR"@)),
        value_of(file, "log_dir"@),
        "./logs"@,
    )
}

/// The log directory of `discover` and `validate`, by precedence. Here an empty
/// environment variable counts.
pub open spec fn corpus_dir_of(
    cli: Option<Seq<char>>,
    env: Seq<(Seq<char>, Seq<char>)>,
    file: Seq<(Seq<char>, Seq<char>)>,
) -> Seq<char> {
    chosen_text(
        cli,
        value_of(env, "LOGPUSHI_LOG_DIR"@),
        value_of(file, "log_dir"@),
        "./logs"@,
    )
}

/// The lines that `validate` samples of a file, by precedence.
pub open spec fn sample_setting(v: ValidateArgs, file: Seq<(Seq<char>, Seq<char>)>) -> Result<
    Option<int>,
    ConfigErrorView,
> {
    chosen_number(
        number_view(v.sample),
        ""@,
        None,
        "sample"@,
        value_of(file, "sample"@),
        u64::MAX as int,
    )
}

/// `c` is the configuration of a command that only looks at the corpus.
pub open spec fn is_corpus_config(
    c: Config,
    log_dir: Seq<char>,
    file: Option<Seq<char>>,
    json: bool,
    count_lines: bool,
    sample: u64,
) -> bool {
    &&& c.log_dir@ == log_dir
    &&& c.mode == SimMode::Replay
    &&& c.lines == 0
    &&& c.seed is None
    &&& text_view(c.file) == file
    &&& c.batch_size == 100
    &&& c.workers == 4
    &&& c.rate == 0
    &&& c.timeout == 30
    &&& c.retries == 3
    &&& !c.insecure && !c.fail_fast && !c.quiet && !c.verbose
    &&& c.json == json
    &&& c.transport == TransportKind::Stdout
    &&& c.endpoint is None && c.hec_token is None && c.hec_index is None
    &&& c.hec_source is None && c.hec_sourcetype is None
    &&& c.host@ == ""@
    &&& c.otel_protocol == OtelProtocol::Http
    &&& c.service_name@ == "logpushi"@
    &&& c.recent_window == TimeWindow::Seconds(3600)
    &&& c.ts_distribution@ == "uniform"@
    &&& c.start_offset_random
    &&& !c.no_loop
    &&& c.count_lines == count_lines
    &&& c.validate_sample == sample
    &&& c.validate_file is None
}

fn corpus_config(
    log_dir: String,
    file: Option<String>,
    json: bool,
    count_lines: bool,
    sample: u64,
) -> (r: Config)
    ensures
        is_corpus_config(r, log_dir@, text_view(file), json, count_lines, sample),
{
    Config {
        log_dir,
        mode: SimMode::Replay,
        lines: 0,
        seed: None,
        file,
        batch_size: 100,
        workers: 4,
        rate: 0,
        timeout: 30,
        retries: 3,
        insecure: false,
        fail_fast: false,
        quiet: false,
        verbose: false,
        json,
        transport: TransportKind::Stdout,
        endpoint: None,
        hec_token: None,
        hec_index: None,
        hec_source: None,
        hec_sourcetype: None,
        host: "".to_owned(),
        otel_protocol: OtelProtocol::Http,
        service_name: "logpushi".to_owned(),
        recent_window: TimeWindow::Seconds(3600),
        ts_distribution: "uniform".to_owned(),
        start_offset_random: true,
        no_loop: false,
        count_lines,
        validate_sample: sample,
        validate_file: None,
    }
}

/// The log directory of a run, by precedence.
pub fn resolve_log_dir(cli: &Option<String>, env: &KeyValues, file: &KeyValues) -> (r: String)
    ensures
        r@ == log_dir_of(text_view(*cli), env@, file@),
{
    resolve_string(cli, env_value(env, "LOGPUSHI_LOG_DIR"), file.get("log_dir"), "./logs")
}

/// The log directory of `discover` and `validate`, by precedence.
pub fn resolve_corpus_dir(cli: &Option<String>, env: &KeyValues, file: &KeyValues) -> (r: String)
    ensures
        r@ == corpus_dir_of(text_view(*cli), env@, file@),
{
    resolve_string(cli, env.get("LOGPUSHI_LOG_DIR"), file.get("log_dir"), "./logs")
}

fn discover_config(d: &DiscoverArgs, env: &KeyValues, file: &KeyValues) -> (r: Config)
    ensures
        is_corpus_config(
            r,
            corpus_dir_of(text_view(d.log_dir), env@, file@),
            None,
            flag_setting(d.json, "json"@, file@),
            d.lines,
            0,
        ),
{
    corpus_config(
        resolve_corpus_dir(&d.log_dir, env, file),
        None,
        resolve_flag(d.json, file.get("json")),
        d.lines,
        0,
    )
}

/// What comes of `validate`.
pub open spec fn validate_outcome(
    r: Result<Config, ConfigError>,
    v: ValidateArgs,
    env: Seq<(Seq<char>, Seq<char>)>,
    file: Seq<(Seq<char>, Seq<char>)>,
) -> bool {
    match sample_setting(v, file) {
        Ok(sample) => r matches Ok(c) && is_corpus_config(
            c,
            corpus_dir_of(text_view(v.log_dir), env, file),
            chosen_opt(text_view(v.file), None, value_of(file, "file"@)),
            flag_setting(v.json, "json"@, file),
            false,
            or_default(Ok(sample), 200) as u64,
        ),
        Err(problem) => r matches Err(e) && e@ == problem,
    }
}

fn validate_config(v: &ValidateArgs, env: &KeyValues, file: &KeyValues) -> (r: Result<
    Config,
    ConfigError,
>)
    ensures
        validate_outcome(r, *v, env@, file@),
{
    let sample: Option<u64> = resolve_opt(
        v.sample,
        "",
        None,
        "sample",
        file.get("sample"),
        u64::MAX,
    )?;
    let json = resolve_flag(v.json, file.get("json"));
    Ok(
        corpus_config(
            resolve_corpus_dir(&v.log_dir, env, file),
            resolve_text(&v.file, None, file.get("file")),
            json,
            false,
            number_or(sample, 200),
        ),
    )
}

/// The configuration of a run, with what came of it.
pub open spec fn run_outcome(
    r: Result<Config, ConfigError>,
    run: RunArgs,
    mode: SimMode,
    env: Seq<(Seq<char>, Seq<char>)>,
    file: Seq<(Seq<char>, Seq<char>)>,
    parsed: Result<u64, Seq<char>>,
) -> bool {
    match r {
        Ok(c) => run_error(run, env, file, parsed) is None && is_run_config(
            c,
            run,
            mode,
            env,
            file,
            parsed,
        ) && config_error(c) is None,
        Err(e) => run_error(run, env, file, parsed) == Some(e@) || (run_error(
            run,
            env,
            file,
            parsed,
        ) is None && exists|c: Config| #[trigger]
            is_run_config(c, run, mode, env, file, parsed) && config_error(c) == Some(e@)),
    }
}

fn run_config(
    run: &RunArgs,
    mode: SimMode,
    env: &KeyValues,
    file: &KeyValues,
    parsed: Result<u64, String>,
) -> (r: Result<Config, ConfigError>)
    requires
        readable_window(window_setting(*run, file@)),
    ensures
        run_outcome(r, *run, mode, env@, file@, parsed_view(parsed)),
{
    let cfg = Config::from_run(run, mode, env, file, parsed)?;
    match cfg.validate() {
        Ok(()) => Ok(cfg),
        Err(e) => {
            assert(is_run_config(cfg, *run, mode, env@, file@, parsed_view(parsed)));
            Err(e)
        },
    }
}

/// A command whose recent window, if it has one, can be looked at.
pub open spec fn readable_command(command: Commands, file: Seq<(Seq<char>, Seq<char>)>) -> bool {
    match command {
        Commands::Replay(run) => readable_window(window_setting(run, file)),
        Commands::SyntheticToday(run) => readable_window(window_setting(run, file)),
        _ => true,
    }
}

/// The configuration of a command line, the environment and the settings of
/// the config file. A run's configuration is validated.
pub fn resolve_config(
    cli: &Cli,
    env: &KeyValues,
    file: &KeyValues,
    parsed: Result<u64, String>,
) -> (r: Result<Config, ConfigError>)
    requires
        readable_command(cli.command, file@),
    ensures
        match cli.command {
            Commands::Replay(run) => run_outcome(
                r,
                run,
                SimMode::Replay,
                env@,
                file@,
                parsed_view(parsed),
            ),
            Commands::SyntheticToday(run) => run_outcome(
                r,
                run,
                SimMode::SyntheticToday,
                env@,
                file@,
                parsed_view(parsed),
            ),
            Commands::Discover(d) => r matches Ok(c) && is_corpus_config(
                c,
                corpus_dir_of(text_view(d.log_dir), env@, file@),
                None,
                flag_setting(d.json, "json"@, file@),
                d.lines,
                0,
            ),
            Commands::Validate(v) => validate_outcome(r, v, env@, file@),
        },
{
    match &cli.command {
        Commands::Replay(run) => run_config(run, SimMode::Replay, env, file, parsed),
        Commands::SyntheticToday(run) => run_config(
            run,
            SimMode::SyntheticToday,
            env,
            file,
            parsed,
        ),
        Commands::Discover(d) => Ok(discover_config(d, env, file)),
        Commands::Validate(v) => validate_config(v, env, file),
    }
}

/// `c` has the defaults of a run: they are what its settings override.
pub open spec fn is_default_config(c: Config) -> bool {
    &&& c.log_dir@ == "./logs"@
    &&& c.mode == SimMode::Replay
    &&& c.lines == 100
    &&& c.seed is None
    &&& c.file is None
    &&& c.batch_size == 100
    &&& c.workers == 4
    &&& c.rate == 0
    &&& c.timeout == 30
    &&& c.retries == 3
    &&& !c.insecure && !c.fail_fast && !c.quiet && !c.verbose && !c.json
    &&& c.transport == TransportKind::Stdout
    &&& c.endpoint is None && c.hec_token is None && c.hec_index is None
    &&& c.hec_source is None && c.hec_sourcetype is None
    &&& c.host@ == ""@
    &&& c.otel_protocol == OtelProtocol::Http
    &&& c.service_name@ == "logpushi"@
    &&& c.recent_window == TimeWindow::Seconds(3600)
    &&& c.ts_distribution@ == "uniform"@
    &&& c.start_offset_random
    &&& !c.no_loop && !c.count_lines
    &&& c.validate_sample == 200
    &&& c.validate_file is None
}

/// A command line without settings.
pub open spec fn nothing_given(run: RunArgs) -> bool {
    &&& run.log_dir is None && run.lines is None && run.seed is None && run.file is None
    &&& run.transport is None && run.endpoint is None && run.batch_size is None
    &&& run.workers is None && run.rate is None && run.timeout is None && run.retries is None
    &&& !run.insecure && !run.fail_fast && !run.quiet && !run.verbose && !run.json
    &&& run.start_offset is None && !run.no_loop && run.recent_window is None
    &&& run.ts_distribution is None && run.hec_token is None && run.index is None
    &&& run.source is None && run.sourcetype is None && run.host is None
    &&& run.otel_protocol is None && run.service_name is None
}

pub proof fn lemma_window_of_an_hour()
    ensures
        named_window(lower(trim("1h"@))) == Ok::<TimeWindow, ConfigErrorView>(
            TimeWindow::Seconds(3600),
        ),
{
    let s = "1h"@;
    reveal_strlit("1h");
    reveal_strlit("now");
    reveal_strlit("today");
    assert(trim(s) == s);
    assert(lower(s) =~= s);
    lemma_short_text(s);
    assert("now"@.len() == 3 && "today"@.len() == 5);
    assert(s.drop_last() =~= seq!['1']);
    reveal_with_fuel(unsigned_from, 3);
    assert(unsigned_value(seq!['1'], u64::MAX as int) == Ok::<int, IntProblem>(1));
}

/// A replay for which neither the command line nor the environment nor the
/// config file sets anything has the defaults.
pub proof fn lemma_nothing_set_gives_the_defaults(
    c: Config,
    run: RunArgs,
    parsed: Result<u64, Seq<char>>,
)
    requires
        nothing_given(run),
    ensures
        run_error(run, seq![], seq![], parsed) is None,
        is_run_config(c, run, SimMode::Replay, seq![], seq![], parsed) ==> is_default_config(c),
{
    lemma_window_of_an_hour();
    lemma_transport_names_read_back(TransportKind::Stdout);
}

/// Baseline defaults (also the base for CLI/env/file overrides).
impl Default for Config {
    fn default() -> (r: Config)
        ensures
            is_default_config(r),
    {
        Config {
            log_dir: "./logs".to_owned(),
            mode: SimMode::Replay,
            lines: 100,
            seed: None,
            file: None,
            batch_size: 100,
            workers: 4,
            rate: 0,
            timeout: 30,
            retries: 3,
            insecure: false,
            fail_fast: false,
            quiet: false,
            verbose: false,
            json: false,
            transport: TransportKind::Stdout,
            endpoint: None,
            hec_token: None,
            hec_index: None,
            hec_source: None,
            hec_sourcetype: None,
            host: "".to_owned(),
            otel_protocol: OtelProtocol::Http,
            service_name: "logpushi".to_owned(),
            recent_window: TimeWindow::Seconds(3600),
            ts_distribution: "uniform".to_owned(),
            start_offset_random: true,
            no_loop: false,
            count_lines: false,
            validate_sample: 200,
            validate_file: None,
        }
    }
}

} // verus!
