//! Settings: which of its sources decides each of them, and which configurations
//! can be run.

use vstd::prelude::*;

use vstd::utf8::encode_utf8;

use crate::cli::{Cli, Commands, RunArgs, ValidateArgs};
use crate::config::{
    is_default_config, lemma_short_text, lemma_window_of_an_hour, mode_name, named_window,
    parse_window, rate_choice, readable_window, redacted, resolve_config, transport_name,
    validate_outcome, Config, OtelProtocol, RateSource, RateSourceView, SimMode, TimeWindow,
    TransportKind,
};
use crate::json::{json_value, FieldView, JsonView};
use crate::settings::{
    env_value, file_settings, load_settings, resolve_flag, resolve_string, resolve_text, text_view,
    underscored, value_of, ConfigError, ConfigErrorView, KeyValues,
};
use crate::text::{
    all_digits, ascii_digit, decimal, digit_value, digits_value, lemma_padded_reads_back, lower,
    trim, unsigned_from, unsigned_value, IntProblem,
};

verus! {

broadcast use vstd::string::group_string_axioms;

// ---------------------------------------------------------------------------
// The settings of a run
// ---------------------------------------------------------------------------

/// Every setting that the command line gives is the one that the run has, whatever
/// the environment and the config file say.
#[verifier::rlimit(40)]
pub proof fn lemma_command_line_decides(
    run: &RunArgs,
    mode: SimMode,
    env: &KeyValues,
    file: &KeyValues,
    parsed: Result<u64, String>,
    c: Config,
)
    requires
        call_ensures(Config::from_run, (run, mode, env, file, parsed), Ok(c)),
    ensures
        run.lines matches Some(n) ==> c.lines == n,
        run.batch_size matches Some(n) ==> c.batch_size == n,
        run.workers matches Some(n) ==> c.workers == n,
        run.timeout matches Some(n) ==> c.timeout == n,
        run.retries matches Some(n) ==> c.retries == n,
        run.seed matches Some(n) ==> c.seed == Some(n),
        run.rate matches Some(b) ==> c.rate == b,
        run.log_dir matches Some(s) ==> c.log_dir@ == s@,
        run.host matches Some(s) ==> c.host@ == s@,
        run.service_name matches Some(s) ==> c.service_name@ == s@,
        run.ts_distribution matches Some(s) ==> c.ts_distribution@ == s@,
        run.file matches Some(s) ==> text_view(c.file) == Some(s@),
        run.hec_token matches Some(s) ==> text_view(c.hec_token) == Some(s@),
        run.index matches Some(s) ==> text_view(c.hec_index) == Some(s@),
        run.source matches Some(s) ==> text_view(c.hec_source) == Some(s@),
        run.sourcetype matches Some(s) ==> text_view(c.hec_sourcetype) == Some(s@),
        run.endpoint matches Some(s) ==> text_view(c.endpoint) == Some(s@),
        run.insecure ==> c.insecure,
        run.fail_fast ==> c.fail_fast,
        run.quiet ==> c.quiet,
        run.verbose ==> c.verbose,
        run.json ==> c.json,
        run.no_loop ==> c.no_loop,
        run.recent_window matches Some(s) ==> named_window(lower(trim(s@))) == Ok::<
            TimeWindow,
            ConfigErrorView,
        >(c.recent_window),
        c.mode == mode,
{
}

/// A choice that the command line names is made: of the transport, the protocol,
/// the start of a replay and the recent window.
#[verifier::rlimit(40)]
pub proof fn lemma_named_choices(
    run: &RunArgs,
    mode: SimMode,
    env: &KeyValues,
    file: &KeyValues,
    parsed: Result<u64, String>,
    c: Config,
)
    requires
        call_ensures(Config::from_run, (run, mode, env, file, parsed), Ok(c)),
    ensures
        (run.transport matches Some(s) && s@ == "stdout"@) ==> c.transport
            == TransportKind::Stdout,
        (run.transport matches Some(s) && s@ == "otel"@) ==> c.transport
            == TransportKind::Otel,
        (run.transport matches Some(s) && s@ == "hec"@) ==> c.transport
            == TransportKind::Hec,
        (run.otel_protocol matches Some(s) && s@ == "http"@) ==> c.otel_protocol
            == OtelProtocol::Http,
        (run.otel_protocol matches Some(s) && s@ == "grpc"@) ==> c.otel_protocol
            == OtelProtocol::Grpc,
        (run.start_offset matches Some(s) && s@ == "random"@) ==> c.start_offset_random,
        (run.start_offset matches Some(s) && s@ == "start"@) ==> !c.start_offset_random,
        (run.recent_window matches Some(s) && lower(trim(s@)) == "now"@) ==> c.recent_window
            == TimeWindow::Now,
        (run.recent_window matches Some(s) && lower(trim(s@)) == "today"@) ==> c.recent_window
            == TimeWindow::Today,
{
    reveal_strlit("stdout");
    reveal_strlit("otel");
    reveal_strlit("hec");
    reveal_strlit("http");
    reveal_strlit("grpc");
    reveal_strlit("random");
    reveal_strlit("start");
    reveal_strlit("now");
    reveal_strlit("today");
    assert("otel"@[0] == 'o' && "stdout"@[0] == 's' && "hec"@[0] == 'h');
    assert("http"@[0] == 'h' && "grpc"@[0] == 'g');
    assert("random"@[0] == 'r' && "start"@[0] == 's');
    assert("now"@[0] == 'n' && "today"@[0] == 't');
}

/// The environment variable is set, and not to nothing.
pub open spec fn is_set(env: Seq<(Seq<char>, Seq<char>)>, key: Seq<char>) -> bool {
    value_of(env, key) matches Some(v) && v.len() > 0
}

/// The config file switches the flag on: it names it, and does not say `false`.
pub open spec fn is_on(file: Seq<(Seq<char>, Seq<char>)>, key: Seq<char>) -> bool {
    value_of(file, key) matches Some(v) && v != "false"@
}

/// The setting with the key reads as the number.
pub open spec fn reads_as(
    sources: Seq<(Seq<char>, Seq<char>)>,
    key: Seq<char>,
    max: int,
    n: int,
) -> bool {
    value_of(sources, key) matches Some(v) && unsigned_value(v, max) == Ok::<int, IntProblem>(n)
}

/// Where the command line is silent, a variable that is set decides, whatever the
/// config file says.
#[verifier::rlimit(40)]
pub proof fn lemma_environment_decides_next(
    run: &RunArgs,
    mode: SimMode,
    env: &KeyValues,
    file: &KeyValues,
    parsed: Result<u64, String>,
    c: Config,
)
    requires
        call_ensures(Config::from_run, (run, mode, env, file, parsed), Ok(c)),
    ensures
        run.batch_size is None && is_set(env@, "LOGPUSHI_BATCH_SIZE"@) ==> reads_as(
            env@,
            "LOGPUSHI_BATCH_SIZE"@,
            usize::MAX as int,
            c.batch_size as int,
        ),
        run.workers is None && is_set(env@, "LOGPUSHI_WORKERS"@) ==> reads_as(
            env@,
            "LOGPUSHI_WORKERS"@,
            usize::MAX as int,
            c.workers as int,
        ),
        run.timeout is None && is_set(env@, "LOGPUSHI_TIMEOUT"@) ==> reads_as(
            env@,
            "LOGPUSHI_TIMEOUT"@,
            u64::MAX as int,
            c.timeout as int,
        ),
        run.retries is None && is_set(env@, "LOGPUSHI_RETRIES"@) ==> reads_as(
            env@,
            "LOGPUSHI_RETRIES"@,
            u32::MAX as int,
            c.retries as int,
        ),
        run.seed is None && is_set(env@, "LOGPUSHI_SEED"@) ==> c.seed is Some && reads_as(
            env@,
            "LOGPUSHI_SEED"@,
            u64::MAX as int,
            c.seed->0 as int,
        ),
        run.rate is None && is_set(env@, "LOGPUSHI_RATE"@) ==> parsed == Ok::<u64, String>(c.rate),
        run.log_dir is None && is_set(env@, "LOGPUSHI_LOG_DIR"@) ==> value_of(
            env@,
            "LOGPUSHI_LOG_DIR"@,
        ) == Some(c.log_dir@),
        run.service_name is None && is_set(env@, "LOGPUSHI_SERVICE_NAME"@) ==> value_of(
            env@,
            "LOGPUSHI_SERVICE_NAME"@,
        ) == Some(c.service_name@),
        run.hec_token is None && is_set(env@, "LOGPUSHI_HEC_TOKEN"@) ==> value_of(
            env@,
            "LOGPUSHI_HEC_TOKEN"@,
        ) == text_view(c.hec_token),
        run.endpoint is None && c.transport == TransportKind::Otel && is_set(
            env@,
            "LOGPUSHI_OTEL_ENDPOINT"@,
        ) ==> value_of(env@, "LOGPUSHI_OTEL_ENDPOINT"@) == text_view(c.endpoint),
        run.endpoint is None && c.transport == TransportKind::Hec && is_set(
            env@,
            "LOGPUSHI_HEC_ENDPOINT"@,
        ) ==> value_of(env@, "LOGPUSHI_HEC_ENDPOINT"@) == text_view(c.endpoint),
{
}

/// Where the command line and the environment are silent, the config file decides;
/// a setting without a default is then what it says, or nothing.
#[verifier::rlimit(40)]
pub proof fn lemma_config_file_decides_last(
    run: &RunArgs,
    mode: SimMode,
    env: &KeyValues,
    file: &KeyValues,
    parsed: Result<u64, String>,
    c: Config,
)
    requires
        call_ensures(Config::from_run, (run, mode, env, file, parsed), Ok(c)),
    ensures
        run.lines is None && value_of(file@, "lines"@) is Some ==> reads_as(
            file@,
            "lines"@,
            u64::MAX as int,
            c.lines as int,
        ),
        run.batch_size is None && !is_set(env@, "LOGPUSHI_BATCH_SIZE"@) && value_of(
            file@,
            "batch_size"@,
        ) is Some ==> reads_as(
            file@,
            "batch_size"@,
            usize::MAX as int,
            c.batch_size as int,
        ),
        run.workers is None && !is_set(env@, "LOGPUSHI_WORKERS"@) && value_of(
            file@,
            "workers"@,
        ) is Some ==> reads_as(
            file@,
            "workers"@,
            usize::MAX as int,
            c.workers as int,
        ),
        run.timeout is None && !is_set(env@, "LOGPUSHI_TIMEOUT"@) && value_of(
            file@,
            "timeout"@,
        ) is Some ==> reads_as(
            file@,
            "timeout"@,
            u64::MAX as int,
            c.timeout as int,
        ),
        run.retries is None && !is_set(env@, "LOGPUSHI_RETRIES"@) && value_of(
            file@,
            "retries"@,
        ) is Some ==> reads_as(
            file@,
            "retries"@,
            u32::MAX as int,
            c.retries as int,
        ),
        run.seed is None && !is_set(env@, "LOGPUSHI_SEED"@) && value_of(file@, "seed"@) is Some
            ==> c.seed is Some && reads_as(
            file@,
            "seed"@,
            u64::MAX as int,
            c.seed->0 as int,
        ),
        run.rate is None && !is_set(env@, "LOGPUSHI_RATE"@) && value_of(file@, "rate"@) is Some
            ==> parsed == Ok::<u64, String>(c.rate),
        run.log_dir is None && !is_set(env@, "LOGPUSHI_LOG_DIR"@) && value_of(
            file@,
            "log_dir"@,
        ) is Some ==> value_of(file@, "log_dir"@) == Some(c.log_dir@),
        run.host is None && value_of(
            file@,
            "host"@,
        ) is Some ==> value_of(file@, "host"@) == Some(c.host@),
        run.service_name is None && !is_set(env@, "LOGPUSHI_SERVICE_NAME"@) && value_of(
            file@,
            "service_name"@,
        ) is Some ==> value_of(file@, "service_name"@) == Some(c.service_name@),
        run.ts_distribution is None && value_of(
            file@,
            "ts_distribution"@,
        ) is Some ==> value_of(file@, "ts_distribution"@) == Some(c.ts_distribution@),
        run.file is None ==> text_view(c.file)
            == value_of(file@, "file"@),
        run.hec_token is None && !is_set(env@, "LOGPUSHI_HEC_TOKEN"@) ==> text_view(c.hec_token)
            == value_of(file@, "hec_token"@),
        run.index is None ==> text_view(c.hec_index)
            == value_of(file@, "index"@),
        run.source is None ==> text_view(c.hec_source)
            == value_of(file@, "source"@),
        run.sourcetype is None ==> text_view(c.hec_sourcetype)
            == value_of(file@, "sourcetype"@),
        run.endpoint is None && c.transport == TransportKind::Otel && !is_set(
            env@,
            "LOGPUSHI_OTEL_ENDPOINT"@,
        ) ==> value_of(file@, "endpoint"@) == text_view(c.endpoint),
        run.endpoint is None && c.transport == TransportKind::Hec && !is_set(
            env@,
            "LOGPUSHI_HEC_ENDPOINT"@,
        ) ==> value_of(file@, "endpoint"@) == text_view(c.endpoint),
        run.endpoint is None && c.transport == TransportKind::Stdout ==> value_of(
            file@,
            "endpoint"@,
        ) == text_view(c.endpoint),
        !run.insecure ==> c.insecure == is_on(file@, "insecure"@),
        !run.fail_fast ==> c.fail_fast == is_on(file@, "fail_fast"@),
        !run.quiet ==> c.quiet == is_on(file@, "quiet"@),
        !run.verbose ==> c.verbose == is_on(file@, "verbose"@),
        !run.json ==> c.json == is_on(file@, "json"@),
        !run.no_loop ==> c.no_loop == is_on(file@, "no_loop"@),
{
}

/// What no source gives has its default.
#[verifier::rlimit(40)]
pub proof fn lemma_defaults_stand_in(
    run: &RunArgs,
    mode: SimMode,
    env: &KeyValues,
    file: &KeyValues,
    parsed: Result<u64, String>,
    c: Config,
)
    requires
        call_ensures(Config::from_run, (run, mode, env, file, parsed), Ok(c)),
    ensures
        run.lines is None && value_of(
            file@,
            "lines"@,
        ) is None ==> c.lines == 100,
        run.batch_size is None && !is_set(env@, "LOGPUSHI_BATCH_SIZE"@) && value_of(
            file@,
            "batch_size"@,
        ) is None ==> c.batch_size == 100,
        run.workers is None && !is_set(env@, "LOGPUSHI_WORKERS"@) && value_of(
            file@,
            "workers"@,
        ) is None ==> c.workers == 4,
        run.timeout is None && !is_set(env@, "LOGPUSHI_TIMEOUT"@) && value_of(
            file@,
            "timeout"@,
        ) is None ==> c.timeout == 30,
        run.retries is None && !is_set(env@, "LOGPUSHI_RETRIES"@) && value_of(
            file@,
            "retries"@,
        ) is None ==> c.retries == 3,
        run.seed is None && !is_set(env@, "LOGPUSHI_SEED"@) && value_of(file@, "seed"@) is None
            ==> c.seed is None,
        run.rate is None && !is_set(env@, "LOGPUSHI_RATE"@) && value_of(file@, "rate"@) is None
            ==> c.rate == 0,
        run.log_dir is None && !is_set(env@, "LOGPUSHI_LOG_DIR"@) && value_of(
            file@,
            "log_dir"@,
        ) is None ==> c.log_dir@ == "./logs"@,
        run.host is None && value_of(
            file@,
            "host"@,
        ) is None ==> c.host@ == ""@,
        run.service_name is None && !is_set(env@, "LOGPUSHI_SERVICE_NAME"@) && value_of(
            file@,
            "service_name"@,
        ) is None ==> c.service_name@ == "logpushi"@,
        run.ts_distribution is None && value_of(
            file@,
            "ts_distribution"@,
        ) is None ==> c.ts_distribution@ == "uniform"@,
        run.transport is None && !is_set(env@, "LOGPUSHI_TRANSPORT"@) && value_of(
            file@,
            "transport"@,
        ) is None ==> c.transport == TransportKind::Stdout,
        run.otel_protocol is None && value_of(file@, "otel_protocol"@) is None ==> c.otel_protocol
            == OtelProtocol::Http,
        run.start_offset is None && value_of(file@, "start_offset"@) is None
            ==> c.start_offset_random,
        run.recent_window is None && value_of(file@, "recent_window"@) is None
            ==> c.recent_window == TimeWindow::Seconds(3600),
{
    reveal_strlit("stdout");
    reveal_strlit("otel");
    reveal_strlit("hec");
    reveal_strlit("http");
    reveal_strlit("grpc");
    reveal_strlit("random");
    reveal_strlit("start");
    reveal_strlit("now");
    reveal_strlit("today");
    assert("otel"@[0] == 'o' && "stdout"@[0] == 's' && "hec"@[0] == 'h');
    assert("http"@[0] == 'h' && "grpc"@[0] == 'g');
    assert("random"@[0] == 'r' && "start"@[0] == 's');
    assert("now"@[0] == 'n' && "today"@[0] == 't');
    lemma_window_of_an_hour();
}

/// A choice that the command line does not make is made by the environment or the
/// config file, by the same names.
#[verifier::rlimit(40)]
pub proof fn lemma_choices_of_other_sources(
    run: &RunArgs,
    mode: SimMode,
    env: &KeyValues,
    file: &KeyValues,
    parsed: Result<u64, String>,
    c: Config,
)
    requires
        call_ensures(Config::from_run, (run, mode, env, file, parsed), Ok(c)),
    ensures
        run.transport is None && value_of(env@, "LOGPUSHI_TRANSPORT"@) == Some("stdout"@)
            ==> c.transport == TransportKind::Stdout,
        run.transport is None && !is_set(env@, "LOGPUSHI_TRANSPORT"@) && value_of(
            file@,
            "transport"@,
        ) == Some("stdout"@) ==> c.transport == TransportKind::Stdout,
        run.transport is None && value_of(env@, "LOGPUSHI_TRANSPORT"@) == Some("otel"@)
            ==> c.transport == TransportKind::Otel,
        run.transport is None && !is_set(env@, "LOGPUSHI_TRANSPORT"@) && value_of(
            file@,
            "transport"@,
        ) == Some("otel"@) ==> c.transport == TransportKind::Otel,
        run.transport is None && value_of(env@, "LOGPUSHI_TRANSPORT"@) == Some("hec"@)
            ==> c.transport == TransportKind::Hec,
        run.transport is None && !is_set(env@, "LOGPUSHI_TRANSPORT"@) && value_of(
            file@,
            "transport"@,
        ) == Some("hec"@) ==> c.transport == TransportKind::Hec,
        run.otel_protocol is None && value_of(file@, "otel_protocol"@) == Some("http"@)
            ==> c.otel_protocol == OtelProtocol::Http,
        run.otel_protocol is None && value_of(file@, "otel_protocol"@) == Some("grpc"@)
            ==> c.otel_protocol == OtelProtocol::Grpc,
        run.start_offset is None && value_of(file@, "start_offset"@) == Some("random"@)
            ==> c.start_offset_random,
        run.start_offset is None && value_of(file@, "start_offset"@) == Some("start"@)
            ==> !c.start_offset_random,
{
    reveal_strlit("stdout");
    reveal_strlit("otel");
    reveal_strlit("hec");
    reveal_strlit("http");
    reveal_strlit("grpc");
    reveal_strlit("random");
    reveal_strlit("start");
    reveal_strlit("now");
    reveal_strlit("today");
    assert("otel"@[0] == 'o' && "stdout"@[0] == 's' && "hec"@[0] == 'h');
    assert("http"@[0] == 'h' && "grpc"@[0] == 'g');
    assert("random"@[0] == 'r' && "start"@[0] == 's');
    assert("now"@[0] == 'n' && "today"@[0] == 't');
}

/// A value of the environment or the config file that decides a number and is none
/// refuses the run.
#[verifier::rlimit(40)]
pub proof fn lemma_bad_numbers_are_refused(
    run: &RunArgs,
    mode: SimMode,
    env: &KeyValues,
    file: &KeyValues,
    parsed: Result<u64, String>,
    r: Result<Config, ConfigError>,
)
    requires
        call_ensures(Config::from_run, (run, mode, env, file, parsed), r),
    ensures
        run.lines is None && value_of(file@, "lines"@) is Some && unsigned_value(
            value_of(file@, "lines"@)->0,
            u64::MAX as int,
        ) is Err ==> r is Err,
        run.batch_size is None && is_set(env@, "LOGPUSHI_BATCH_SIZE"@) && unsigned_value(
            value_of(env@, "LOGPUSHI_BATCH_SIZE"@)->0,
            usize::MAX as int,
        ) is Err ==> r is Err,
        run.batch_size is None && !is_set(env@, "LOGPUSHI_BATCH_SIZE"@) && value_of(
            file@,
            "batch_size"@,
        ) is Some && unsigned_value(
            value_of(file@, "batch_size"@)->0,
            usize::MAX as int,
        ) is Err ==> r is Err,
        run.workers is None && is_set(env@, "LOGPUSHI_WORKERS"@) && unsigned_value(
            value_of(env@, "LOGPUSHI_WORKERS"@)->0,
            usize::MAX as int,
        ) is Err ==> r is Err,
        run.workers is None && !is_set(env@, "LOGPUSHI_WORKERS"@) && value_of(
            file@,
            "workers"@,
        ) is Some && unsigned_value(
            value_of(file@, "workers"@)->0,
            usize::MAX as int,
        ) is Err ==> r is Err,
        run.timeout is None && is_set(env@, "LOGPUSHI_TIMEOUT"@) && unsigned_value(
            value_of(env@, "LOGPUSHI_TIMEOUT"@)->0,
            u64::MAX as int,
        ) is Err ==> r is Err,
        run.timeout is None && !is_set(env@, "LOGPUSHI_TIMEOUT"@) && value_of(
            file@,
            "timeout"@,
        ) is Some && unsigned_value(
            value_of(file@, "timeout"@)->0,
            u64::MAX as int,
        ) is Err ==> r is Err,
        run.retries is None && is_set(env@, "LOGPUSHI_RETRIES"@) && unsigned_value(
            value_of(env@, "LOGPUSHI_RETRIES"@)->0,
            u32::MAX as int,
        ) is Err ==> r is Err,
        run.retries is None && !is_set(env@, "LOGPUSHI_RETRIES"@) && value_of(
            file@,
            "retries"@,
        ) is Some && unsigned_value(
            value_of(file@, "retries"@)->0,
            u32::MAX as int,
        ) is Err ==> r is Err,
        run.seed is None && is_set(env@, "LOGPUSHI_SEED"@) && unsigned_value(
            value_of(env@, "LOGPUSHI_SEED"@)->0,
            u64::MAX as int,
        ) is Err ==> r is Err,
        run.seed is None && !is_set(env@, "LOGPUSHI_SEED"@) && value_of(
            file@,
            "seed"@,
        ) is Some && unsigned_value(
            value_of(file@, "seed"@)->0,
            u64::MAX as int,
        ) is Err ==> r is Err,
        run.rate is None && (is_set(env@, "LOGPUSHI_RATE"@) || value_of(file@, "rate"@) is Some)
            && parsed is Err ==> r is Err,
{
}

/// Everything that the command line gives is in the configuration.
pub open spec fn has_given(c: Config, run: RunArgs) -> bool {
    &&& (run.lines matches Some(n) ==> c.lines == n)
    &&& (run.batch_size matches Some(n) ==> c.batch_size == n)
    &&& (run.workers matches Some(n) ==> c.workers == n)
    &&& (run.timeout matches Some(n) ==> c.timeout == n)
    &&& (run.retries matches Some(n) ==> c.retries == n)
    &&& (run.seed matches Some(n) ==> c.seed == Some(n))
    &&& (run.rate matches Some(b) ==> c.rate == b)
    &&& (run.log_dir matches Some(s) ==> c.log_dir@ == s@)
    &&& (run.host matches Some(s) ==> c.host@ == s@)
    &&& (run.service_name matches Some(s) ==> c.service_name@ == s@)
    &&& (run.ts_distribution matches Some(s) ==> c.ts_distribution@ == s@)
    &&& (run.file matches Some(s) ==> text_view(c.file) == Some(s@))
    &&& (run.hec_token matches Some(s) ==> text_view(c.hec_token) == Some(s@))
    &&& (run.index matches Some(s) ==> text_view(c.hec_index) == Some(s@))
    &&& (run.source matches Some(s) ==> text_view(c.hec_source) == Some(s@))
    &&& (run.sourcetype matches Some(s) ==> text_view(c.hec_sourcetype) == Some(s@))
    &&& (run.endpoint matches Some(s) ==> text_view(c.endpoint) == Some(s@))
    &&& (run.insecure ==> c.insecure)
    &&& (run.fail_fast ==> c.fail_fast)
    &&& (run.quiet ==> c.quiet)
    &&& (run.verbose ==> c.verbose)
    &&& (run.json ==> c.json)
    &&& (run.no_loop ==> c.no_loop)
}

/// The configuration of a command: a run has the mode of its command and all that
/// its command line gives, and can be run; `discover` looks at its directory and
/// counts lines where it is asked to.
#[verifier::rlimit(40)]
pub proof fn lemma_commands_are_resolved(
    cli: &Cli,
    env: &KeyValues,
    file: &KeyValues,
    parsed: Result<u64, String>,
    c: Config,
)
    requires
        call_ensures(resolve_config, (cli, env, file, parsed), Ok(c)),
    ensures
        cli.command matches Commands::Replay(run) ==> has_given(c, run) && c.mode
            == SimMode::Replay,
        cli.command matches Commands::SyntheticToday(run) ==> has_given(c, run) && c.mode
            == SimMode::SyntheticToday,
        cli.command is Replay || cli.command is SyntheticToday ==> {
            &&& c.workers > 0 && c.batch_size > 0 && c.lines > 0
            &&& c.rate <= 0x7ff0_0000_0000_0000
            &&& c.transport == TransportKind::Stdout || c.endpoint is Some
            &&& c.transport != TransportKind::Hec || c.hec_token is Some
            &&& c.otel_protocol == OtelProtocol::Http
        },
        cli.command matches Commands::Discover(d) ==> {
            &&& d.log_dir matches Some(s) ==> c.log_dir@ == s@
            &&& d.log_dir is None && value_of(env@, "LOGPUSHI_LOG_DIR"@) is Some ==> Some(
                c.log_dir@,
            ) == value_of(env@, "LOGPUSHI_LOG_DIR"@)
            &&& d.log_dir is None && value_of(env@, "LOGPUSHI_LOG_DIR"@) is None && value_of(
                file@,
                "log_dir"@,
            ) is Some ==> Some(c.log_dir@) == value_of(file@, "log_dir"@)
            &&& d.log_dir is None && value_of(env@, "LOGPUSHI_LOG_DIR"@) is None && value_of(
                file@,
                "log_dir"@,
            ) is None ==> c.log_dir@ == "./logs"@
            &&& c.count_lines == d.lines
            &&& d.json ==> c.json
            &&& !d.json ==> c.json == is_on(file@, "json"@)
        },
{
}

/// A run is accepted when its choices are among those that there are and its
/// numbers are given, or set nowhere.
#[verifier::rlimit(40)]
pub proof fn lemma_good_runs_are_accepted(
    run: &RunArgs,
    mode: SimMode,
    env: &KeyValues,
    file: &KeyValues,
    parsed: Result<u64, String>,
    r: Result<Config, ConfigError>,
)
    requires
        call_ensures(Config::from_run, (run, mode, env, file, parsed), r),
        run.transport is Some,
        run.transport->0@ == "stdout"@ || run.transport->0@ == "otel"@ || run.transport->0@
            == "hec"@,
        run.otel_protocol is Some,
        run.otel_protocol->0@ == "http"@ || run.otel_protocol->0@ == "grpc"@,
        run.start_offset is Some,
        run.start_offset->0@ == "random"@ || run.start_offset->0@ == "start"@,
        run.recent_window is Some,
        named_window(lower(trim(run.recent_window->0@))) is Ok,
        run.lines is Some || value_of(file@, "lines"@) is None,
        run.seed is Some || !is_set(env@, "LOGPUSHI_SEED"@) && value_of(file@, "seed"@) is None,
        run.batch_size is Some || !is_set(env@, "LOGPUSHI_BATCH_SIZE"@) && value_of(
            file@,
            "batch_size"@,
        ) is None,
        run.workers is Some || !is_set(env@, "LOGPUSHI_WORKERS"@) && value_of(
            file@,
            "workers"@,
        ) is None,
        run.rate is Some || parsed is Ok,
        run.timeout is Some || !is_set(env@, "LOGPUSHI_TIMEOUT"@) && value_of(
            file@,
            "timeout"@,
        ) is None,
        run.retries is Some || !is_set(env@, "LOGPUSHI_RETRIES"@) && value_of(
            file@,
            "retries"@,
        ) is None,
    ensures
        r is Ok,
{
}

/// The text is given, and is none of the names.
pub open spec fn names_none(text: Option<String>, names: Seq<Seq<char>>) -> bool {
    text is Some && forall|i: int| 0 <= i < names.len() ==> text->0@ != #[trigger] names[i]
}

/// A run whose transport is none of the three, or whose protocol or start is
/// neither of its two, is refused.
pub proof fn lemma_unknown_choices_are_refused(
    run: &RunArgs,
    mode: SimMode,
    env: &KeyValues,
    file: &KeyValues,
    parsed: Result<u64, String>,
    r: Result<Config, ConfigError>,
)
    requires
        call_ensures(Config::from_run, (run, mode, env, file, parsed), r),
        names_none(run.transport, seq!["stdout"@, "otel"@, "hec"@]) || names_none(
            run.otel_protocol,
            seq!["http"@, "grpc"@],
        ) || names_none(run.start_offset, seq!["random"@, "start"@]),
    ensures
        r is Err,
        names_none(run.transport, seq!["stdout"@, "otel"@, "hec"@]) ==> r->Err_0@
            == (ConfigErrorView::UnknownTransport { text: run.transport->0@ }),
{
    let t = seq!["stdout"@, "otel"@, "hec"@];
    assert(t[0] == "stdout"@ && t[1] == "otel"@ && t[2] == "hec"@);
    let p = seq!["http"@, "grpc"@];
    assert(p[0] == "http"@ && p[1] == "grpc"@);
    let o = seq!["random"@, "start"@];
    assert(o[0] == "random"@ && o[1] == "start"@);
}

/// With the field behind the others, the settings have the value under the key,
/// behind those of the others.
pub open spec fn adds_setting(
    e: Seq<(Seq<char>, FieldView)>,
    x: (Seq<char>, FieldView),
    value: Seq<char>,
) -> bool {
    match (file_settings(e, e.len() as int), file_settings(e.push(x), e.len() as int + 1)) {
        (Ok(before), Ok(after)) => after == before.push((underscored(x.0), value)),
        _ => false,
    }
}

/// The settings of a config file are its fields, in their order: a text is as it
/// stands, a number as it is written, a truth value by its name, and of the key a
/// hyphen counts as an underscore. One value of another kind refuses the file.
pub proof fn lemma_config_fields_are_settings(
    e: Seq<(Seq<char>, FieldView)>,
    key: Seq<char>,
    f: FieldView,
)
    requires
        file_settings(e, e.len() as int) is Ok,
    ensures
        f matches FieldView::Text(t) ==> adds_setting(e, (key, f), t),
        f matches FieldView::Number(t) ==> adds_setting(e, (key, f), t),
        f == FieldView::Bool(true) ==> adds_setting(e, (key, f), "true"@),
        f == FieldView::Bool(false) ==> adds_setting(e, (key, f), "false"@),
        f is Other ==> file_settings(e.push((key, f)), e.len() as int + 1) is Err,
        underscored(key).len() == key.len(),
        forall|i: int|
            0 <= i < key.len() && key[i] == '-' ==> (#[trigger] underscored(key)[i]) == '_',
        forall|i: int|
            0 <= i < key.len() && key[i] != '-' ==> (#[trigger] underscored(key)[i]) == key[i],
{
    lemma_settings_of_more(e, (key, f), e.len() as int);
}

proof fn lemma_settings_of_more(
    e: Seq<(Seq<char>, FieldView)>,
    x: (Seq<char>, FieldView),
    n: int,
)
    requires
        0 <= n <= e.len(),
    ensures
        file_settings(e.push(x), n) == file_settings(e, n),
    decreases n,
{
    if n > 0 {
        lemma_settings_of_more(e, x, n - 1);
    }
}

/// A key has the value that was given to it last.
pub proof fn lemma_last_value_counts(
    kv: Seq<(Seq<char>, Seq<char>)>,
    key: Seq<char>,
    other: Seq<char>,
    value: Seq<char>,
)
    ensures
        value_of(Seq::empty(), key) is None,
        value_of(kv.push((key, value)), key) == Some(value),
        other != key ==> value_of(kv.push((other, value)), key) == value_of(kv, key),
{
    assert(kv.push((key, value)).drop_last() =~= kv);
    assert(kv.push((other, value)).drop_last() =~= kv);
}

/// An environment variable that is empty counts as not set.
pub proof fn lemma_empty_variables_do_not_count(env: &KeyValues, key: &str, r: Option<String>)
    requires
        call_ensures(env_value, (env, key), r),
    ensures
        is_set(env@, key@) ==> text_view(r) == value_of(env@, key@),
        !is_set(env@, key@) ==> r is None,
{
}

/// Of the sources of a text, the command line decides, then the environment, then
/// the config file, then the default.
pub proof fn lemma_texts_are_resolved(
    cli: Option<String>,
    env: Option<String>,
    file: Option<String>,
    default: &str,
    r: String,
    o: Option<String>,
)
    requires
        call_ensures(resolve_string, (&cli, env, file, default), r),
        call_ensures(resolve_text, (&cli, env, file), o),
    ensures
        cli matches Some(s) ==> r@ == s@ && text_view(o) == Some(s@),
        cli is None && env is Some ==> r@ == env->0@ && text_view(o) == Some(env->0@),
        cli is None && env is None && file is Some ==> r@ == file->0@ && text_view(o) == Some(
            file->0@,
        ),
        cli is None && env is None && file is None ==> r@ == default@ && o is None,
{
}

/// A flag is on when the command line has it, or the config file has it and does
/// not say `false`.
pub proof fn lemma_flags_are_resolved(cli: bool, file: Option<String>, r: bool)
    requires
        call_ensures(resolve_flag, (cli, file), r),
    ensures
        cli ==> r,
        !cli && file is None ==> !r,
        !cli && file is Some ==> (r <==> file->0@ != "false"@),
{
}

// ---------------------------------------------------------------------------
// Numbers and windows
// ---------------------------------------------------------------------------

proof fn lemma_digits_are_read(s: Seq<char>, i: int, max: int)
    requires
        all_digits(s),
        0 <= i <= s.len(),
        digits_value(s) <= max,
    ensures
        unsigned_from(s, i, digits_value(s.take(i)), max) == Ok::<int, IntProblem>(digits_value(s)),
    decreases s.len() - i,
{
    if i < s.len() {
        assert(s.take(i + 1).drop_last() =~= s.take(i));
        lemma_prefix_is_smaller(s, i + 1);
        lemma_digits_are_read(s, i + 1, max);
    } else {
        assert(s.take(i) =~= s);
    }
}

proof fn lemma_prefix_is_smaller(s: Seq<char>, i: int)
    requires
        all_digits(s),
        0 <= i <= s.len(),
    ensures
        0 <= digits_value(s.take(i)) <= digits_value(s),
    decreases s.len(),
{
    if i < s.len() {
        assert(s.drop_last().take(i) =~= s.take(i));
        lemma_prefix_is_smaller(s.drop_last(), i);
    } else {
        assert(s.take(i) =~= s);
        if i > 0 {
            assert(s.drop_last().take(i - 1) =~= s.drop_last());
            lemma_prefix_is_smaller(s.drop_last(), i - 1);
        }
    }
}

/// The decimal text of a number reads as that number, with a plus sign too, up to
/// the largest that is allowed; a larger one is refused.
pub proof fn lemma_decimal_texts_are_numbers(n: int, max: int)
    requires
        0 <= n,
    ensures
        n <= max ==> unsigned_value(decimal(n), max) == Ok::<int, IntProblem>(n),
        n > max >= 0 ==> unsigned_value(decimal(n), max) == Err::<int, IntProblem>(
            IntProblem::TooLarge,
        ),
        unsigned_value(Seq::empty(), max) == Err::<int, IntProblem>(IntProblem::Empty),
{
    let s = decimal(n);
    lemma_padded_reads_back(n, 1);
    assert(ascii_digit(s[0]));
    assert(s.take(0) =~= Seq::empty());
    assert(digits_value(s.take(0)) == 0);
    if n <= max {
        lemma_digits_are_read(s, 0, max);
    } else if max >= 0 {
        lemma_too_large(s, 0, max);
    }
}

proof fn lemma_too_large(s: Seq<char>, i: int, max: int)
    requires
        all_digits(s),
        0 <= i <= s.len(),
        digits_value(s) > max,
        digits_value(s.take(i)) <= max,
    ensures
        unsigned_from(s, i, digits_value(s.take(i)), max) == Err::<int, IntProblem>(
            IntProblem::TooLarge,
        ),
    decreases s.len() - i,
{
    if i < s.len() {
        assert(s.take(i + 1).drop_last() =~= s.take(i));
        if digits_value(s.take(i + 1)) <= max {
            lemma_too_large(s, i + 1, max);
        }
    } else {
        assert(s.take(i) =~= s);
    }
}

/// A text with anything but digits behind an optional plus sign is no number.
pub proof fn lemma_other_texts_are_no_numbers(s: Seq<char>, i: int, max: int)
    requires
        0 <= i < s.len(),
        !ascii_digit(s[i]),
        i > 0 || s[0] != '+' || s.len() == 1,
    ensures
        unsigned_value(s, max) is Err,
{
    if s[0] == '+' {
        if s.len() > 1 {
            lemma_stops_at(s, 1, 0, i, max);
        }
    } else {
        lemma_stops_at(s, 0, 0, i, max);
    }
}

proof fn lemma_stops_at(s: Seq<char>, from: int, acc: int, i: int, max: int)
    requires
        0 <= from <= i < s.len(),
        !ascii_digit(s[i]),
    ensures
        unsigned_from(s, from, acc, max) is Err,
    decreases i - from,
{
    if from < i {
        lemma_stops_at(s, from + 1, acc * 10 + digit_value(s[from]), i, max);
    }
}

/// A number that is read is none below zero and none above the largest.
pub proof fn lemma_number_is_within(s: Seq<char>, max: int)
    requires
        0 <= max,
    ensures
        unsigned_value(s, max) matches Ok(n) ==> 0 <= n <= max,
{
    lemma_stays_within(s, 0, 0, max);
    lemma_stays_within(s, 1, 0, max);
}

proof fn lemma_stays_within(s: Seq<char>, i: int, acc: int, max: int)
    requires
        0 <= acc <= max,
        0 <= i,
    ensures
        unsigned_from(s, i, acc, max) matches Ok(n) ==> 0 <= n <= max,
    decreases s.len() - i,
{
    if i < s.len() && ascii_digit(s[i]) && acc * 10 + digit_value(s[i]) <= max {
        lemma_stays_within(s, i + 1, acc * 10 + digit_value(s[i]), max);
    }
}

/// A window of `n` seconds, minutes, hours or days is that many seconds, and `now`
/// and `today` name windows too.
pub proof fn lemma_windows_have_units(n: int)
    requires
        0 <= n,
    ensures
        n <= u64::MAX ==> named_window(decimal(n).push('s')) == Ok::<TimeWindow, ConfigErrorView>(
            TimeWindow::Seconds(n as u64),
        ),
        n * 60 <= u64::MAX ==> named_window(decimal(n).push('m')) == Ok::<
            TimeWindow,
            ConfigErrorView,
        >(TimeWindow::Seconds((n * 60) as u64)),
        n * 3600 <= u64::MAX ==> named_window(decimal(n).push('h')) == Ok::<
            TimeWindow,
            ConfigErrorView,
        >(TimeWindow::Seconds((n * 3600) as u64)),
        n * 86400 <= u64::MAX ==> named_window(decimal(n).push('d')) == Ok::<
            TimeWindow,
            ConfigErrorView,
        >(TimeWindow::Seconds((n * 86400) as u64)),
        named_window("now"@) == Ok::<TimeWindow, ConfigErrorView>(TimeWindow::Now),
        named_window("today"@) == Ok::<TimeWindow, ConfigErrorView>(TimeWindow::Today),
{
    reveal_strlit("now");
    reveal_strlit("today");
    assert("now"@[0] == 'n' && "today"@[0] == 't');
    if n <= u64::MAX {
        assert(n * 1 == n);
        lemma_window_of(n, 's');
        lemma_window_of(n, 'm');
        lemma_window_of(n, 'h');
        lemma_window_of(n, 'd');
    }
}

proof fn lemma_window_of(n: int, unit: char)
    requires
        0 <= n <= u64::MAX,
        (unit as int) < 128,
    ensures
        ({
            let s = decimal(n).push(unit);
            &&& s != "now"@ && s != "today"@
            &&& encode_utf8(s).len() >= 2
            &&& s.drop_last() == decimal(n) && s.last() == unit
            &&& unsigned_value(s.drop_last(), u64::MAX as int) == Ok::<int, IntProblem>(n)
        }),
{
    let s = decimal(n).push(unit);
    reveal_strlit("now");
    reveal_strlit("today");
    lemma_padded_reads_back(n, 1);
    assert(ascii_digit(decimal(n)[0]));
    assert(s[0] == decimal(n)[0]);
    assert("now"@[0] == 'n' && "today"@[0] == 't');
    lemma_short_text(s);
    assert(s.drop_last() =~= decimal(n));
    lemma_decimal_texts_are_numbers(n, u64::MAX as int);
}

/// No other text names a window: one that does is `now`, `today`, or a number
/// with one of the four units behind it.
pub proof fn lemma_other_texts_are_no_windows(s: Seq<char>)
    requires
        named_window(s) is Ok,
    ensures
        s == "now"@ || s == "today"@ || unsigned_value(s.drop_last(), u64::MAX as int) is Ok && (
        s.last() == 's' || s.last() == 'm' || s.last() == 'h' || s.last() == 'd'),
{
}

// ---------------------------------------------------------------------------
// Configurations
// ---------------------------------------------------------------------------

/// A configuration can be run exactly when it has workers, a batch size and
/// lines, a rate that is a number and not negative, an endpoint unless it writes
/// to standard output, a token for HEC, OTLP over HTTP, and the uniform
/// distribution.
pub proof fn lemma_runnable_configurations(c: Config, r: Result<(), ConfigError>)
    requires
        call_ensures(Config::validate, (&c,), r),
    ensures
        r is Ok <==> {
            &&& c.workers > 0
            &&& c.batch_size > 0
            &&& c.lines > 0
            &&& c.rate <= 0x7ff0_0000_0000_0000
            &&& c.transport == TransportKind::Stdout || c.endpoint is Some
            &&& c.transport != TransportKind::Hec || c.hec_token is Some
            &&& c.otel_protocol == OtelProtocol::Http
            &&& c.ts_distribution@ == "uniform"@
        },
        c.workers == 0 ==> r is Err && r->Err_0@ == ConfigErrorView::NoWorkers,
        c.workers > 0 && c.batch_size == 0 ==> r is Err && r->Err_0@
            == ConfigErrorView::NoBatchSize,
        c.workers > 0 && c.batch_size > 0 && c.lines == 0 ==> r is Err && r->Err_0@
            == ConfigErrorView::NoLines,
        c.workers > 0 && c.batch_size > 0 && c.lines > 0 && c.rate > 0x7ff0_0000_0000_0000
            ==> r is Err && r->Err_0@ == ConfigErrorView::BadRate,
        c.workers > 0 && c.batch_size > 0 && c.lines > 0 && c.rate <= 0x7ff0_0000_0000_0000 ==> {
            &&& c.transport != TransportKind::Stdout && c.endpoint is None ==> r is Err
                && r->Err_0@ == (ConfigErrorView::NoEndpoint {
                otel: c.transport == TransportKind::Otel,
            })
            &&& c.transport == TransportKind::Hec && c.endpoint is Some && c.hec_token is None
                ==> r is Err && r->Err_0@ == ConfigErrorView::NoToken
        },
{
}

/// The default configuration: a replay of 100 lines of the logs at hand, by four
/// workers in batches of 100, to standard output.
pub proof fn lemma_default_configuration(c: Config)
    requires
        is_default_config(c),
    ensures
        c.log_dir@ == "./logs"@,
        c.mode == SimMode::Replay,
        c.lines == 100 && c.batch_size == 100 && c.workers == 4,
        c.rate == 0 && c.timeout == 30 && c.retries == 3,
        c.seed is None && c.file is None,
        !c.insecure && !c.fail_fast && !c.quiet && !c.verbose && !c.json && !c.no_loop,
        c.transport == TransportKind::Stdout && c.endpoint is None,
        c.recent_window == TimeWindow::Seconds(3600),
        c.start_offset_random && c.validate_sample == 200,
        c.service_name@ == "logpushi"@ && c.ts_distribution@ == "uniform"@,
{
}

/// The rate comes from the command line, else from the environment, else from the
/// config file, and else there is none.
pub proof fn lemma_rate_has_a_source(
    run: &RunArgs,
    env: &KeyValues,
    file: &KeyValues,
    r: RateSource,
)
    requires
        call_ensures(rate_choice, (run, env, file), r),
    ensures
        run.rate matches Some(b) ==> r@ == RateSourceView::Given(b),
        run.rate is None && is_set(env@, "LOGPUSHI_RATE"@) ==> r@ == RateSourceView::Env(
            value_of(env@, "LOGPUSHI_RATE"@)->0,
        ),
        run.rate is None && !is_set(env@, "LOGPUSHI_RATE"@) && value_of(file@, "rate"@) is Some
            ==> r@ == RateSourceView::File(value_of(file@, "rate"@)->0),
        run.rate is None && !is_set(env@, "LOGPUSHI_RATE"@) && value_of(file@, "rate"@) is None
            ==> r@ == RateSourceView::Default,
{
}

/// What was set is what is read, until it is set again.
pub proof fn lemma_values_are_kept(
    kv: &mut KeyValues,
    key: String,
    value: String,
    other: Seq<char>,
)
    requires
        call_ensures(KeyValues::set, (kv, key, value), ()),
    ensures
        value_of(final(kv)@, key@) == Some(value@),
        other != key@ ==> value_of(final(kv)@, other) == value_of(old(kv)@, other),
{
    lemma_last_value_counts(old(kv)@, key@, other, value@);
    lemma_last_value_counts(old(kv)@, other, key@, value@);
}

/// The value of a key is read as it was set.
pub proof fn lemma_values_are_read(kv: KeyValues, key: &str, r: Option<String>)
    requires
        call_ensures(KeyValues::get, (&kv, key), r),
    ensures
        text_view(r) == value_of(kv@, key@),
{
}

/// A config file is read when it is a JSON object, and gives the settings of its
/// fields; anything else is an error.
pub proof fn lemma_config_file_is_an_object(
    text: &str,
    path: &str,
    r: Result<KeyValues, ConfigError>,
)
    requires
        call_ensures(load_settings, (text, path), r),
    ensures
        r is Ok ==> json_value(text@) is Ok && json_value(text@)->Ok_0 is Object,
        json_value(text@) matches Ok(JsonView::Object(e)) ==> {
            &&& r is Ok <==> file_settings(e, e.len() as int) is Ok
            &&& r is Ok ==> r->Ok_0@ == file_settings(e, e.len() as int)->Ok_0
        },
        json_value(text@) matches Ok(v) ==> (!(v is Object) ==> r is Err && r->Err_0@
            == ConfigErrorView::NotAnObject),
{
}

/// A window by name, in any case and with white space around it.
pub proof fn lemma_windows_are_parsed(
    s: &str,
    n: u64,
    r: Result<TimeWindow, ConfigError>,
)
    requires
        call_ensures(parse_window, (s,), r),
    ensures
        lower(trim(s@)) == "now"@ ==> r is Ok && r->Ok_0 == TimeWindow::Now,
        lower(trim(s@)) == "today"@ ==> r is Ok && r->Ok_0 == TimeWindow::Today,
        lower(trim(s@)) == decimal(n as int).push('s') ==> r is Ok && r->Ok_0
            == TimeWindow::Seconds(n),
        lower(trim(s@)) == decimal(n as int).push('m') && n * 60 <= u64::MAX ==> r is Ok && r->Ok_0
            == TimeWindow::Seconds((n * 60) as u64),
        lower(trim(s@)) == decimal(n as int).push('h') && n * 3600 <= u64::MAX ==> r is Ok
            && r->Ok_0 == TimeWindow::Seconds((n * 3600) as u64),
        lower(trim(s@)) == decimal(n as int).push('d') && n * 86400 <= u64::MAX ==> r is Ok
            && r->Ok_0 == TimeWindow::Seconds((n * 86400) as u64),
{
    lemma_windows_have_units(n as int);
}

/// A window can be looked for in every text that names one whose seconds 64 bits
/// can hold.
pub proof fn lemma_windows_are_readable(text: Seq<char>, n: int, unit: char, k: int)
    requires
        0 <= n,
        unit == 's' && k == 1 || unit == 'm' && k == 60 || unit == 'h' && k == 3600 || unit == 'd'
            && k == 86400,
        n * k <= u64::MAX,
        lower(trim(text)) == decimal(n).push(unit),
    ensures
        readable_window(text),
{
    assert(n <= u64::MAX) by (nonlinear_arith)
        requires
            0 <= n,
            1 <= k,
            n * k <= u64::MAX,
    ;
    lemma_window_of(n, unit);
}

/// The modes and the transports go by names of their own.
pub proof fn lemma_names_of_choices(
    t: TransportKind,
    m: SimMode,
    tn: &'static str,
    mn: &'static str,
)
    requires
        call_ensures(transport_name, (t,), tn),
        call_ensures(mode_name, (m,), mn),
    ensures
        t == TransportKind::Stdout ==> tn@ == "stdout"@,
        t == TransportKind::Otel ==> tn@ == "otel"@,
        t == TransportKind::Hec ==> tn@ == "hec"@,
        m == SimMode::Replay ==> mn@ == "replay"@,
        m == SimMode::SyntheticToday ==> mn@ == "synthetic-today"@,
{
}

/// The endpoint that is shown has no query, and standard output has none.
pub proof fn lemma_endpoint_is_shown(c: Config, r: String)
    requires
        call_ensures(Config::display_endpoint, (&c,), r),
    ensures
        c.transport == TransportKind::Stdout ==> r@ == "-"@,
        c.transport != TransportKind::Stdout && c.endpoint is Some && !c.endpoint->0@.contains('?')
            ==> r@ == c.endpoint->0@,
        forall|base: Seq<char>, query: Seq<char>|
            c.transport != TransportKind::Stdout && c.endpoint is Some && !base.contains('?')
                && c.endpoint->0@ == #[trigger] (base.push('?') + query) ==> r@ == base
                + "?<redacted>"@,
{
    assert forall|base: Seq<char>, query: Seq<char>|
        c.transport != TransportKind::Stdout && c.endpoint is Some && !base.contains('?')
            && c.endpoint->0@ == #[trigger] (base.push('?') + query) implies r@ == base
        + "?<redacted>"@ by {
        lemma_shown_url_has_no_query(base, query);
    }
}

/// What is shown of a URL ends at its first question mark: nothing behind it is
/// shown, and all in front of it is.
pub proof fn lemma_shown_url_has_no_query(base: Seq<char>, query: Seq<char>)
    requires
        !base.contains('?'),
    ensures
        redacted(base) == base,
        redacted(base.push('?') + query) == base + "?<redacted>"@,
{
    let url = base.push('?') + query;
    assert(url[base.len() as int] == '?');
    url.index_of_first_ensures('?');
    let f = url.index_of_first('?')->0;
    if f < base.len() {
        assert(base[f] == url[f]);
    }
    assert(url.take(f) =~= base);
}

/// The settings of `validate`: its own arguments decide, then the environment for
/// the directory, then the config file, then the defaults.
pub proof fn lemma_validate_settings(
    v: ValidateArgs,
    env: Seq<(Seq<char>, Seq<char>)>,
    file: Seq<(Seq<char>, Seq<char>)>,
    c: Config,
)
    requires
        validate_outcome(Ok(c), v, env, file),
    ensures
        v.log_dir matches Some(s) ==> c.log_dir@ == s@,
        v.log_dir is None && value_of(env, "LOGPUSHI_LOG_DIR"@) is Some ==> Some(c.log_dir@)
            == value_of(env, "LOGPUSHI_LOG_DIR"@),
        v.log_dir is None && value_of(env, "LOGPUSHI_LOG_DIR"@) is None && value_of(
            file,
            "log_dir"@,
        ) is Some ==> Some(c.log_dir@) == value_of(file, "log_dir"@),
        v.log_dir is None && value_of(env, "LOGPUSHI_LOG_DIR"@) is None && value_of(
            file,
            "log_dir"@,
        ) is None ==> c.log_dir@ == "./logs"@,
        v.sample matches Some(n) ==> c.validate_sample == n,
        v.sample is None && value_of(file, "sample"@) is Some ==> reads_as(
            file,
            "sample"@,
            u64::MAX as int,
            c.validate_sample as int,
        ),
        v.sample is None && value_of(file, "sample"@) is None ==> c.validate_sample == 200,
        v.json ==> c.json,
        !v.json ==> c.json == is_on(file, "json"@),
        v.file matches Some(s) ==> text_view(c.file)
            == Some(s@),
        v.file is None ==> text_view(c.file) == value_of(file, "file"@),
{
    if let Some(s) = value_of(file, "sample"@) {
        lemma_number_is_within(s, u64::MAX as int);
    }
}

} // verus!
