//! Settings by name, as the environment and the config file give them, and the
//! precedence among the places that a setting can come from.

use vstd::prelude::*;

use crate::json::{entries, entries_view, json_value, parse_json, Field, FieldView, Json, JsonView};
use crate::text::{chars_of, debug_text, parse_unsigned, quoted, same_str, unsigned_value};

verus! {

broadcast use vstd::string::group_string_axioms;

// ---------------------------------------------------------------------------
// Errors
// ---------------------------------------------------------------------------

/// What is wrong with a configuration.
#[derive(Debug)]
pub enum ConfigError {
    /// An environment variable whose value cannot be parsed.
    EnvValue { key: String, value: String, problem: String },
    /// A key of the config file whose value cannot be parsed.
    FileValue { key: String, problem: String },
    /// The config file is not JSON.
    InvalidJson { path: String, problem: String },
    /// The config file is not a JSON object.
    NotAnObject,
    /// A key of the config file holds neither a text, a number nor a boolean.
    UnsupportedValue { key: String },
    /// Not a recent window; `usage` when a number was given with a wrong unit.
    UnknownWindow { text: String, usage: bool },
    UnknownTransport { text: String },
    UnknownStartOffset { text: String },
    UnknownProtocol { text: String },
    NoWorkers,
    NoBatchSize,
    NoLines,
    BadRate,
    /// The transport needs an endpoint; `otel` or else `hec`.
    NoEndpoint { otel: bool },
    NoToken,
    ProtocolWithoutOtel,
    GrpcNotImplemented,
    UnknownDistribution { text: String },
}

/// A [`ConfigError`], with its texts.
pub enum ConfigErrorView {
    EnvValue { key: Seq<char>, value: Seq<char>, problem: Seq<char> },
    FileValue { key: Seq<char>, problem: Seq<char> },
    InvalidJson { path: Seq<char>, problem: Seq<char> },
    NotAnObject,
    UnsupportedValue { key: Seq<char> },
    UnknownWindow { text: Seq<char>, usage: bool },
    UnknownTransport { text: Seq<char> },
    UnknownStartOffset { text: Seq<char> },
    UnknownProtocol { text: Seq<char> },
    NoWorkers,
    NoBatchSize,
    NoLines,
    BadRate,
    NoEndpoint { otel: bool },
    NoToken,
    ProtocolWithoutOtel,
    GrpcNotImplemented,
    UnknownDistribution { text: Seq<char> },
}

impl View for ConfigError {
    type V = ConfigErrorView;

    open spec fn view(&self) -> ConfigErrorView {
        match self {
            ConfigError::EnvValue { key, value, problem } => ConfigErrorView::EnvValue {
                key: key@,
                value: value@,
                problem: problem@,
            },
            ConfigError::FileValue { key, problem } => ConfigErrorView::FileValue {
                key: key@,
                problem: problem@,
            },
            ConfigError::InvalidJson { path, problem } => ConfigErrorView::InvalidJson {
                path: path@,
                problem: problem@,
            },
            ConfigError::NotAnObject => ConfigErrorView::NotAnObject,
            ConfigError::UnsupportedValue { key } => ConfigErrorView::UnsupportedValue {
                key: key@,
            },
            ConfigError::UnknownWindow { text, usage } => ConfigErrorView::UnknownWindow {
                text: text@,
                usage: *usage,
            },
            ConfigError::UnknownTransport { text } => ConfigErrorView::UnknownTransport {
                text: text@,
            },
            ConfigError::UnknownStartOffset { text } => ConfigErrorView::UnknownStartOffset {
                text: text@,
            },
            ConfigError::UnknownProtocol { text } => ConfigErrorView::UnknownProtocol {
                text: text@,
            },
            ConfigError::NoWorkers => ConfigErrorView::NoWorkers,
            ConfigError::NoBatchSize => ConfigErrorView::NoBatchSize,
            ConfigError::NoLines => ConfigErrorView::NoLines,
            ConfigError::BadRate => ConfigErrorView::BadRate,
            ConfigError::NoEndpoint { otel } => ConfigErrorView::NoEndpoint { otel: *otel },
            ConfigError::NoToken => ConfigErrorView::NoToken,
            ConfigError::ProtocolWithoutOtel => ConfigErrorView::ProtocolWithoutOtel,
            ConfigError::GrpcNotImplemented => ConfigErrorView::GrpcNotImplemented,
            ConfigError::UnknownDistribution { text } => ConfigErrorView::UnknownDistribution {
                text: text@,
            },
        }
    }
}

/// The message of an error.
pub open spec fn message_of(e: ConfigErrorView) -> Seq<char> {
    match e {
        ConfigErrorView::EnvValue { key, value, problem } => "env "@ + key + "="@ + debug_text(
            value,
        ) + ": "@ + problem,
        ConfigErrorView::FileValue { key, problem } => "config file key "@ + debug_text(key)
            + ": "@ + problem,
        ConfigErrorView::InvalidJson { path, problem } => "invalid JSON in "@ + path + ": "@
            + problem,
        ConfigErrorView::NotAnObject => "config file must be a JSON object"@,
        ConfigErrorView::UnsupportedValue { key } => "config key "@ + debug_text(key)
            + ": unsupported value type"@,
        ConfigErrorView::UnknownWindow { text, usage } => {
            let m = "unknown recent-window "@ + debug_text(text);
            if usage {
                m + " (use now|today|Ns|Nm|Nh|Nd)"@
            } else {
                m
            }
        },
        ConfigErrorView::UnknownTransport { text } => "unknown transport "@ + debug_text(text)
            + " (expected otel|hec|stdout)"@,
        ConfigErrorView::UnknownStartOffset { text } =>
            "--start-offset must be random|start, got "@ + debug_text(text),
        ConfigErrorView::UnknownProtocol { text } => "unknown --otel-protocol "@ + debug_text(
            text,
        ) + " (use http|grpc)"@,
        ConfigErrorView::NoWorkers => "--workers must be >= 1"@,
        ConfigErrorView::NoBatchSize => "--batch-size must be >= 1"@,
        ConfigErrorView::NoLines => "--lines must be >= 1"@,
        ConfigErrorView::BadRate => "--rate must be >= 0"@,
        ConfigErrorView::NoEndpoint { otel } => "--transport "@ + (if otel {
            "otel"@
        } else {
            "hec"@
        })
            + " requires --endpoint (or LOGPUSHI_OTEL_ENDPOINT / LOGPUSHI_HEC_ENDPOINT); explicit endpoints prevent accidental injection into production"@,
        ConfigErrorView::NoToken =>
            "--transport hec requires a token: set the LOGPUSHI_HEC_TOKEN environment variable"@,
        ConfigErrorView::ProtocolWithoutOtel =>
            "--otel-protocol applies only to --transport otel"@,
        ConfigErrorView::GrpcNotImplemented =>
            "OTLP/gRPC is not implemented; use --otel-protocol http"@,
        ConfigErrorView::UnknownDistribution { text } => "--ts-distribution "@ + text
            + " is not implemented; only 'uniform'"@,
    }
}

impl ConfigError {
    /// The message of the error.
    pub fn message(&self) -> (r: String)
        ensures
            r@ == message_of(self@),
    {
        let mut m = String::new();
        match self {
            ConfigError::EnvValue { key, value, problem } => {
                m.append("env ");
                m.append(key.as_str());
                m.append("=");
                m.append(quoted(value.as_str()).as_str());
                m.append(": ");
                m.append(problem.as_str());
            },
            ConfigError::FileValue { key, problem } => {
                m.append("config file key ");
                m.append(quoted(key.as_str()).as_str());
                m.append(": ");
                m.append(problem.as_str());
            },
            ConfigError::InvalidJson { path, problem } => {
                m.append("invalid JSON in ");
                m.append(path.as_str());
                m.append(": ");
                m.append(problem.as_str());
            },
            ConfigError::NotAnObject => m.append("config file must be a JSON object"),
            ConfigError::UnsupportedValue { key } => {
                m.append("config key ");
                m.append(quoted(key.as_str()).as_str());
                m.append(": unsupported value type");
            },
            ConfigError::UnknownWindow { text, usage } => {
                m.append("unknown recent-window ");
                m.append(quoted(text.as_str()).as_str());
                if *usage {
                    m.append(" (use now|today|Ns|Nm|Nh|Nd)");
                }
            },
            ConfigError::UnknownTransport { text } => {
                m.append("unknown transport ");
                m.append(quoted(text.as_str()).as_str());
                m.append(" (expected otel|hec|stdout)");
            },
            ConfigError::UnknownStartOffset { text } => {
                m.append("--start-offset must be random|start, got ");
                m.append(quoted(text.as_str()).as_str());
            },
            ConfigError::UnknownProtocol { text } => {
                m.append("unknown --otel-protocol ");
                m.append(quoted(text.as_str()).as_str());
                m.append(" (use http|grpc)");
            },
            ConfigError::NoWorkers => m.append("--workers must be >= 1"),
            ConfigError::NoBatchSize => m.append("--batch-size must be >= 1"),
            ConfigError::NoLines => m.append("--lines must be >= 1"),
            ConfigError::BadRate => m.append("--rate must be >= 0"),
            ConfigError::NoEndpoint { otel } => {
                m.append("--transport ");
                m.append(
                    if *otel {
                        "otel"
                    } else {
                        "hec"
                    },
                );
                m.append(
                    " requires --endpoint (or LOGPUSHI_OTEL_ENDPOINT / LOGPUSHI_HEC_ENDPOINT); explicit endpoints prevent accidental injection into production",
                );
            },
            ConfigError::NoToken => m.append(
                "--transport hec requires a token: set the LOGPUSHI_HEC_TOKEN environment variable",
            ),
            ConfigError::ProtocolWithoutOtel => m.append(
                "--otel-protocol applies only to --transport otel",
            ),
            ConfigError::GrpcNotImplemented => m.append(
                "OTLP/gRPC is not implemented; use --otel-protocol http",
            ),
            ConfigError::UnknownDistribution { text } => {
                m.append("--ts-distribution ");
                m.append(text.as_str());
                m.append(" is not implemented; only 'uniform'");
            },
        }
        assert(m@ =~= message_of(self@));
        m
    }
}

// ---------------------------------------------------------------------------
// Named values
// ---------------------------------------------------------------------------

/// Values by name; where a name is given twice, the later value counts.
pub struct KeyValues {
    pub pairs: Vec<(String, String)>,
}

impl View for KeyValues {
    type V = Seq<(Seq<char>, Seq<char>)>;

    open spec fn view(&self) -> Seq<(Seq<char>, Seq<char>)> {
        self.pairs@.map_values(|p: (String, String)| (p.0@, p.1@))
    }
}

/// The value of the key.
pub open spec fn value_of(kv: Seq<(Seq<char>, Seq<char>)>, key: Seq<char>) -> Option<Seq<char>>
    decreases kv.len(),
{
    if kv.len() == 0 {
        None
    } else if kv.last().0 == key {
        Some(kv.last().1)
    } else {
        value_of(kv.drop_last(), key)
    }
}

/// The text of an optional string.
pub open spec fn text_view(s: Option<String>) -> Option<Seq<char>> {
    match s {
        Some(s) => Some(s@),
        None => None,
    }
}

impl KeyValues {
    /// No values at all.
    pub fn new() -> (r: KeyValues)
        ensures
            r@ == Seq::<(Seq<char>, Seq<char>)>::empty(),
    {
        let r = KeyValues { pairs: Vec::new() };
        assert(r@ =~= Seq::<(Seq<char>, Seq<char>)>::empty());
        r
    }

    /// Adds a value, which takes the place of an earlier one of the same name.
    pub fn set(&mut self, key: String, value: String)
        ensures
            final(self)@ == old(self)@.push((key@, value@)),
    {
        self.pairs.push((key, value));
        assert(self@ =~= old(self)@.push((key@, value@)));
    }

    /// The value of the key.
    pub fn get(&self, key: &str) -> (r: Option<String>)
        ensures
            text_view(r) == value_of(self@, key@),
    {
        let mut n: usize = self.pairs.len();
        assert(self@.take(n as int) =~= self@);
        while n > 0
            invariant
                n <= self.pairs@.len(),
                value_of(self@, key@) == value_of(self@.take(n as int), key@),
            decreases n,
        {
            proof {
                let s = self@.take(n as int);
                assert(s.last() == (self.pairs@[n - 1].0@, self.pairs@[n - 1].1@));
                assert(s.drop_last() =~= self@.take(n - 1));
            }
            if same_str(self.pairs[n - 1].0.as_str(), key) {
                return Some(self.pairs[n - 1].1.clone());
            }
            n -= 1;
        }
        None
    }
}

// ---------------------------------------------------------------------------
// The config file
// ---------------------------------------------------------------------------

/// The key with underscores for hyphens.
pub open spec fn underscored(key: Seq<char>) -> Seq<char> {
    key.map_values(
        |c: char|
            if c == '-' {
                '_'
            } else {
                c
            },
    )
}

/// The text of a value of the config file; nested values have none.
pub open spec fn setting_text(f: FieldView) -> Option<Seq<char>> {
    match f {
        FieldView::Text(s) => Some(s),
        FieldView::Number(s) => Some(s),
        FieldView::Bool(b) => Some(
            if b {
                "true"@
            } else {
                "false"@
            },
        ),
        FieldView::Other(_) => None,
    }
}

/// The settings of the fields up to the `n`th, or the first key whose value is
/// not supported.
pub open spec fn file_settings(e: Seq<(Seq<char>, FieldView)>, n: int) -> Result<
    Seq<(Seq<char>, Seq<char>)>,
    Seq<char>,
>
    decreases n,
{
    if n <= 0 {
        Ok(Seq::empty())
    } else {
        match file_settings(e, n - 1) {
            Ok(kv) => match setting_text(e[n - 1].1) {
                Some(t) => Ok(kv.push((underscored(e[n - 1].0), t))),
                None => Err(e[n - 1].0),
            },
            Err(k) => Err(k),
        }
    }
}

/// What the text of a config file says.
pub open spec fn file_outcome(text: Seq<char>, path: Seq<char>) -> Result<
    Seq<(Seq<char>, Seq<char>)>,
    ConfigErrorView,
> {
    match json_value(text) {
        Ok(JsonView::Object(e)) => match file_settings(e, e.len() as int) {
            Ok(kv) => Ok(kv),
            Err(key) => Err(ConfigErrorView::UnsupportedValue { key }),
        },
        Ok(_) => Err(ConfigErrorView::NotAnObject),
        Err(problem) => Err(ConfigErrorView::InvalidJson { path, problem }),
    }
}

fn with_underscores(key: &str) -> (r: String)
    ensures
        r@ == underscored(key@),
{
    let cs = chars_of(key);
    let mut out = String::new();
    let mut i: usize = 0;
    while i < cs.len()
        invariant
            i <= cs@.len(),
            out@ == underscored(cs@).take(i as int),
        decreases cs@.len() - i,
    {
        out.push(
            if cs[i] == '-' {
                '_'
            } else {
                cs[i]
            },
        );
        assert(underscored(cs@).take(i + 1) =~= underscored(cs@).take(i as int).push(
            underscored(cs@)[i as int],
        ));
        i += 1;
    }
    assert(underscored(cs@).take(cs@.len() as int) =~= underscored(cs@));
    out
}

/// The settings of the fields of a config file. Keys may be written with
/// hyphens or underscores; numbers and booleans count by their text.
pub fn settings_of(e: &Vec<(String, Field)>) -> (r: Result<KeyValues, ConfigError>)
    ensures
        match r {
            Ok(kv) => file_settings(entries_view(e@), e@.len() as int) == Ok::<
                Seq<(Seq<char>, Seq<char>)>,
                Seq<char>,
            >(kv@),
            Err(x) => x@ matches ConfigErrorView::UnsupportedValue { key } && file_settings(
                entries_view(e@),
                e@.len() as int,
            ) == Err::<Seq<(Seq<char>, Seq<char>)>, Seq<char>>(key),
        },
{
    let mut kv = KeyValues::new();
    let mut i: usize = 0;
    while i < e.len()
        invariant
            i <= e@.len(),
            file_settings(entries_view(e@), i as int) == Ok::<
                Seq<(Seq<char>, Seq<char>)>,
                Seq<char>,
            >(kv@),
        decreases e@.len() - i,
    {
        assert(entries_view(e@)[i as int] == (e@[i as int].0@, e@[i as int].1@));
        let text = match &e[i].1 {
            Field::Text(s) => s.clone(),
            Field::Number { text, .. } => text.clone(),
            Field::Bool(b) => if *b {
                "true".to_owned()
            } else {
                "false".to_owned()
            },
            Field::Other(_) => {
                proof {
                    lemma_unsupported(entries_view(e@), i as int, e@.len() as int);
                }
                return Err(ConfigError::UnsupportedValue { key: e[i].0.clone() });
            },
        };
        kv.set(with_underscores(e[i].0.as_str()), text);
        i += 1;
    }
    Ok(kv)
}

proof fn lemma_unsupported(e: Seq<(Seq<char>, FieldView)>, i: int, n: int)
    requires
        0 <= i < n <= e.len(),
        file_settings(e, i) is Ok,
        setting_text(e[i].1) is None,
    ensures
        file_settings(e, n) == Err::<Seq<(Seq<char>, Seq<char>)>, Seq<char>>(e[i].0),
    decreases n,
{
    if n > i + 1 {
        lemma_unsupported(e, i, n - 1);
    }
}

/// The settings that the text of the config file at `path` gives.
pub fn load_settings(text: &str, path: &str) -> (r: Result<KeyValues, ConfigError>)
    ensures
        match r {
            Ok(kv) => file_outcome(text@, path@) == Ok::<
                Seq<(Seq<char>, Seq<char>)>,
                ConfigErrorView,
            >(kv@),
            Err(e) => file_outcome(text@, path@) == Err::<
                Seq<(Seq<char>, Seq<char>)>,
                ConfigErrorView,
            >(e@),
        },
{
    match parse_json(text) {
        Ok(Json::Object(m)) => {
            let e = entries(&m);
            assert(entries_view(e@).len() == e@.len());
            settings_of(&e)
        },
        Ok(_) => Err(ConfigError::NotAnObject),
        Err(problem) => Err(ConfigError::InvalidJson { path: path.to_owned(), problem }),
    }
}

// ---------------------------------------------------------------------------
// Precedence
// ---------------------------------------------------------------------------

/// The value of an environment variable; an empty one counts as not set.
pub open spec fn env_text(env: Seq<(Seq<char>, Seq<char>)>, key: Option<Seq<char>>) -> Option<
    Seq<char>,
> {
    match key {
        Some(k) => match value_of(env, k) {
            Some(v) if v.len() > 0 => Some(v),
            _ => None,
        },
        None => None,
    }
}

/// The text of a setting: command line, then environment, then config file,
/// then default.
pub open spec fn chosen_text(
    cli: Option<Seq<char>>,
    env: Option<Seq<char>>,
    file: Option<Seq<char>>,
    default: Seq<char>,
) -> Seq<char> {
    match cli {
        Some(v) => v,
        None => match env {
            Some(v) => v,
            None => match file {
                Some(v) => v,
                None => default,
            },
        },
    }
}

/// The text of a setting without a default.
pub open spec fn chosen_opt(
    cli: Option<Seq<char>>,
    env: Option<Seq<char>>,
    file: Option<Seq<char>>,
) -> Option<Seq<char>> {
    match cli {
        Some(v) => Some(v),
        None => match env {
            Some(v) => Some(v),
            None => file,
        },
    }
}

/// A flag by precedence: command line, config file. The config file sets a flag
/// by naming it, unless what it says there is `false`.
pub open spec fn chosen_flag(cli: bool, file: Option<Seq<char>>) -> bool {
    cli || (file is Some && file->0 != "false"@)
}

/// A number that a setting gives: command line, then environment, then config
/// file; `None` when it is not set. A value that is no number is an error that
/// names the place that it came from.
pub open spec fn chosen_number(
    cli: Option<int>,
    env_key: Seq<char>,
    env: Option<Seq<char>>,
    file_key: Seq<char>,
    file: Option<Seq<char>>,
    max: int,
) -> Result<Option<int>, ConfigErrorView> {
    match cli {
        Some(v) => Ok(Some(v)),
        None => match env {
            Some(s) => match unsigned_value(s, max) {
                Ok(n) => Ok(Some(n)),
                Err(p) => Err(
                    ConfigErrorView::EnvValue { key: env_key, value: s, problem: p.label() },
                ),
            },
            None => match file {
                Some(s) => match unsigned_value(s, max) {
                    Ok(n) => Ok(Some(n)),
                    Err(p) => Err(
                        ConfigErrorView::FileValue { key: file_key, problem: p.label() },
                    ),
                },
                None => Ok(None),
            },
        },
    }
}

/// The value of an environment variable, unless it is empty.
pub fn env_value(env: &KeyValues, key: &str) -> (r: Option<String>)
    ensures
        text_view(r) == env_text(env@, Some(key@)),
{
    let v = env.get(key)?;
    if chars_of(v.as_str()).len() > 0 {
        Some(v)
    } else {
        None
    }
}

/// The text of a setting.
pub fn resolve_string(
    cli: &Option<String>,
    env: Option<String>,
    file: Option<String>,
    default: &str,
) -> (r: String)
    ensures
        r@ == chosen_text(text_view(*cli), text_view(env), text_view(file), default@),
{
    if let Some(v) = cli {
        return v.clone();
    }
    match env {
        Some(v) => v,
        None => match file {
            Some(v) => v,
            None => default.to_owned(),
        },
    }
}

/// The text of a setting without a default.
pub fn resolve_text(cli: &Option<String>, env: Option<String>, file: Option<String>) -> (r: Option<
    String,
>)
    ensures
        text_view(r) == chosen_opt(text_view(*cli), text_view(env), text_view(file)),
{
    if let Some(v) = cli {
        return Some(v.clone());
    }
    match env {
        Some(v) => Some(v),
        None => file,
    }
}

/// The value of an optional number.
pub open spec fn number_view(n: Option<u64>) -> Option<int> {
    match n {
        Some(v) => Some(v as int),
        None => None,
    }
}

/// A flag by precedence: command line, config file.
pub fn resolve_flag(cli: bool, file: Option<String>) -> (r: bool)
    ensures
        r == chosen_flag(cli, text_view(file)),
{
    cli || match file {
        Some(s) => !same_str(s.as_str(), "false"),
        None => false,
    }
}

/// A number that a setting gives, at most `max`.
pub fn resolve_opt(
    cli: Option<u64>,
    env_key: &str,
    env: Option<String>,
    file_key: &str,
    file: Option<String>,
    max: u64,
) -> (r: Result<Option<u64>, ConfigError>)
    ensures
        ({
            let c = chosen_number(
                number_view(cli),
                env_key@,
                text_view(env),
                file_key@,
                text_view(file),
                max as int,
            );
            match r {
                Ok(n) => c == Ok::<Option<int>, ConfigErrorView>(number_view(n)) && (n matches Some(
                    v,
                ) ==> v <= max || cli == Some(v)),
                Err(e) => c == Err::<Option<int>, ConfigErrorView>(e@),
            }
        }),
{
    if cli.is_some() {
        return Ok(cli);
    }
    if let Some(s) = env {
        return match parse_unsigned(s.as_str(), max) {
            Ok(n) => Ok(Some(n)),
            Err(p) => Err(
                ConfigError::EnvValue {
                    key: env_key.to_owned(),
                    value: s,
                    problem: p.text().to_owned(),
                },
            ),
        };
    }
    if let Some(s) = file {
        return match parse_unsigned(s.as_str(), max) {
            Ok(n) => Ok(Some(n)),
            Err(p) => Err(
                ConfigError::FileValue { key: file_key.to_owned(), problem: p.text().to_owned() },
            ),
        };
    }
    Ok(None)
}

} // verus!
