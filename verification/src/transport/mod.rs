//! Transport abstraction: the simulation engine produces batches of events and
//! consumes a [`BatchResult`], never seeing protocol specifics.

pub mod hec;
pub mod otel;
pub mod stdout;

use vstd::prelude::*;

use crate::config::{
    config_error, mode_label, mode_name, Config, ConfigError, TransportKind,
};
use crate::settings::text_view;
use crate::text::{chars_of, decimal, parse_unsigned, push_decimal, unsigned_value};
use crate::transport::hec::{default_host_of, hec_url, SplunkHecTransport};
use crate::transport::otel::{otel_url, OtelTransport};
use crate::transport::stdout::StdoutTransport;

verus! {

broadcast use vstd::string::group_string_axioms;

/// Per-batch outcomes (partial success representable).
#[derive(Debug, Clone)]
pub struct BatchResult {
    pub succeeded: u64,
    pub failed: u64,
    /// Approximate bytes counted as delivered by the transport.
    pub bytes: u64,
    /// True when the failure may resolve on retry (network, 429, 5xx).
    pub retryable: bool,
    /// Auth error: retry storms are pointless; pipelines abort after one retry.
    pub auth_error: bool,
    /// Seconds. Honor Retry-After when longer than computed backoff.
    pub retry_after: Option<u64>,
    /// Short, sanitized diagnostics safe for logs (no tokens, no bodies).
    pub reason: Option<String>,
}

/// `r` is the outcome with the given parts.
pub open spec fn result_is(
    r: BatchResult,
    succeeded: int,
    failed: int,
    bytes: int,
    retryable: bool,
    auth_error: bool,
    retry_after: Option<u64>,
    reason: Option<Seq<char>>,
) -> bool {
    &&& r.succeeded == succeeded
    &&& r.failed == failed
    &&& r.bytes == bytes
    &&& r.retryable == retryable
    &&& r.auth_error == auth_error
    &&& r.retry_after == retry_after
    &&& text_view(r.reason) == reason
}

impl BatchResult {
    /// Full batch success.
    pub fn delivered(n: u64, bytes: u64) -> (r: BatchResult)
        ensures
            result_is(r, n as int, 0, bytes as int, false, false, None, None),
    {
        BatchResult {
            succeeded: n,
            failed: 0,
            bytes,
            retryable: false,
            auth_error: false,
            retry_after: None,
            reason: None,
        }
    }

    /// Full batch failure.
    pub fn none(n: u64, retryable: bool, reason: &str) -> (r: BatchResult)
        ensures
            result_is(r, 0, n as int, 0, retryable, false, None, Some(reason@)),
    {
        BatchResult {
            succeeded: 0,
            failed: n,
            bytes: 0,
            retryable,
            auth_error: false,
            retry_after: None,
            reason: Some(reason.to_owned()),
        }
    }
}

/// A response with this status reports success.
pub open spec fn success_status(status: u16) -> bool {
    200 <= status < 300
}

/// `r` is the outcome of a batch of `n` events that the receiver answered with
/// a status other than success: authentication errors are confirmed once, rate
/// limits and server errors are retried when the receiver says, and any other
/// status is final. `before` and `after` stand around such a status.
pub open spec fn refusal_is(
    r: BatchResult,
    status: u16,
    retry_after: Option<u64>,
    n: u64,
    before: Seq<char>,
    after: Seq<char>,
) -> bool {
    let code = decimal(status as int);
    if status == 401 || status == 403 {
        result_is(
            r,
            0,
            n as int,
            0,
            true,
            true,
            None,
            Some("authentication failed (HTTP "@ + code + ")"@),
        )
    } else if status == 429 {
        result_is(r, 0, n as int, 0, true, false, retry_after, Some("rate limited (429)"@))
    } else if status >= 500 {
        result_is(r, 0, n as int, 0, true, false, retry_after, Some("server error (5xx)"@))
    } else {
        result_is(r, 0, n as int, 0, false, false, None, Some(before + code + after))
    }
}

/// The outcome of a batch that the receiver answered with the status; `None`
/// when that reports success.
pub fn refusal(status: u16, retry_after: Option<u64>, n: u64, before: &str, after: &str) -> (r:
    Option<BatchResult>)
    ensures
        match r {
            Some(b) => !success_status(status) && refusal_is(
                b,
                status,
                retry_after,
                n,
                before@,
                after@,
            ),
            None => success_status(status),
        },
{
    if status == 401 || status == 403 {
        let mut reason = String::new();
        reason.append("authentication failed (HTTP ");
        push_decimal(&mut reason, status as u64);
        reason.append(")");
        return Some(
            BatchResult {
                succeeded: 0,
                failed: n,
                bytes: 0,
                retryable: true,
                auth_error: true,
                retry_after: None,
                reason: Some(reason),
            },
        );
    }
    if status == 429 || status >= 500 {
        let reason = if status == 429 {
            "rate limited (429)"
        } else {
            "server error (5xx)"
        };
        let mut b = BatchResult::none(n, true, reason);
        b.retry_after = retry_after;
        return Some(b);
    }
    if status < 200 || status >= 300 {
        let mut reason = String::new();
        reason.append(before);
        push_decimal(&mut reason, status as u64);
        reason.append(after);
        return Some(BatchResult::none(n, false, reason.as_str()));
    }
    None
}

/// The seconds that a `Retry-After` header asks for, where it gives a number.
pub fn retry_after_seconds(header: &str) -> (r: Option<u64>)
    ensures
        match r {
            Some(n) => unsigned_value(header@, u64::MAX as int) == Ok::<
                int,
                crate::text::IntProblem,
            >(n as int),
            None => unsigned_value(header@, u64::MAX as int) is Err,
        },
{
    match parse_unsigned(header, u64::MAX) {
        Ok(n) => Some(n),
        Err(_) => None,
    }
}

// ---------------------------------------------------------------------------
// The configured transport
// ---------------------------------------------------------------------------

/// What turns batches into requests and responses into outcomes.
pub enum Transport {
    Stdout(StdoutTransport),
    Otel(OtelTransport),
    Hec(SplunkHecTransport),
}

/// The configuration has what its transport needs.
pub open spec fn can_build(c: Config) -> bool {
    &&& c.transport != TransportKind::Stdout ==> c.endpoint is Some
    &&& c.transport == TransportKind::Hec ==> c.hec_token is Some
}

/// `t` is the transport that the configuration asks for.
pub open spec fn transport_is(t: Transport, c: Config) -> bool {
    match t {
        Transport::Stdout(_) => c.transport == TransportKind::Stdout,
        Transport::Otel(t) => {
            &&& c.transport == TransportKind::Otel
            &&& t.url@ == otel_url(c.endpoint->0@)
            &&& t.service_name@ == c.service_name@
            &&& t.host_default@ == default_host_of(c.host@)
            &&& t.mode@ == mode_label(c.mode)
            &&& t.seed == (match c.seed {
                Some(s) => s,
                None => 0,
            })
        },
        Transport::Hec(t) => {
            &&& c.transport == TransportKind::Hec
            &&& t.url@ == hec_url(c.endpoint->0@)
            &&& t.token@ == c.hec_token->0@
            &&& text_view(t.index) == text_view(c.hec_index)
            &&& text_view(t.source_override) == text_view(c.hec_source)
            &&& text_view(t.sourcetype_override) == text_view(c.hec_sourcetype)
            &&& text_view(t.host_override) == (if c.host@.len() > 0 {
                Some(c.host@)
            } else {
                None
            })
            &&& t.host_default@ == default_host_of(c.host@)
        },
    }
}

/// A configuration without objections has what its transport needs.
pub proof fn lemma_valid_config_can_be_built(c: Config)
    requires
        config_error(c) is None,
    ensures
        can_build(c),
{
}

fn copied(s: &Option<String>) -> (r: Option<String>)
    ensures
        text_view(r) == text_view(*s),
{
    match s {
        Some(t) => Some(t.clone()),
        None => None,
    }
}

/// Build the configured transport.
pub fn build(cfg: &Config) -> (r: Result<Transport, ConfigError>)
    requires
        can_build(*cfg),
    ensures
        r matches Ok(t) && transport_is(t, *cfg),
{
    let endpoint = match &cfg.endpoint {
        Some(e) => e.as_str(),
        None => "",
    };
    match cfg.transport {
        TransportKind::Stdout => Ok(Transport::Stdout(StdoutTransport::new())),
        TransportKind::Otel => {
            let t = OtelTransport::new(endpoint, cfg.service_name.as_str(), cfg.host.as_str())?;
            let t = t.with_mode(mode_name(cfg.mode).to_owned());
            Ok(
                Transport::Otel(
                    match cfg.seed {
                        Some(s) => t.with_seed(s),
                        None => t,
                    },
                ),
            )
        },
        TransportKind::Hec => {
            let token = match &cfg.hec_token {
                Some(t) => t.clone(),
                None => String::new(),
            };
            let t = SplunkHecTransport::new(
                endpoint,
                token,
                copied(&cfg.hec_index),
                copied(&cfg.hec_source),
                copied(&cfg.hec_sourcetype),
                cfg.host.as_str(),
            )?;
            if chars_of(cfg.host.as_str()).len() == 0 {
                Ok(Transport::Hec(t))
            } else {
                Ok(Transport::Hec(t.with_host(cfg.host.clone())))
            }
        },
    }
}

impl Transport {
    pub fn name(&self) -> (r: &'static str)
        ensures
            r@ == (match *self {
                Transport::Stdout(_) => "stdout"@,
                Transport::Otel(_) => "otel"@,
                Transport::Hec(_) => "hec"@,
            }),
    {
        match self {
            Transport::Stdout(t) => t.name(),
            Transport::Otel(t) => t.name(),
            Transport::Hec(t) => t.name(),
        }
    }
}

} // verus!
