//! What is sent: to which URL, and what of an event stands where in an envelope,
//! a record, a request or a line.

use vstd::prelude::*;

use vstd::utf8::encode_utf8;

use crate::config::{Config, SimMode, TransportKind};
use crate::event::{name_view, Event};
use crate::laws::naming::lemma_severity_numbers;
use crate::settings::{text_view, ConfigError};
use crate::text::{contains, decimal, first_at, occurs_at};
use crate::timestamp::host_word;
use crate::transport::hec::{
    hec_url, lemma_no_trim, sanitized, HecEnvelope, SplunkHecTransport,
};
use crate::transport::otel::{
    any_value, file_name_of, first_occurs_at, from_origin, has_path, network_failure, origin_of,
    origins, otel_url, path_at, to_log_record, unix_nanos, AnyValue, ExportLogsServiceRequest,
    KeyValue, LogRecord, OtelTransport,
};
use crate::transport::stdout::StdoutTransport;
use crate::transport::{build, BatchResult, Transport};

verus! {

broadcast use vstd::string::group_string_axioms;

// ---------------------------------------------------------------------------
// HEC
// ---------------------------------------------------------------------------

/// The envelope of an event has its body and the time of its timestamp, or else
/// that of its generation, to the millisecond; what the transport is told of host,
/// source and sourcetype goes before what the event says of them, and the default
/// host comes last.
pub proof fn lemma_envelope_of_an_event(t: SplunkHecTransport, e: Event, x: HecEnvelope)
    requires
        call_ensures(SplunkHecTransport::envelope, (&t, &e), x),
    ensures
        x.event@ == e.body@,
        e.timestamp matches Some(ts) ==> x.time.secs == (ts@ / 1_000_000_000) as i64
            && x.time.millis == (ts@ % 1_000_000_000 / 1_000_000) as u32,
        e.timestamp is None ==> x.time.secs == (e.observed@ / 1_000_000_000) as i64
            && x.time.millis == (e.observed@ % 1_000_000_000 / 1_000_000) as u32,
        t.host_override matches Some(h) ==> x.host@ == h@,
        t.host_override is None ==> {
            &&& host_word(e.body@) matches Some(h) ==> x.host@ == h
            &&& host_word(e.body@) is None ==> x.host@ == t.host_default@
        },
        t.source_override matches Some(s) ==> x.source@ == s@,
        t.source_override is None ==> x.source@ == e.source_file@,
        t.sourcetype_override matches Some(s) ==> x.sourcetype@ == s@,
        t.sourcetype_override is None ==> x.sourcetype@ == e.source_type@,
        t.index matches Some(s) ==> text_view(x.index) == Some(s@),
        t.index is None ==> x.index is None,
{
}

/// A batch has an envelope for each of its events, in their order.
pub proof fn lemma_envelopes_of_a_batch(
    t: SplunkHecTransport,
    batch: &[Event],
    r: Vec<HecEnvelope>,
)
    requires
        call_ensures(SplunkHecTransport::envelopes, (&t, batch), r),
    ensures
        r@.len() == batch@.len(),
        forall|i: int|
            0 <= i < batch@.len() ==> (#[trigger] r@[i]).event@ == batch@[i].body@,
{
}

/// The token is sent as that of Splunk.
pub proof fn lemma_token_is_sent(t: SplunkHecTransport, r: String)
    requires
        call_ensures(SplunkHecTransport::authorization, (&t,), r),
    ensures
        r@ == "Splunk "@ + t.token@,
{
}

/// A message of up to 300 bytes is kept, and a longer one is cut to 300 bytes.
pub proof fn lemma_messages_are_cut(r: Seq<char>, msg: Seq<char>)
    requires
        sanitized(r, msg),
    ensures
        encode_utf8(msg).len() <= 300 ==> encode_utf8(r) == encode_utf8(msg),
        encode_utf8(msg).len() > 300 ==> encode_utf8(r) == encode_utf8(msg).take(300),
        encode_utf8(r).len() <= 300,
{
}

// ---------------------------------------------------------------------------
// URLs
// ---------------------------------------------------------------------------

/// Slashes at the end of an endpoint do not matter.
pub proof fn lemma_slashes_at_the_end_do_not_matter(endpoint: Seq<char>)
    ensures
        hec_url(endpoint.push('/')) == hec_url(endpoint),
        otel_url(endpoint.push('/')) == otel_url(endpoint),
{
    assert(endpoint.push('/').drop_last() =~= endpoint);
}

/// A HEC endpoint gets the path of the collector, unless it has it.
pub proof fn lemma_hec_endpoint_gets_its_path(base: Seq<char>)
    requires
        base.len() > 0,
        base.last() != '/',
    ensures
        !contains(base, "/services/collector/"@) ==> hec_url(base) == base
            + "/services/collector/event"@,
        contains(base, "/services/collector/"@) ==> hec_url(base) == base,
{
    lemma_no_trim(base);
}

/// An OTLP endpoint that is a scheme and an authority, or has no scheme, gets the
/// path of the logs.
#[verifier::rlimit(40)]
pub proof fn lemma_otlp_endpoint_gets_its_path(base: Seq<char>)
    requires
        base.len() > 0,
        base.last() != '/',
    ensures
        (forall|i: int| !occurs_at(base, "://"@, i)) ==> otel_url(base) == base + "/v1/logs"@,
        forall|i: int| #[trigger]
            first_occurs_at(base, "://"@, i) && (forall|k: int|
                i + 3 <= k < base.len() ==> base[k] != '/') ==> otel_url(base) == base
                + "/v1/logs"@,
        forall|i: int, k: int|
            #![trigger first_occurs_at(base, "://"@, i), base[k]]
            first_occurs_at(base, "://"@, i) && i + 3 <= k < base.len() && base[k] == '/'
                ==> otel_url(base) == base,
{
    lemma_no_trim(base);
    assert forall|i: int| #[trigger]
        first_occurs_at(base, "://"@, i) && (forall|k: int|
            i + 3 <= k < base.len() ==> base[k] != '/') implies otel_url(base) == base
        + "/v1/logs"@ by {
        reveal_strlit("://");
        if has_path(base) {
            let (a, j) = choose|a: int, j: int| #[trigger] path_at(base, a, j);
            assert(a == i) by {
                if a < i {
                    assert(!occurs_at(base, "://"@, a));
                } else if i < a {
                    assert(!occurs_at(base, "://"@, i));
                }
            }
            assert(base.skip(a + 3)[j] == base[a + 3 + j]);
        }
    }
    assert forall|i: int, k: int|
        #![trigger first_occurs_at(base, "://"@, i), base[k]]
        first_occurs_at(base, "://"@, i) && i + 3 <= k < base.len() && base[k]
            == '/' implies otel_url(base) == base by {
        reveal_strlit("://");
        let t = base.skip(i + 3);
        assert(t[k - i - 3] == '/');
        lemma_some_slash_is_first(t, k - i - 3);
        let j = choose|j: int| 0 <= j <= k - i - 3 && #[trigger] first_at(t, '/', j);
        assert(j + 1 < t.len()) by {
            if j + 1 == t.len() {
                assert(t[j] == base[i + 3 + j]);
                assert(base.last() == '/');
            }
        }
        assert(path_at(base, i, j));
    }
    if forall|i: int| !occurs_at(base, "://"@, i) {
        if has_path(base) {
            let (a, j) = choose|a: int, j: int| #[trigger] path_at(base, a, j);
            assert(occurs_at(base, "://"@, a));
        }
    }
}

proof fn lemma_some_slash_is_first(t: Seq<char>, k: int)
    requires
        0 <= k < t.len(),
        t[k] == '/',
    ensures
        exists|j: int| 0 <= j <= k && #[trigger] first_at(t, '/', j),
    decreases k,
{
    if exists|m: int| 0 <= m < k && t[m] == '/' {
        let m = choose|m: int| 0 <= m < k && t[m] == '/';
        lemma_some_slash_is_first(t, m);
    } else {
        assert(first_at(t, '/', k));
    }
}

// ---------------------------------------------------------------------------
// OTLP
// ---------------------------------------------------------------------------

/// Some attribute has the key and the text.
pub open spec fn has_attribute(attributes: Seq<KeyValue>, key: Seq<char>, text: Seq<char>) -> bool {
    exists|i: int| 0 <= i < attributes.len() && #[trigger] says(attributes[i], key, text)
}

/// The value is the text.
pub open spec fn is_text(value: Option<AnyValue>, text: Seq<char>) -> bool {
    match value {
        Some(AnyValue { value: Some(any_value::Value::StringValue(s)) }) => s@ == text,
        _ => false,
    }
}

/// The attribute has the key and the text.
pub open spec fn says(a: KeyValue, key: Seq<char>, text: Seq<char>) -> bool {
    a.key@ == key && is_text(a.value, text)
}

/// The record of an event has its body, its time in nanoseconds, the time of its
/// generation, its level by name and number, and what it comes from.
#[verifier::rlimit(40)]
pub proof fn lemma_record_of_an_event(
    e: Event,
    service_name: &str,
    host_default: &str,
    seed: u64,
    r: LogRecord,
)
    requires
        call_ensures(to_log_record, (&e, service_name, host_default, seed), r),
    ensures
        is_text(r.body, e.body@),
        e.timestamp matches Some(ts) ==> (0 <= ts@ <= i64::MAX ==> r.time_unix_nano == ts@),
        e.timestamp is None ==> (0 <= e.observed@ <= i64::MAX ==> r.time_unix_nano == e.observed@),
        0 <= e.observed@ <= i64::MAX ==> r.observed_time_unix_nano == e.observed@,
        e.severity is None ==> r.severity_number == Some(9u32) && text_view(r.severity_text)
            == Some("INFO"@),
        e.severity matches Some(l) ==> text_view(r.severity_text) == Some(l@),
        name_view(e.severity) == Some("DEBUG"@) ==> r.severity_number == Some(5u32),
        name_view(e.severity) == Some("TRACE"@) ==> r.severity_number == Some(5u32),
        name_view(e.severity) == Some("VERBOSE"@) ==> r.severity_number == Some(5u32),
        name_view(e.severity) == Some("INFO"@) ==> r.severity_number == Some(9u32),
        name_view(e.severity) == Some("NOTICE"@) ==> r.severity_number == Some(9u32),
        name_view(e.severity) == Some("WARN"@) ==> r.severity_number == Some(13u32),
        name_view(e.severity) == Some("ERROR"@) ==> r.severity_number == Some(17u32),
        name_view(e.severity) == Some("CRITICAL"@) ==> r.severity_number == Some(21u32),
        name_view(e.severity) == Some("FATAL"@) ==> r.severity_number == Some(21u32),
        has_attribute(r.attributes@, "log.file.path"@, e.source_file@),
        has_attribute(r.attributes@, "log.file.name"@, file_name_of(e.source_file@)),
        has_attribute(r.attributes@, "source.type"@, e.source_type@),
        has_attribute(r.attributes@, "logpushi.dataset"@, e.source_type@),
        has_attribute(r.attributes@, "logpushi.mode"@, "simulation"@),
        has_attribute(r.attributes@, "logpushi.seed"@, decimal(seed as int)),
        e.ts_detected ==> has_attribute(r.attributes@, "logpushi.ts_detected"@, "true"@),
        !e.ts_detected ==> has_attribute(r.attributes@, "logpushi.ts_detected"@, "false"@),
{
    lemma_severity_numbers(name_view(e.severity));
    assert(says(r.attributes@[0], "log.file.path"@, e.source_file@));
    assert(says(r.attributes@[1], "log.file.name"@, file_name_of(e.source_file@)));
    assert(says(r.attributes@[2], "source.type"@, e.source_type@));
    assert(says(r.attributes@[3], "logpushi.dataset"@, e.source_type@));
    assert(says(r.attributes@[4], "logpushi.mode"@, "simulation"@));
    assert(says(r.attributes@[5], "logpushi.seed"@, decimal(seed as int)));
    if e.ts_detected {
        assert(says(r.attributes@[6], "logpushi.ts_detected"@, "true"@));
    } else {
        assert(says(r.attributes@[6], "logpushi.ts_detected"@, "false"@));
    }
}

/// An instant before 1970 wraps around the 64 bits, and one that 63 bits cannot
/// hold has no number.
pub proof fn lemma_times_before_the_epoch(t: int)
    ensures
        i64::MIN <= t < 0 ==> unix_nanos(t) == t + 0x1_0000_0000_0000_0000,
        t < i64::MIN || t > i64::MAX ==> unix_nanos(t) == 0,
{
}

/// The name of a file is what stands behind the last slash of its path.
pub proof fn lemma_file_name_is_behind_the_slash(dir: Seq<char>, name: Seq<char>)
    requires
        !name.contains('/'),
    ensures
        file_name_of(name) == name,
        file_name_of(dir.push('/') + name) == name,
    decreases name.len(),
{
    if name.len() > 0 {
        let n = name.drop_last();
        assert(name.contains(name.last()));
        assert forall|k: int| 0 <= k < n.len() implies n[k] != '/' by {
            assert(name.contains(name[k]));
        }
        lemma_file_name_is_behind_the_slash(dir, n);
        assert((dir.push('/') + name).drop_last() =~= dir.push('/') + n);
        assert(n.push(name.last()) =~= name);
    } else {
        assert(dir.push('/') + name =~= dir.push('/'));
        assert(name =~= Seq::empty());
    }
}

/// Every resource of a request names the service, and the host and source type of
/// the events that it holds; each of its records names the mode and the seed of
/// the run.
#[verifier::rlimit(40)]
pub proof fn lemma_resources_of_a_request(
    t: OtelTransport,
    batch: &[Event],
    r: ExportLogsServiceRequest,
    k: int,
)
    requires
        call_ensures(OtelTransport::request, (&t, batch), r),
        0 <= k < r.resource_logs@.len(),
    ensures
        ({
            let from = origins(batch@, t.host_default@)[k];
            let l = r.resource_logs@[k];
            &&& l.resource is Some
            &&& has_attribute(l.resource->0.attributes@, "service.name"@, t.service_name@)
            &&& has_attribute(l.resource->0.attributes@, "host.name"@, from.0)
            &&& has_attribute(l.resource->0.attributes@, "source.type"@, from.1)
            &&& l.scope_logs@.len() == 1
            &&& forall|i: int|
                0 <= i < l.scope_logs@[0].log_records@.len() ==> has_attribute(
                    (#[trigger] l.scope_logs@[0].log_records@[i]).attributes@,
                    "logpushi.mode"@,
                    t.mode@,
                ) && has_attribute(
                    l.scope_logs@[0].log_records@[i].attributes@,
                    "logpushi.seed"@,
                    decimal(t.seed as int),
                )
        }),
{
    let l = r.resource_logs@[k];
    let from = origins(batch@, t.host_default@)[k];
    assert(says(l.resource->0.attributes@[0], "service.name"@, t.service_name@));
    assert(says(l.resource->0.attributes@[1], "host.name"@, from.0));
    assert(says(l.resource->0.attributes@[2], "source.type"@, from.1));
    assert forall|i: int| 0 <= i < l.scope_logs@[0].log_records@.len() implies has_attribute(
        (#[trigger] l.scope_logs@[0].log_records@[i]).attributes@,
        "logpushi.mode"@,
        t.mode@,
    ) && has_attribute(
        l.scope_logs@[0].log_records@[i].attributes@,
        "logpushi.seed"@,
        decimal(t.seed as int),
    ) by {
        let a = l.scope_logs@[0].log_records@[i].attributes@;
        assert(says(a[4], "logpushi.mode"@, t.mode@));
        assert(says(a[5], "logpushi.seed"@, decimal(t.seed as int)));
    }
}

/// One more event of a batch goes to the resource of its origin, behind the
/// others of it; where there is none yet, one comes behind the others.
pub proof fn lemma_events_go_to_their_origin(
    events: Seq<Event>,
    e: Event,
    host_default: Seq<char>,
    o: (Seq<char>, Seq<char>),
)
    ensures
        origins(Seq::empty(), host_default).len() == 0,
        origins(events, host_default).contains(origin_of(e, host_default)) ==> origins(
            events.push(e),
            host_default,
        ) == origins(events, host_default),
        !origins(events, host_default).contains(origin_of(e, host_default)) ==> origins(
            events.push(e),
            host_default,
        ) == origins(events, host_default).push(origin_of(e, host_default)),
        o == origin_of(e, host_default) ==> from_origin(events.push(e), host_default, o)
            == from_origin(events, host_default, o).push(e),
        o != origin_of(e, host_default) ==> from_origin(events.push(e), host_default, o)
            == from_origin(events, host_default, o),
{
    assert(events.push(e).drop_last() =~= events);
}

/// What an event comes from: the host that its line names, or else the default,
/// and its dataset family.
pub proof fn lemma_origin_of_an_event(e: Event, host_default: Seq<char>)
    ensures
        host_word(e.body@) matches Some(h) ==> origin_of(e, host_default)
            == (h, e.source_type@),
        host_word(e.body@) is None ==> origin_of(e, host_default) == (
            host_default,
            e.source_type@,
        ),
{
}

/// A batch that could not be exported may be exported again.
pub proof fn lemma_failed_exports_are_retried(timed_out: bool, n: u64, r: BatchResult)
    requires
        call_ensures(network_failure, (timed_out, n), r),
    ensures
        r.retryable && !r.auth_error && r.retry_after is None,
        r.succeeded == 0 && r.failed == n && r.bytes == 0,
        r.reason is Some,
{
}

// ---------------------------------------------------------------------------
// Standard output
// ---------------------------------------------------------------------------

/// A line is the body of its event, to the letter, and a line feed.
pub proof fn lemma_lines_are_bodies(t: StdoutTransport, e: Event, r: String)
    requires
        call_ensures(StdoutTransport::line, (&t, &e), r),
    ensures
        r@ == e.body@ + seq!['\n'],
{
    assert(e.body@.push('\n') =~= e.body@ + seq!['\n']);
}

/// Where all lines were written, every event is delivered; where one was not, all
/// have failed for good.
pub proof fn lemma_written_lines_are_delivered(
    t: StdoutTransport,
    batch: &[Event],
    problem: &str,
    ok: BatchResult,
    bad: BatchResult,
)
    requires
        call_ensures(StdoutTransport::written, (&t, batch), ok),
        call_ensures(StdoutTransport::failed, (&t, batch, problem), bad),
    ensures
        ok.succeeded == batch@.len() && ok.failed == 0 && !ok.retryable && !ok.auth_error,
        ok.reason is None,
        bad.succeeded == 0 && bad.failed == batch@.len() && !bad.retryable && !bad.auth_error,
        bad.bytes == 0 && bad.reason is Some,
{
}

// ---------------------------------------------------------------------------
// The transport of a run
// ---------------------------------------------------------------------------

/// A transport to an endpoint has what it was made with.
pub proof fn lemma_transports_are_made(
    endpoint: &str,
    token: String,
    index: Option<String>,
    source: Option<String>,
    sourcetype: Option<String>,
    host: &str,
    service_name: &str,
    h: Result<SplunkHecTransport, ConfigError>,
    o: Result<OtelTransport, ConfigError>,
)
    requires
        call_ensures(
            SplunkHecTransport::new,
            (endpoint, token, index, source, sourcetype, host),
            h,
        ),
        call_ensures(OtelTransport::new, (endpoint, service_name, host), o),
    ensures
        h is Ok && o is Ok,
        h->Ok_0.url@ == hec_url(endpoint@) && h->Ok_0.token@ == token@,
        h->Ok_0.index == index && h->Ok_0.source_override == source && h->Ok_0.sourcetype_override
            == sourcetype && h->Ok_0.host_override is None,
        o->Ok_0.url@ == otel_url(endpoint@) && o->Ok_0.service_name@ == service_name@,
        o->Ok_0.seed == 0 && o->Ok_0.mode@ == "simulation"@,
        host@.len() > 0 ==> h->Ok_0.host_default@ == host@ && o->Ok_0.host_default@ == host@,
        host@.len() == 0 ==> h->Ok_0.host_default@ == "simulated-host"@ && o->Ok_0.host_default@
            == "simulated-host"@,
{
}

/// The transports go by the names that the command line has for them.
pub proof fn lemma_transports_have_names(t: Transport, r: &'static str)
    requires
        call_ensures(Transport::name, (&t,), r),
    ensures
        t is Stdout ==> r@ == "stdout"@,
        t is Otel ==> r@ == "otel"@,
        t is Hec ==> r@ == "hec"@,
{
}

/// A run sends by the transport that its configuration names, with all that the
/// configuration has for it.
pub proof fn lemma_transport_of_a_run(c: Config, r: Result<Transport, ConfigError>)
    requires
        call_ensures(build, (&c,), r),
    ensures
        r is Ok,
        c.transport == TransportKind::Stdout <==> r->Ok_0 is Stdout,
        c.transport == TransportKind::Otel <==> r->Ok_0 is Otel,
        c.transport == TransportKind::Hec <==> r->Ok_0 is Hec,
        r matches Ok(Transport::Otel(t)) ==> {
            &&& t.service_name@ == c.service_name@
            &&& c.seed matches Some(s) ==> t.seed == s
            &&& c.seed is None ==> t.seed == 0
            &&& c.mode == SimMode::Replay ==> t.mode@ == "replay"@
            &&& c.mode == SimMode::SyntheticToday ==> t.mode@ == "synthetic-today"@
            &&& c.host@.len() > 0 ==> t.host_default@ == c.host@
            &&& c.host@.len() == 0 ==> t.host_default@ == "simulated-host"@
            &&& t.url@ == otel_url(c.endpoint->0@)
        },
        r matches Ok(Transport::Hec(t)) ==> {
            &&& t.token@ == c.hec_token->0@
            &&& text_view(t.index) == text_view(c.hec_index)
            &&& text_view(t.source_override) == text_view(c.hec_source)
            &&& text_view(t.sourcetype_override) == text_view(c.hec_sourcetype)
            &&& c.host@.len() > 0 ==> text_view(t.host_override) == Some(c.host@)
            &&& c.host@.len() == 0 ==> t.host_override is None && t.host_default@
                == "simulated-host"@
            &&& t.url@ == hec_url(c.endpoint->0@)
        },
{
}

} // verus!
