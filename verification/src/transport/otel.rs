//! OpenTelemetry (OTLP/HTTP, protobuf) transport.
//!
//! Plain structs covering the `ExportLogsServiceRequest` shape needed for logs,
//! and what they hold for a batch of events.

pub mod any_value;

use vstd::prelude::*;

use crate::clock::UtcTime;
use crate::config::ConfigError;
use crate::event::{name_view, stamp_of, Event};
use crate::text::{
    chars_of, decimal, find_char, first_at, len_without_trailing, occurs_at, push_decimal, same_str,
    stands_at, string_of, trim_end_char,
};
use crate::timestamp::{host_word, syslog_host};
use crate::transport::hec::{default_host, default_host_of, lemma_no_trim, lemma_trimmed};
use crate::transport::{refusal, refusal_is, result_is, success_status, BatchResult};

verus! {

broadcast use vstd::string::group_string_axioms;

// ---------------------------------------------------------------------------
// Minimal OTLP v1 messages
// ---------------------------------------------------------------------------

#[derive(Debug, Clone)]
pub struct ExportLogsServiceRequest {
    pub resource_logs: Vec<ResourceLogs>,
}

#[derive(Debug, Clone)]
pub struct ExportLogsServiceResponse {
    pub partial_success: Option<ExportLogsPartialSuccess>,
}

#[derive(Debug, Clone)]
pub struct ExportLogsPartialSuccess {
    pub rejected_log_records: Option<i64>,
    pub error_message: Option<String>,
}

#[derive(Debug, Clone)]
pub struct ResourceLogs {
    pub resource: Option<Resource>,
    pub schema_url: Option<String>,
    pub scope_logs: Vec<ScopeLogs>,
}

#[derive(Debug, Clone)]
pub struct Resource {
    pub attributes: Vec<KeyValue>,
}

#[derive(Debug, Clone)]
pub struct ScopeLogs {
    pub schema_url: Option<String>,
    pub log_records: Vec<LogRecord>,
}

#[derive(Debug, Clone)]
pub struct KeyValue {
    pub key: String,
    pub value: Option<AnyValue>,
}

#[derive(Debug, Clone)]
pub struct AnyValue {
    pub value: Option<any_value::Value>,
}

#[derive(Debug, Clone)]
pub struct LogRecord {
    /// Event time (ns since unix epoch).
    pub time_unix_nano: u64,
    /// SeverityNumber.
    pub severity_number: Option<u32>,
    pub severity_text: Option<String>,
    pub body: Option<AnyValue>,
    pub attributes: Vec<KeyValue>,
    /// Observed time (ns) — when Logpushi generated the event.
    pub observed_time_unix_nano: u64,
}

// ---------------------------------------------------------------------------
// Log records
// ---------------------------------------------------------------------------

/// The OTLP SeverityNumber (v1 numeric scale) of a level keyword.
pub open spec fn severity_number_of(level: Option<Seq<char>>) -> int {
    match level {
        Some(l) => if l == "DEBUG"@ || l == "TRACE"@ || l == "VERBOSE"@ {
            5
        } else if l == "NOTICE"@ || l == "INFO"@ {
            9
        } else if l == "WARN"@ {
            13
        } else if l == "ERROR"@ {
            17
        } else if l == "CRITICAL"@ || l == "FATAL"@ {
            21
        } else {
            9
        },
        None => 9,
    }
}

/// Map a detected level keyword to OTLP SeverityNumber (v1 numeric scale).
pub fn severity_number(level: Option<&'static str>) -> (r: u32)
    ensures
        r == severity_number_of(name_view(level)),
{
    match level {
        Some(l) => if same_str(l, "DEBUG") || same_str(l, "TRACE") || same_str(l, "VERBOSE") {
            5
        } else if same_str(l, "NOTICE") || same_str(l, "INFO") {
            9
        } else if same_str(l, "WARN") {
            13
        } else if same_str(l, "ERROR") {
            17
        } else if same_str(l, "CRITICAL") || same_str(l, "FATAL") {
            21
        } else {
            9
        },
        None => 9,
    }
}

/// The attribute has the key and the text.
pub open spec fn attr_is(a: KeyValue, key: Seq<char>, text: Seq<char>) -> bool {
    &&& a.key@ == key
    &&& a.value matches Some(AnyValue { value: Some(any_value::Value::StringValue(s)) }) && s@
        == text
}

fn attr(key: &str, value: String) -> (r: KeyValue)
    ensures
        attr_is(r, key@, value@),
{
    KeyValue {
        key: key.to_owned(),
        value: Some(AnyValue { value: Some(any_value::Value::from(value)) }),
    }
}

/// An instant in nanoseconds since the epoch, as an unsigned number: instants
/// before the epoch wrap around, and those that 64 bits cannot hold are 0.
pub open spec fn unix_nanos(t: int) -> int {
    if i64::MIN <= t <= i64::MAX {
        t % 0x1_0000_0000_0000_0000
    } else {
        0
    }
}

fn nanos_of(t: &UtcTime) -> (r: u64)
    ensures
        r == unix_nanos(t@),
{
    match t.nanos_since_epoch() {
        Some(n) => if n >= 0 {
            n as u64
        } else {
            u64::MAX - (-(n + 1)) as u64
        },
        None => 0,
    }
}

/// The text behind the last slash.
pub open spec fn file_name_of(path: Seq<char>) -> Seq<char>
    decreases path.len(),
{
    if path.len() == 0 || path.last() == '/' {
        Seq::empty()
    } else {
        file_name_of(path.drop_last()).push(path.last())
    }
}

proof fn lemma_file_name(path: Seq<char>, i: int)
    requires
        0 <= i <= path.len(),
        i > 0 ==> path[i - 1] == '/',
        forall|k: int| i <= k < path.len() ==> path[k] != '/',
    ensures
        file_name_of(path) == path.skip(i),
    decreases path.len(),
{
    if path.len() == i {
        assert(path.skip(i) =~= Seq::empty());
    } else {
        let p = path.drop_last();
        assert forall|k: int| i <= k < p.len() implies p[k] != '/' by {
            assert(p[k] == path[k]);
        }
        assert(path[path.len() - 1] != '/');
        lemma_file_name(p, i);
        assert(path.skip(i) =~= p.skip(i).push(path.last()));
    }
}

fn file_name(path: &str) -> (r: String)
    ensures
        r@ == file_name_of(path@),
{
    let cs = chars_of(path);
    let mut i: usize = cs.len();
    while i > 0 && cs[i - 1] != '/'
        invariant
            i <= cs@.len(),
            forall|k: int| i <= k < cs@.len() ==> cs@[k] != '/',
        decreases i,
    {
        i -= 1;
    }
    proof {
        lemma_file_name(cs@, i as int);
        assert(cs@.skip(i as int) =~= cs@.subrange(i as int, cs@.len() as int));
    }
    string_of(&cs, i, cs.len())
}

/// `r` is the record of the event in a run of the mode with the seed.
pub open spec fn record_is(r: LogRecord, e: Event, mode: Seq<char>, seed: u64) -> bool {
    &&& r.time_unix_nano == unix_nanos(stamp_of(e)@)
    &&& r.observed_time_unix_nano == unix_nanos(e.observed@)
    &&& r.severity_number == Some(severity_number_of(name_view(e.severity)) as u32)
    &&& r.severity_text matches Some(s) && s@ == (match e.severity {
        Some(l) => l@,
        None => "INFO"@,
    })
    &&& r.body matches Some(AnyValue { value: Some(any_value::Value::StringValue(b)) }) && b@
        == e.body@
    &&& r.attributes@.len() == 7
    &&& attr_is(r.attributes@[0], "log.file.path"@, e.source_file@)
    &&& attr_is(r.attributes@[1], "log.file.name"@, file_name_of(e.source_file@))
    &&& attr_is(r.attributes@[2], "source.type"@, e.source_type@)
    &&& attr_is(r.attributes@[3], "logpushi.dataset"@, e.source_type@)
    &&& attr_is(r.attributes@[4], "logpushi.mode"@, mode)
    &&& attr_is(r.attributes@[5], "logpushi.seed"@, decimal(seed as int))
    &&& attr_is(
        r.attributes@[6],
        "logpushi.ts_detected"@,
        if e.ts_detected {
            "true"@
        } else {
            "false"@
        },
    )
}

fn log_record(e: &Event, mode: &str, seed: u64) -> (r: LogRecord)
    ensures
        record_is(r, *e, mode@, seed),
{
    let mut seed_text = String::new();
    push_decimal(&mut seed_text, seed);
    assert(seed_text@ =~= decimal(seed as int));
    let mut attributes: Vec<KeyValue> = Vec::new();
    attributes.push(attr("log.file.path", e.source_file.clone()));
    attributes.push(attr("log.file.name", file_name(e.source_file.as_str())));
    attributes.push(attr("source.type", e.source_type.to_owned()));
    attributes.push(attr("logpushi.dataset", e.source_type.to_owned()));
    attributes.push(attr("logpushi.mode", mode.to_owned()));
    attributes.push(attr("logpushi.seed", seed_text));
    let detected = if e.ts_detected {
        "true"
    } else {
        "false"
    };
    attributes.push(attr("logpushi.ts_detected", detected.to_owned()));
    let level = match e.severity {
        Some(l) => l,
        None => "INFO",
    };
    LogRecord {
        time_unix_nano: nanos_of(&e.stamp()),
        observed_time_unix_nano: nanos_of(&e.observed),
        severity_number: Some(severity_number(e.severity)),
        severity_text: Some(level.to_owned()),
        body: Some(AnyValue { value: Some(any_value::Value::StringValue(e.body.clone())) }),
        attributes,
    }
}

/// Map a Logpushi Event to an OTLP LogRecord, in a run whose mode is not said.
pub fn to_log_record(e: &Event, _service_name: &str, _host_default: &str, seed: u64) -> (r:
    LogRecord)
    ensures
        record_is(r, *e, "simulation"@, seed),
{
    log_record(e, "simulation", seed)
}

// ---------------------------------------------------------------------------
// Requests
// ---------------------------------------------------------------------------

/// What an event comes from: its host, which its body names or which is the
/// default, and its source type.
pub open spec fn origin_of(e: Event, host_default: Seq<char>) -> (Seq<char>, Seq<char>) {
    (
        match host_word(e.body@) {
            Some(h) => h,
            None => host_default,
        },
        e.source_type@,
    )
}

/// The origins of events, each once, in the order in which they first occur.
pub open spec fn origins(events: Seq<Event>, host_default: Seq<char>) -> Seq<(Seq<char>, Seq<char>)>
    decreases events.len(),
{
    if events.len() == 0 {
        Seq::empty()
    } else {
        let before = origins(events.drop_last(), host_default);
        let o = origin_of(events.last(), host_default);
        if before.contains(o) {
            before
        } else {
            before.push(o)
        }
    }
}

/// The events of an origin, in their order.
pub open spec fn from_origin(
    events: Seq<Event>,
    host_default: Seq<char>,
    o: (Seq<char>, Seq<char>),
) -> Seq<Event>
    decreases events.len(),
{
    if events.len() == 0 {
        Seq::empty()
    } else {
        let before = from_origin(events.drop_last(), host_default, o);
        if origin_of(events.last(), host_default) == o {
            before.push(events.last())
        } else {
            before
        }
    }
}

/// `l` holds the events of an origin: a resource with the name of the service,
/// the host and the source type, and one scope with the records of the events in
/// their order.
pub open spec fn resource_is(
    l: ResourceLogs,
    events: Seq<Event>,
    service_name: Seq<char>,
    o: (Seq<char>, Seq<char>),
    mode: Seq<char>,
    seed: u64,
) -> bool {
    &&& l.schema_url is None
    &&& l.resource matches Some(res) && {
        &&& res.attributes@.len() == 3
        &&& attr_is(res.attributes@[0], "service.name"@, service_name)
        &&& attr_is(res.attributes@[1], "host.name"@, o.0)
        &&& attr_is(res.attributes@[2], "source.type"@, o.1)
    }
    &&& l.scope_logs@.len() == 1
    &&& l.scope_logs@[0].schema_url is None
    &&& l.scope_logs@[0].log_records@.len() == events.len()
    &&& forall|i: int|
        0 <= i < events.len() ==> record_is(
            #[trigger] l.scope_logs@[0].log_records@[i],
            events[i],
            mode,
            seed,
        )
}

/// `r` is the request for a batch: one resource for each origin of its events.
pub open spec fn request_is(
    r: ExportLogsServiceRequest,
    events: Seq<Event>,
    service_name: Seq<char>,
    host_default: Seq<char>,
    mode: Seq<char>,
    seed: u64,
) -> bool {
    let from = origins(events, host_default);
    &&& r.resource_logs@.len() == from.len()
    &&& forall|k: int|
        0 <= k < from.len() ==> resource_is(
            #[trigger] r.resource_logs@[k],
            from_origin(events, host_default, from[k]),
            service_name,
            from[k],
            mode,
            seed,
        )
}

/// The records that a request holds for the events of these origins.
pub open spec fn records_for(
    events: Seq<Event>,
    host_default: Seq<char>,
    from: Seq<(Seq<char>, Seq<char>)>,
) -> int
    decreases from.len(),
{
    if from.len() == 0 {
        0
    } else {
        records_for(events, host_default, from.drop_last()) + from_origin(
            events,
            host_default,
            from.last(),
        ).len()
    }
}

proof fn lemma_records_of_one_more(
    events: Seq<Event>,
    host_default: Seq<char>,
    from: Seq<(Seq<char>, Seq<char>)>,
)
    requires
        events.len() > 0,
        from.no_duplicates(),
    ensures
        records_for(events, host_default, from) == records_for(
            events.drop_last(),
            host_default,
            from,
        ) + if from.contains(origin_of(events.last(), host_default)) {
            1int
        } else {
            0
        },
    decreases from.len(),
{
    if from.len() > 0 {
        let rest = from.drop_last();
        let o = origin_of(events.last(), host_default);
        assert(rest.no_duplicates());
        lemma_records_of_one_more(events, host_default, rest);
        if from.contains(o) {
            let k = choose|k: int| 0 <= k < from.len() && from[k] == o;
            if k < rest.len() {
                assert(rest[k] == o);
                assert(from.last() != o);
            } else if rest.contains(o) {
                let m = choose|m: int| 0 <= m < rest.len() && rest[m] == o;
                assert(from[m] == from[k]);
            }
        } else {
            assert(from[from.len() - 1] != o);
            if rest.contains(o) {
                let m = choose|m: int| 0 <= m < rest.len() && rest[m] == o;
                assert(from[m] == o);
            }
        }
    }
}

proof fn lemma_no_records(host_default: Seq<char>, from: Seq<(Seq<char>, Seq<char>)>)
    ensures
        records_for(Seq::empty(), host_default, from) == 0,
    decreases from.len(),
{
    if from.len() > 0 {
        lemma_no_records(host_default, from.drop_last());
    }
}

proof fn lemma_absent_origin(
    events: Seq<Event>,
    host_default: Seq<char>,
    o: (Seq<char>, Seq<char>),
)
    requires
        !origins(events, host_default).contains(o),
    ensures
        from_origin(events, host_default, o).len() == 0,
    decreases events.len(),
{
    if events.len() > 0 {
        let before = origins(events.drop_last(), host_default);
        let last = origin_of(events.last(), host_default);
        if before.contains(o) {
            let m = choose|m: int| 0 <= m < before.len() && before[m] == o;
            assert(before.push(last)[m] == o);
        }
        assert(last != o) by {
            if !before.contains(last) {
                assert(before.push(last)[before.len() as int] == last);
            }
        }
        lemma_absent_origin(events.drop_last(), host_default, o);
    }
}

/// A request has one resource for each origin and holds every event of its batch
/// once.
pub proof fn lemma_request_holds_every_event(events: Seq<Event>, host_default: Seq<char>)
    ensures
        origins(events, host_default).no_duplicates(),
        records_for(events, host_default, origins(events, host_default)) == events.len(),
        forall|i: int|
            0 <= i < events.len() ==> origins(events, host_default).contains(
                #[trigger] origin_of(events[i], host_default),
            ),
    decreases events.len(),
{
    if events.len() == 0 {
        assert(events =~= Seq::empty());
        lemma_no_records(host_default, origins(events, host_default));
    } else {
        let head = events.drop_last();
        let before = origins(head, host_default);
        let o = origin_of(events.last(), host_default);
        let all = origins(events, host_default);
        lemma_request_holds_every_event(head, host_default);
        lemma_records_of_one_more(events, host_default, before);
        if !before.contains(o) {
            assert(all.drop_last() =~= before);
            assert(all.last() == o);
            lemma_absent_origin(head, host_default, o);
        }
        assert forall|i: int| 0 <= i < events.len() implies all.contains(
            #[trigger] origin_of(events[i], host_default),
        ) by {
            if i < head.len() {
                assert(head[i] == events[i]);
                let q = origin_of(head[i], host_default);
                assert(before.contains(q));
                let m = choose|m: int| 0 <= m < before.len() && before[m] == q;
                assert(all[m] == q);
            } else if !before.contains(o) {
                assert(all[before.len() as int] == o);
            }
        }
    }
}

/// The host and the source type of an event.
struct Origin {
    host: String,
    source_type: &'static str,
}

impl View for Origin {
    type V = (Seq<char>, Seq<char>);

    closed spec fn view(&self) -> (Seq<char>, Seq<char>) {
        (self.host@, self.source_type@)
    }
}

fn origin(e: &Event, host_default: &str) -> (r: Origin)
    ensures
        r@ == origin_of(*e, host_default@),
{
    let host = match syslog_host(e.body.as_str()) {
        Some(h) => h,
        None => host_default.to_owned(),
    };
    Origin { host, source_type: e.source_type }
}

fn same_origin(a: &Origin, b: &Origin) -> (r: bool)
    ensures
        r == (a@ == b@),
{
    same_str(a.host.as_str(), b.host.as_str()) && same_str(a.source_type, b.source_type)
}

/// What origins are in view.
spec fn views(o: Seq<Origin>) -> Seq<(Seq<char>, Seq<char>)> {
    o.map_values(|o: Origin| o@)
}

fn holds(all: &Vec<Origin>, o: &Origin) -> (r: bool)
    ensures
        r == views(all@).contains(o@),
{
    let mut i: usize = 0;
    while i < all.len()
        invariant
            i <= all@.len(),
            forall|j: int| 0 <= j < i ==> views(all@)[j] != o@,
        decreases all@.len() - i,
    {
        if same_origin(&all[i], o) {
            assert(views(all@)[i as int] == o@);
            return true;
        }
        assert(views(all@)[i as int] != o@);
        i += 1;
    }
    false
}

/// The origins of the events, one for each, and those that differ.
fn all_origins(events: &[Event], host_default: &str) -> (r: (Vec<Origin>, Vec<Origin>))
    ensures
        r.0@.len() == events@.len(),
        forall|i: int|
            0 <= i < events@.len() ==> (#[trigger] r.0@[i])@ == origin_of(
                events@[i],
                host_default@,
            ),
        views(r.1@) == origins(events@, host_default@),
{
    let mut each: Vec<Origin> = Vec::new();
    let mut from: Vec<Origin> = Vec::new();
    let mut i: usize = 0;
    assert(views(from@) =~= origins(events@.take(0), host_default@));
    while i < events.len()
        invariant
            i <= events@.len(),
            each@.len() == i,
            forall|j: int|
                0 <= j < i ==> (#[trigger] each@[j])@ == origin_of(events@[j], host_default@),
            views(from@) == origins(events@.take(i as int), host_default@),
        decreases events@.len() - i,
    {
        assert(events@.take(i + 1).drop_last() =~= events@.take(i as int));
        let o = origin(&events[i], host_default);
        if !holds(&from, &o) {
            let ghost before = from@;
            from.push(origin(&events[i], host_default));
            assert(views(from@) =~= views(before).push(o@));
        }
        each.push(o);
        i += 1;
    }
    assert(events@.take(events@.len() as int) =~= events@);
    (each, from)
}

fn resource_logs(
    events: &[Event],
    each: &Vec<Origin>,
    o: &Origin,
    service_name: &str,
    mode: &str,
    seed: u64,
    Ghost(host_default): Ghost<Seq<char>>,
) -> (r: ResourceLogs)
    requires
        each@.len() == events@.len(),
        forall|i: int|
            0 <= i < events@.len() ==> (#[trigger] each@[i])@ == origin_of(events@[i], host_default),
    ensures
        resource_is(
            r,
            from_origin(events@, host_default, o@),
            service_name@,
            o@,
            mode@,
            seed,
        ),
{
    let mut log_records: Vec<LogRecord> = Vec::new();
    let mut i: usize = 0;
    let ghost mut taken: Seq<Event> = Seq::empty();
    while i < events.len()
        invariant
            i <= events@.len() == each@.len(),
            forall|i: int|
                0 <= i < events@.len() ==> (#[trigger] each@[i])@ == origin_of(
                    events@[i],
                    host_default,
                ),
            taken == from_origin(events@.take(i as int), host_default, o@),
            log_records@.len() == taken.len(),
            forall|j: int|
                0 <= j < taken.len() ==> record_is(
                    #[trigger] log_records@[j],
                    taken[j],
                    mode@,
                    seed,
                ),
        decreases events@.len() - i,
    {
        assert(events@.take(i + 1).drop_last() =~= events@.take(i as int));
        if same_origin(&each[i], o) {
            log_records.push(log_record(&events[i], mode, seed));
            proof {
                taken = taken.push(events@[i as int]);
            }
        }
        i += 1;
    }
    assert(events@.take(events@.len() as int) =~= events@);
    let mut attributes: Vec<KeyValue> = Vec::new();
    attributes.push(attr("service.name", service_name.to_owned()));
    attributes.push(attr("host.name", o.host.clone()));
    attributes.push(attr("source.type", o.source_type.to_owned()));
    let mut scope_logs: Vec<ScopeLogs> = Vec::new();
    scope_logs.push(ScopeLogs { schema_url: None, log_records });
    ResourceLogs { resource: Some(Resource { attributes }), schema_url: None, scope_logs }
}

fn request_of(
    events: &[Event],
    service_name: &str,
    host_default: &str,
    mode: &str,
    seed: u64,
) -> (r: ExportLogsServiceRequest)
    ensures
        request_is(r, events@, service_name@, host_default@, mode@, seed),
{
    let (each, from) = all_origins(events, host_default);
    let mut all: Vec<ResourceLogs> = Vec::new();
    let mut k: usize = 0;
    while k < from.len()
        invariant
            k <= from@.len(),
            all@.len() == k,
            each@.len() == events@.len(),
            forall|i: int|
                0 <= i < events@.len() ==> (#[trigger] each@[i])@ == origin_of(
                    events@[i],
                    host_default@,
                ),
            views(from@) == origins(events@, host_default@),
            forall|j: int|
                0 <= j < k ==> resource_is(
                    #[trigger] all@[j],
                    from_origin(events@, host_default@, origins(events@, host_default@)[j]),
                    service_name@,
                    origins(events@, host_default@)[j],
                    mode@,
                    seed,
                ),
        decreases from@.len() - k,
    {
        assert(views(from@)[k as int] == from@[k as int]@);
        all.push(
            resource_logs(
                events,
                &each,
                &from[k],
                service_name,
                mode,
                seed,
                Ghost(host_default@),
            ),
        );
        k += 1;
    }
    assert(views(from@).len() == from@.len());
    ExportLogsServiceRequest { resource_logs: all }
}

/// Build one ExportLogsServiceRequest, in a run whose mode is not said.
pub fn build_request(events: &[Event], service_name: &str, host_default: &str, seed: u64) -> (r:
    ExportLogsServiceRequest)
    ensures
        request_is(r, events@, service_name@, host_default@, "simulation"@, seed),
{
    request_of(events, service_name, host_default, "simulation", seed)
}

// ---------------------------------------------------------------------------
// Endpoints
// ---------------------------------------------------------------------------

/// `i` is the first position of `pat` in `s`.
pub open spec fn first_occurs_at(s: Seq<char>, pat: Seq<char>, i: int) -> bool {
    occurs_at(s, pat, i) && forall|j: int| 0 <= j < i ==> !occurs_at(s, pat, j)
}

/// A URL with something behind the slash that follows its authority.
pub open spec fn has_path(base: Seq<char>) -> bool {
    exists|i: int, j: int| #[trigger]
        path_at(base, i, j)
}

/// The scheme ends at `i`, and the first slash behind it, `j` characters on, is
/// not the last character.
pub open spec fn path_at(base: Seq<char>, i: int, j: int) -> bool {
    &&& first_occurs_at(base, "://"@, i)
    &&& first_at(base.skip(i + 3), '/', j)
    &&& j + 1 < base.skip(i + 3).len()
}

/// The URL of the logs endpoint: the base without slashes at its end, with the
/// default path unless it has one.
pub open spec fn otel_url(endpoint: Seq<char>) -> Seq<char> {
    let base = trim_end_char(endpoint, '/');
    if has_path(base) {
        base
    } else {
        base + "/v1/logs"@
    }
}

fn find_text(cs: &Vec<char>, pat: &str) -> (r: Option<usize>)
    requires
        pat@.len() > 0,
    ensures
        match r {
            Some(i) => first_occurs_at(cs@, pat@, i as int),
            None => forall|i: int| !occurs_at(cs@, pat@, i),
        },
{
    let p = chars_of(pat);
    let mut i: usize = 0;
    while i < cs.len()
        invariant
            p@ == pat@,
            pat@.len() > 0,
            i <= cs@.len(),
            forall|j: int| 0 <= j < i ==> !occurs_at(cs@, pat@, j),
        decreases cs@.len() - i,
    {
        if stands_at(cs, &p, i) {
            return Some(i);
        }
        i += 1;
    }
    None
}

fn path_follows(base: &Vec<char>) -> (r: bool)
    ensures
        r == has_path(base@),
{
    proof {
        reveal_strlit("://");
    }
    match find_text(base, "://") {
        Some(i) => {
            assert(i + 3 <= base.len());
            let rest = crate::text::copy_range(base, i + 3, base.len());
            assert(rest@ =~= base@.skip(i + 3));
            match find_char(&rest, '/') {
                Some(j) => {
                    proof {
                        if j + 1 < rest@.len() {
                            assert(path_at(base@, i as int, j as int));
                        }
                        assert forall|a: int, b: int| #[trigger]
                            path_at(base@, a, b) implies a == i && b == j by {
                            lemma_first_is_unique(base@, "://"@, a, i as int);
                        }
                    }
                    j + 1 < rest.len()
                },
                None => {
                    assert forall|a: int, b: int| !#[trigger] path_at(base@, a, b) by {
                        if path_at(base@, a, b) {
                            lemma_first_is_unique(base@, "://"@, a, i as int);
                            assert(rest@[b] == '/');
                            assert(rest@.contains('/'));
                        }
                    }
                    false
                },
            }
        },
        None => false,
    }
}

proof fn lemma_first_is_unique(s: Seq<char>, pat: Seq<char>, a: int, b: int)
    requires
        first_occurs_at(s, pat, a),
        first_occurs_at(s, pat, b),
    ensures
        a == b,
{
}

/// Convention: a bare base URL gets the default OTLP/HTTP logs path appended;
/// an explicit full path (anything after the authority) overrides it.
pub fn normalize_otel_url(endpoint: &str) -> (r: Result<String, ConfigError>)
    ensures
        r matches Ok(url) && url@ == otel_url(endpoint@),
{
    let cs = chars_of(endpoint);
    let n: usize = len_without_trailing(&cs, '/');
    let mut url = string_of(&cs, 0, n);
    if !path_follows(&chars_of(url.as_str())) {
        url.append("/v1/logs");
    }
    Ok(url)
}

/// Normalizing a URL that was normalized changes nothing, where it has a scheme.
pub proof fn lemma_otel_url_is_stable(endpoint: Seq<char>, i: int)
    requires
        first_occurs_at(trim_end_char(endpoint, '/'), "://"@, i),
    ensures
        otel_url(otel_url(endpoint)) == otel_url(endpoint),
{
    let base = trim_end_char(endpoint, '/');
    lemma_trimmed(endpoint);
    if has_path(base) {
        lemma_no_trim(base);
    } else {
        let url = base + "/v1/logs"@;
        reveal_strlit("/v1/logs");
        reveal_strlit("://");
        assert(url.last() == 's');
        lemma_no_trim(url);
        assert(first_occurs_at(url, "://"@, i)) by {
            assert(url.subrange(i, i + 3) =~= base.subrange(i, i + 3));
            assert forall|j: int| 0 <= j < i implies !occurs_at(url, "://"@, j) by {
                assert(url.subrange(j, j + 3) =~= base.subrange(j, j + 3));
                assert(!occurs_at(base, "://"@, j));
            }
        }
        let rest = url.skip(i + 3);
        let head = base.skip(i + 3);
        assert(rest =~= head + "/v1/logs"@);
        assert(rest[head.len() as int] == '/');
        let j = lemma_first_slash(rest, head.len() as int);
        assert(path_at(url, i, j));
    }
}

proof fn lemma_first_slash(s: Seq<char>, k: int) -> (j: int)
    requires
        0 <= k < s.len(),
        s[k] == '/',
    ensures
        first_at(s, '/', j),
        j <= k,
    decreases k,
{
    if exists|m: int| 0 <= m < k && s[m] == '/' {
        let m = choose|m: int| 0 <= m < k && s[m] == '/';
        lemma_first_slash(s, m)
    } else {
        k
    }
}

// ---------------------------------------------------------------------------
// Responses
// ---------------------------------------------------------------------------

/// What is sent to an OTLP endpoint, and where.
pub struct OtelTransport {
    pub url: String,
    pub service_name: String,
    pub host_default: String,
    /// The mode of the run.
    pub mode: String,
    /// The seed of the run.
    pub seed: u64,
}

impl OtelTransport {
    /// The transport to an endpoint, in a run whose mode and seed are not said.
    pub fn new(endpoint: &str, service_name: &str, host: &str) -> (r: Result<
        OtelTransport,
        ConfigError,
    >)
        ensures
            r matches Ok(t) && {
                &&& t.url@ == otel_url(endpoint@)
                &&& t.service_name@ == service_name@
                &&& t.host_default@ == default_host_of(host@)
                &&& t.mode@ == "simulation"@
                &&& t.seed == 0
            },
    {
        let url = normalize_otel_url(endpoint)?;
        Ok(
            OtelTransport {
                url,
                service_name: service_name.to_owned(),
                host_default: default_host(host),
                mode: "simulation".to_owned(),
                seed: 0,
            },
        )
    }

    /// The same transport, in a run of the mode.
    pub fn with_mode(self, mode: String) -> (r: OtelTransport)
        ensures
            r == (OtelTransport { mode, ..self }),
    {
        OtelTransport { mode, ..self }
    }

    /// The same transport, in a run with the seed.
    pub fn with_seed(self, seed: u64) -> (r: OtelTransport)
        ensures
            r == (OtelTransport { seed, ..self }),
    {
        OtelTransport { seed, ..self }
    }

    pub fn name(&self) -> (r: &'static str)
        ensures
            r@ == "otel"@,
    {
        "otel"
    }

    /// The request for a batch.
    pub fn request(&self, batch: &[Event]) -> (r: ExportLogsServiceRequest)
        ensures
            request_is(
                r,
                batch@,
                self.service_name@,
                self.host_default@,
                self.mode@,
                self.seed,
            ),
    {
        request_of(
            batch,
            self.service_name.as_str(),
            self.host_default.as_str(),
            self.mode.as_str(),
            self.seed,
        )
    }
}

/// The records that a response rejects; a negative count is none.
pub open spec fn rejected_of(response: Option<ExportLogsServiceResponse>) -> int {
    match response {
        Some(ExportLogsServiceResponse { partial_success: Some(p) }) => match p.rejected_log_records {
            Some(n) if n > 0 => n as int,
            _ => 0,
        },
        _ => 0,
    }
}

/// `r` is the outcome of a batch of `n` events, of `bytes` bytes, that was
/// accepted with some records rejected.
pub open spec fn acceptance_is(r: BatchResult, rejected: int, n: u64, bytes: u64) -> bool {
    result_is(
        r,
        if rejected <= n {
            n - rejected
        } else {
            0
        },
        rejected,
        bytes as int,
        false,
        false,
        None,
        if rejected > 0 {
            Some("OTLP partial success (records rejected)"@)
        } else {
            None
        },
    )
}

/// The outcome of a batch of `n` events, of `bytes` bytes, by the status of the
/// response to it and, where that could be read, the response itself.
pub fn response(
    status: u16,
    retry_after: Option<u64>,
    body: &Option<ExportLogsServiceResponse>,
    n: u64,
    bytes: u64,
) -> (r: BatchResult)
    ensures
        if success_status(status) {
            acceptance_is(r, rejected_of(*body), n, bytes)
        } else {
            refusal_is(r, status, retry_after, n, "OTLP export rejected (HTTP "@, ")"@)
        },
{
    if let Some(r) = refusal(status, retry_after, n, "OTLP export rejected (HTTP ", ")") {
        return r;
    }
    let failed: u64 = match body {
        Some(b) => match &b.partial_success {
            Some(p) => match p.rejected_log_records {
                Some(k) => if k > 0 {
                    k as u64
                } else {
                    0
                },
                None => 0,
            },
            None => 0,
        },
        None => 0,
    };
    let reason = if failed > 0 {
        Some("OTLP partial success (records rejected)".to_owned())
    } else {
        None
    };
    BatchResult {
        succeeded: if failed <= n {
            n - failed
        } else {
            0
        },
        failed,
        bytes,
        retryable: false,
        auth_error: false,
        retry_after: None,
        reason,
    }
}

/// The outcome of a batch that could not be sent.
pub fn network_failure(timed_out: bool, n: u64) -> (r: BatchResult)
    ensures
        result_is(
            r,
            0,
            n as int,
            0,
            true,
            false,
            None,
            Some(
                if timed_out {
                    "request timed out or connection failed"@
                } else {
                    "network error"@
                },
            ),
        ),
{
    BatchResult::none(
        n,
        true,
        if timed_out {
            "request timed out or connection failed"
        } else {
            "network error"
        },
    )
}

} // verus!
