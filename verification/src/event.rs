//! Event model: transport-independent representation of a log event.

use vstd::prelude::*;

use crate::clock::UtcTime;
use crate::text::{chars_of, contains, lower, lower_chars, occurs_in};
use crate::timestamp::{host_word, syslog_host};

verus! {

/// Raw event straight from disk.
#[derive(Debug, Clone)]
pub struct RawEvent {
    /// Original line content, verbatim.
    pub line: String,
    /// Path as first seen by discovery entry, relative to the log dir.
    pub source_file: String,
    /// Dataset family (e.g. "linux-syslog", "apache").
    pub source_type: &'static str,
    /// 1-based line number within the source file.
    pub line_no: u64,
}

/// Normalized event consumed by the batcher and transports.
#[derive(Debug, Clone)]
pub struct Event {
    pub body: String,
    /// Event timestamp in synthetic-today mode, where one was rewritten; None
    /// otherwise.
    pub timestamp: Option<UtcTime>,
    /// Wall time when Logpushi generated the event.
    pub observed: UtcTime,
    /// Best-effort severity (log4j level, syslog token); None when undetected.
    pub severity: Option<&'static str>,
    pub source_file: String,
    pub source_type: &'static str,
    /// Timestamp confidently detected in the body.
    pub ts_detected: bool,
    pub ts_year_inferred: bool,
    pub line_no: u64,
}

/// The time that a transport stamps on the event: its timestamp, or else the
/// time when it was generated.
pub open spec fn stamp_of(e: Event) -> UtcTime {
    match e.timestamp {
        Some(t) => t,
        None => e.observed,
    }
}

impl Event {
    /// Extract a plausible host token from a syslog-style line
    /// (`Mon DD HH:MM:SS host ...`); empty string otherwise.
    pub fn extracted_host(&self) -> (r: String)
        ensures
            r@ == (match host_word(self.body@) {
                Some(h) => h,
                None => Seq::<char>::empty(),
            }),
    {
        match syslog_host(self.body.as_str()) {
            Some(h) => h,
            None => String::new(),
        }
    }

    /// The event's timestamp, or else the time when it was generated.
    pub fn stamp(&self) -> (r: UtcTime)
        ensures
            r == stamp_of(*self),
    {
        match self.timestamp {
            Some(t) => t,
            None => self.observed,
        }
    }
}

/// The dataset family that a path in lower case names.
pub open spec fn family_of(hay: Seq<char>) -> Seq<char> {
    if contains(hay, "apache"@) {
        "apache"@
    } else if contains(hay, "android"@) {
        "android"@
    } else if contains(hay, "bgl"@) {
        "bgl"@
    } else if contains(hay, "hadoop"@) || contains(hay, "yarn"@) {
        "hadoop"@
    } else if contains(hay, "hpc"@) {
        "hpc"@
    } else if contains(hay, "openstack"@) {
        "openstack"@
    } else if contains(hay, "proxifier"@) {
        "proxifier"@
    } else if contains(hay, "ssh"@) {
        "ssh-syslog"@
    } else if contains(hay, "zookeeper"@) {
        "zookeeper"@
    } else if contains(hay, "healthapp"@) {
        "health-app"@
    } else if contains(hay, "linux"@) {
        "linux-syslog"@
    } else if contains(hay, "mac"@) {
        "mac-syslog"@
    } else {
        "generic"@
    }
}

/// Map a source path to a dataset-family name (HEC `sourcetype` /
/// OTel `source.type` attribute).
pub fn dataset_family(rel_path: &str) -> (r: &'static str)
    ensures
        r@ == family_of(lower(rel_path@)),
{
    let hay = lower_chars(&chars_of(rel_path));
    if occurs_in(&hay, "apache") {
        "apache"
    } else if occurs_in(&hay, "android") {
        "android"
    } else if occurs_in(&hay, "bgl") {
        "bgl"
    } else if occurs_in(&hay, "hadoop") || occurs_in(&hay, "yarn") {
        "hadoop"
    } else if occurs_in(&hay, "hpc") {
        "hpc"
    } else if occurs_in(&hay, "openstack") {
        "openstack"
    } else if occurs_in(&hay, "proxifier") {
        "proxifier"
    } else if occurs_in(&hay, "ssh") {
        "ssh-syslog"
    } else if occurs_in(&hay, "zookeeper") {
        "zookeeper"
    } else if occurs_in(&hay, "healthapp") {
        "health-app"
    } else if occurs_in(&hay, "linux") {
        "linux-syslog"
    } else if occurs_in(&hay, "mac") {
        "mac-syslog"
    } else {
        "generic"
    }
}

/// The severity that a line names: the first of the patterns that occurs in it
/// decides.
pub open spec fn severity_of(line: Seq<char>) -> Option<Seq<char>> {
    if contains(line, "FATAL"@) {
        Some("FATAL"@)
    } else if contains(line, "ERROR"@) || contains(line, "ERR:"@) || contains(line, "error"@) {
        Some("ERROR"@)
    } else if contains(line, "WARN"@) || contains(line, "WRN"@) {
        Some("WARN"@)
    } else if contains(line, "NOTICE"@) {
        Some("NOTICE"@)
    } else if contains(line, "CRITICAL"@) {
        Some("CRITICAL"@)
    } else if contains(line, "INFO"@) {
        Some("INFO"@)
    } else if contains(line, "DEBUG"@) {
        Some("DEBUG"@)
    } else if contains(line, "TRACE"@) {
        Some("TRACE"@)
    } else if contains(line, "VERBOSE"@) {
        Some("VERBOSE"@)
    } else {
        None
    }
}

/// The text of an optional name.
pub open spec fn name_view(n: Option<&'static str>) -> Option<Seq<char>> {
    match n {
        Some(s) => Some(s@),
        None => None,
    }
}

/// Best-effort severity detection. Returns a normalized level keyword or None.
pub fn detect_severity(line: &str) -> (r: Option<&'static str>)
    ensures
        name_view(r) == severity_of(line@),
{
    let cs = chars_of(line);
    if occurs_in(&cs, "FATAL") {
        Some("FATAL")
    } else if occurs_in(&cs, "ERROR") || occurs_in(&cs, "ERR:") || occurs_in(&cs, "error") {
        Some("ERROR")
    } else if occurs_in(&cs, "WARN") || occurs_in(&cs, "WRN") {
        Some("WARN")
    } else if occurs_in(&cs, "NOTICE") {
        Some("NOTICE")
    } else if occurs_in(&cs, "CRITICAL") {
        Some("CRITICAL")
    } else if occurs_in(&cs, "INFO") {
        Some("INFO")
    } else if occurs_in(&cs, "DEBUG") {
        Some("DEBUG")
    } else if occurs_in(&cs, "TRACE") {
        Some("TRACE")
    } else if occurs_in(&cs, "VERBOSE") {
        Some("VERBOSE")
    } else {
        None
    }
}

} // verus!
