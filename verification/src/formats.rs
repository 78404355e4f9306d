//! What a timestamp in a log line can look like: the formats, the details that
//! a match keeps for rendering, and the moment that it names.

use vstd::prelude::*;

use crate::clock::valid_offset;

verus! {

/// The timestamp formats.
#[derive(Debug, Clone, Copy, PartialEq, Eq, Structural)]
pub enum DetectedFormat {
    Iso,
    ApacheCtf,
    ApacheClf,
    Epoch,
    SyslogNoYear,
    HealthApp,
    Android,
    Proxifier,
}

impl DetectedFormat {
    pub open spec fn label(self) -> Seq<char> {
        match self {
            DetectedFormat::Iso => "iso8601"@,
            DetectedFormat::ApacheCtf => "apache-ctf"@,
            DetectedFormat::ApacheClf => "apache-clf"@,
            DetectedFormat::Epoch => "epoch"@,
            DetectedFormat::SyslogNoYear => "syslog"@,
            DetectedFormat::HealthApp => "health-app"@,
            DetectedFormat::Android => "android"@,
            DetectedFormat::Proxifier => "proxifier"@,
        }
    }

    pub fn name(&self) -> (r: &'static str)
        ensures
            r@ == self.label(),
    {
        match self {
            DetectedFormat::Iso => "iso8601",
            DetectedFormat::ApacheCtf => "apache-ctf",
            DetectedFormat::ApacheClf => "apache-clf",
            DetectedFormat::Epoch => "epoch",
            DetectedFormat::SyslogNoYear => "syslog",
            DetectedFormat::HealthApp => "health-app",
            DetectedFormat::Android => "android",
            DetectedFormat::Proxifier => "proxifier",
        }
    }
}

/// How an offset from UTC is written.
#[derive(Debug, Clone, Copy, PartialEq, Eq, Structural)]
pub enum ZoneStyle {
    /// `Z`
    UpperZ,
    /// `z`
    LowerZ,
    /// `+hhmm`, or `+hh:mm` with a colon. `minus` is the sign in front of a
    /// zero offset.
    Digits { minus: bool, colon: bool },
}

/// An offset from UTC and the way it is written.
#[derive(Debug, Clone, Copy, PartialEq, Eq, Structural)]
pub struct Zone {
    offset: i32,
    style: ZoneStyle,
}

impl Zone {
    #[verifier::type_invariant]
    closed spec fn inv(self) -> bool {
        valid_offset(self.offset as int)
    }

    /// Seconds east of UTC.
    pub closed spec fn offset_of(self) -> int {
        self.offset as int
    }

    pub closed spec fn style_of(self) -> ZoneStyle {
        self.style
    }

    /// The zone with the offset and the style.
    pub closed spec fn of(offset: int, style: ZoneStyle) -> Zone {
        Zone { offset: offset as i32, style }
    }

    /// A zone has the offset and the style that it was made of.
    pub broadcast proof fn lemma_of(offset: int, style: ZoneStyle)
        requires
            valid_offset(offset),
        ensures
            (#[trigger] Zone::of(offset, style)).offset_of() == offset,
            Zone::of(offset, style).style_of() == style,
    {
    }

    /// A zone is determined by its offset and its style.
    pub proof fn lemma_parts(self)
        ensures
            Zone::of(self.offset_of(), self.style_of()) == self,
    {
    }

    /// The zone `offset` seconds east of UTC; `None` when that is a day or more.
    pub fn new(offset: i32, style: ZoneStyle) -> (r: Option<Zone>)
        ensures
            r is Some <==> valid_offset(offset as int),
            r matches Some(z) ==> z == Zone::of(offset as int, style),
            r matches Some(z) ==> z.offset_of() == offset && z.style_of() == style,
    {
        if -86400 < offset && offset < 86400 {
            Some(Zone { offset, style })
        } else {
            None
        }
    }

    pub fn offset(&self) -> (r: i32)
        ensures
            r == self.offset_of(),
            valid_offset(r as int),
    {
        proof {
            use_type_invariant(self);
        }
        self.offset
    }

    pub fn style(&self) -> (r: ZoneStyle)
        ensures
            r == self.style_of(),
    {
        self.style
    }
}

/// Rendering parameters captured at detection time.
#[allow(inconsistent_fields)]
#[derive(Debug, Clone, Copy, PartialEq, Eq, Structural)]
pub enum Aux {
    Unit,
    /// The separator between date and time, the number of fraction digits (0 =
    /// none), the mark in front of them, and the zone (`None` = local time).
    Iso { sep: char, frac: u8, mark: char, tz: Option<Zone> },
    /// CLF carries its own numeric offset for rendering.
    Clf { tz: Zone },
}

/// The moment that a timestamp names, as far as its text alone says.
#[derive(Debug, Clone, Copy, PartialEq, Eq, Structural)]
pub enum Moment {
    /// Seconds and nanoseconds since the epoch.
    Exact { secs: i64, nanos: u32 },
    /// The reading of a clock whose offset from UTC is not given, as seconds
    /// and nanoseconds since that clock showed the epoch.
    Zoneless { secs: i64, nanos: u32 },
    /// The reading of a local clock without the year: month, day, seconds since
    /// midnight and nanoseconds.
    Yearless { month: u32, day: u32, tod: u32, nanos: u32 },
}

} // verus!
