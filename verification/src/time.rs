//! Points in time, and their texts in a time zone.

use vstd::prelude::*;

use crate::hls::{is_plain, option_text, Span};

verus! {

/// Nanoseconds in a second.
pub const SECOND: i128 = 1_000_000_000;

/// Nanoseconds in a millisecond.
pub const MILLISECOND: i128 = 1_000_000;

/// The first second of the years that a date can have.
pub const FIRST_SECOND: i64 = -8_334_601_228_800;

/// The last second of the years that a date can have.
pub const LAST_SECOND: i64 = 8_210_266_876_799;

/// Seconds in a day: no time zone is further from UTC.
pub const DAY: i64 = 86_400;

/// No point in time that is read, from a clock or a text, lies further from
/// the Unix epoch than this many nanoseconds.
pub const FAR: i128 = 10_000_000_000_000_000_000_000_000_000;

/// Whether a time zone can be so many seconds east of UTC.
pub open spec fn is_zone(zone: i32) -> bool {
    -DAY < zone < DAY
}

/// A point in time, in nanoseconds since the Unix epoch.
#[derive(Clone, Copy, Debug, PartialEq, Eq, PartialOrd, Ord, Hash, Structural)]
pub struct Timestamp {
    pub nanos: i128,
}

/// The nanoseconds of a length of time.
pub open spec fn span_nanos(span: Span) -> int {
    span.secs * SECOND + span.nanos
}

pub fn to_nanos(span: Span) -> (r: i128)
    ensures
        r == span_nanos(span),
{
    span.secs as i128 * SECOND + span.nanos as i128
}

/// The point in time that chrono reads from a date and time text, as seconds
/// since the Unix epoch and nanoseconds; `None` for a text that it rejects.
pub uninterp spec fn read_time(text: Seq<char>) -> Option<(i64, u32)>;

/// The RFC 3339 text, to the millisecond, of the point in time `secs` and
/// `nanos` after the Unix epoch, at `offset` seconds east of UTC.
pub uninterp spec fn millis_text(secs: i64, nanos: u32, offset: i32) -> Seq<char>;

/// The RFC 3339 text, with as many digits as the fraction of a second needs.
pub uninterp spec fn full_text(secs: i64, nanos: u32, offset: i32) -> Seq<char>;

/// `chrono::Local::now`: what the machine's clock shows.
#[verifier::external_body]
fn clock() -> (r: (i64, u32)) {
    let now = chrono::Local::now();
    (now.timestamp(), now.timestamp_subsec_nanos())
}

/// `str::parse` into chrono's `DateTime<FixedOffset>`.
#[verifier::external_body]
fn parse_time(text: &str) -> (r: Option<(i64, u32)>)
    ensures
        r == read_time(text@),
{
    let time = text.parse::<chrono::DateTime<chrono::FixedOffset>>().ok()?;
    Some((time.timestamp(), time.timestamp_subsec_nanos()))
}

/// chrono's `Local`: how many seconds the machine's time zone is east of UTC
/// at a point in time. Which zone that is, is not known; no `FixedOffset` is a
/// day or more.
#[verifier::external_body]
fn local_offset(secs: i64) -> (r: i32)
    requires
        FIRST_SECOND + DAY <= secs <= LAST_SECOND - DAY,
    ensures
        is_zone(r),
{
    let time = chrono::DateTime::from_timestamp(secs, 0).unwrap();
    time.with_timezone(&chrono::Local).offset().local_minus_utc()
}

/// `DateTime::to_rfc3339_opts` to the millisecond, with `Z` for UTC. The text
/// is made of digits, letters, signs, colons and a point.
#[verifier::external_body]
fn print_millis(secs: i64, nanos: u32, offset: i32) -> (r: String)
    requires
        FIRST_SECOND + DAY <= secs <= LAST_SECOND - DAY,
        nanos < 1_000_000_000,
        is_zone(offset),
    ensures
        r@ == millis_text(secs, nanos, offset),
        is_plain(r@),
{
    let time = chrono::DateTime::from_timestamp(secs, nanos).unwrap();
    let zone = chrono::FixedOffset::east_opt(offset).unwrap();
    time.with_timezone(&zone).to_rfc3339_opts(chrono::SecondsFormat::Millis, true)
}

/// `DateTime::to_rfc3339`.
#[verifier::external_body]
fn print_full(secs: i64, nanos: u32, offset: i32) -> (r: String)
    requires
        FIRST_SECOND + DAY <= secs <= LAST_SECOND - DAY,
        nanos < 1_000_000_000,
        is_zone(offset),
    ensures
        r@ == full_text(secs, nanos, offset),
{
    let time = chrono::DateTime::from_timestamp(secs, nanos).unwrap();
    time.with_timezone(&chrono::FixedOffset::east_opt(offset).unwrap()).to_rfc3339()
}

impl Timestamp {
    /// Within the range of what is read from a clock or a text.
    pub open spec fn is_near(self) -> bool {
        -FAR <= self.nanos <= FAR
    }

    pub open spec fn spec_from_parts(secs: i64, nanos: u32) -> Timestamp {
        Timestamp { nanos: (secs * SECOND + nanos) as i128 }
    }

    pub fn from_parts(secs: i64, nanos: u32) -> (r: Timestamp)
        ensures
            r == Timestamp::spec_from_parts(secs, nanos),
            r.nanos == secs * SECOND + nanos,
            r.is_near(),
    {
        Timestamp { nanos: secs as i128 * SECOND + nanos as i128 }
    }

    /// The whole seconds of this point in time, rounded down.
    pub open spec fn secs(self) -> int {
        self.nanos as int / SECOND as int
    }

    /// What is left over the whole seconds.
    pub open spec fn subsec(self) -> int {
        self.nanos as int % SECOND as int
    }

    /// Whether a date and time can be printed for this point, in any zone.
    pub open spec fn has_text(self) -> bool {
        FIRST_SECOND + DAY <= self.secs() <= LAST_SECOND - DAY
    }

    /// The date and time text of this point, to the millisecond, in a zone
    /// `zone` seconds east of UTC; `None` beyond the years that a date can
    /// have.
    pub open spec fn millis_text(self, zone: i32) -> Option<Seq<char>> {
        if self.has_text() {
            Some(millis_text(self.secs() as i64, self.subsec() as u32, zone))
        } else {
            None
        }
    }

    /// The full date and time text of this point.
    pub open spec fn full_text(self, zone: i32) -> Option<Seq<char>> {
        if self.has_text() {
            Some(full_text(self.secs() as i64, self.subsec() as u32, zone))
        } else {
            None
        }
    }

    /// The present, by the machine's clock.
    pub fn now() -> (r: Timestamp)
        ensures
            r.is_near(),
    {
        let (secs, nanos) = clock();
        Timestamp::from_parts(secs, nanos)
    }

    /// The point in time that a date and time text names.
    pub open spec fn spec_parse(text: Seq<char>) -> Option<Timestamp> {
        match read_time(text) {
            Some((secs, nanos)) => Some(Timestamp::spec_from_parts(secs, nanos)),
            None => None,
        }
    }

    pub fn parse(text: &str) -> (r: Option<Timestamp>)
        ensures
            r == Timestamp::spec_parse(text@),
            r matches Some(t) ==> t.is_near(),
    {
        match parse_time(text) {
            Some((secs, nanos)) => Some(Timestamp::from_parts(secs, nanos)),
            None => None,
        }
    }

    fn split(self) -> (r: Option<(i64, u32)>)
        ensures
            match r {
                Some((secs, nanos)) => self.has_text() && secs == self.secs() && nanos
                    == self.subsec(),
                None => !self.has_text(),
            },
    {
        let first = (FIRST_SECOND + DAY) as i128 * SECOND;
        let end = (LAST_SECOND - DAY + 1) as i128 * SECOND;
        if self.nanos < first || self.nanos >= end {
            return None;
        }
        // Counted from the first second, so that nothing is negative.
        let since = self.nanos - first;
        let secs = since / SECOND;
        let nanos = since % SECOND;
        Some(((secs + (FIRST_SECOND + DAY) as i128) as i64, nanos as u32))
    }

    /// The machine's time zone at this point in time, in seconds east of UTC.
    /// Beyond the years that a date can have there is none: UTC stands for it.
    pub fn local_zone(self) -> (r: i32)
        ensures
            is_zone(r),
            !self.has_text() ==> r == 0,
    {
        match self.split() {
            Some((secs, _)) => local_offset(secs),
            None => 0,
        }
    }

    /// This point in time as a date and time text, to the millisecond.
    pub fn to_millis_text(self, zone: i32) -> (r: Option<String>)
        requires
            is_zone(zone),
        ensures
            option_text(r) == self.millis_text(zone),
            r matches Some(text) ==> is_plain(text@),
    {
        match self.split() {
            Some((secs, nanos)) => Some(print_millis(secs, nanos, zone)),
            None => None,
        }
    }

    /// This point in time as a full date and time text.
    pub fn to_full_text(self, zone: i32) -> (r: Option<String>)
        requires
            is_zone(zone),
        ensures
            option_text(r) == self.full_text(zone),
    {
        match self.split() {
            Some((secs, nanos)) => Some(print_full(secs, nanos, zone)),
            None => None,
        }
    }

    /// `DateTime::from_timestamp_millis`: `None` beyond the years that a date
    /// can have.
    pub fn from_millis(millis: i64) -> (r: Option<Timestamp>)
        ensures
            r == (if FIRST_SECOND * 1000 <= millis < (LAST_SECOND + 1) * 1000 {
                Some(Timestamp { nanos: (millis * MILLISECOND) as i128 })
            } else {
                None
            }),
            r matches Some(t) ==> t.is_near(),
    {
        if FIRST_SECOND * 1000 <= millis && millis < (LAST_SECOND + 1) * 1000 {
            Some(Timestamp { nanos: millis as i128 * MILLISECOND })
        } else {
            None
        }
    }

    /// The whole milliseconds of this point in time, rounded down.
    pub open spec fn millis(self) -> int {
        self.nanos as int / MILLISECOND as int
    }

    /// This point in time `seconds` later.
    pub fn plus_seconds(self, seconds: u64) -> (r: Timestamp)
        requires
            self.is_near(),
        ensures
            r.nanos == self.nanos + seconds * SECOND,
    {
        Timestamp { nanos: self.nanos + seconds as i128 * SECOND }
    }
}

} // verus!
