//! Points in time.

use chrono::TimeZone;
use vstd::prelude::*;

verus! {

/// A point in time: whole seconds counted from 1970-01-01T00:00:00Z and the
/// nanoseconds behind them.
#[derive(Debug, Clone, Copy, PartialEq, Eq, PartialOrd, Ord, Hash, Structural)]
pub struct Timestamp {
    pub secs: i64,
    pub nanos: u32,
}

impl Timestamp {
    /// The start of 1970.
    pub fn unix_epoch() -> (t: Self)
        ensures
            t.secs == 0,
            t.nanos == 0,
    {
        Timestamp { secs: 0, nanos: 0 }
    }

    /// Whether `self` is at or before `other`.
    pub open spec fn at_or_before(&self, other: Timestamp) -> bool {
        self.secs < other.secs || (self.secs == other.secs && self.nanos <= other.nanos)
    }

    /// Whether `self` is at or before `other`.
    pub fn is_at_or_before(&self, other: &Timestamp) -> (b: bool)
        ensures
            b == self.at_or_before(*other),
    {
        self.secs < other.secs || (self.secs == other.secs && self.nanos <= other.nanos)
    }

    /// Microseconds counted from the start of 1970, rounded down.
    pub open spec fn micros_since_epoch(&self) -> int {
        self.secs * 1_000_000 + self.nanos as int / 1000
    }

    /// Milliseconds counted from the start of 1970, rounded down.
    pub open spec fn millis_since_epoch(&self) -> int {
        self.secs * 1000 + self.nanos as int / 1_000_000
    }

    /// Microseconds counted from the start of 1970, rounded down.
    pub fn timestamp_micros(&self) -> (m: i64)
        requires
            -8_000_000_000_000 <= self.secs <= 8_000_000_000_000,
        ensures
            m == self.micros_since_epoch(),
    {
        self.secs * 1_000_000 + (self.nanos / 1000) as i64
    }
}

/// `chrono`'s `Utc.timestamp_opt`: the point in time `nanos` nanoseconds
/// behind second `secs`. There is one for every second within 7.8 * 10^12 of
/// 1970 (some 247000 years) and fewer than 10^9 nanoseconds, and it has these
/// seconds and nanoseconds. Nothing is said of which seconds further off have
/// one.
#[verifier::external_body]
pub(crate) fn utc_timestamp(secs: i64, nanos: u32) -> (t: Option<Timestamp>)
    ensures
        match t {
            Some(t) => t.secs == secs && t.nanos == nanos,
            None => secs < -7_800_000_000_000 || secs > 7_800_000_000_000 || nanos
                >= 1_000_000_000,
        },
{
    chrono::Utc.timestamp_opt(secs, nanos).single().map(
        |dt| Timestamp { secs: dt.timestamp(), nanos: dt.timestamp_subsec_nanos() },
    )
}

/// The point in time that an ISO 8601 / RFC 3339 text names, if it is one.
pub uninterp spec fn rfc3339(text: Seq<char>) -> Option<Timestamp>;

/// `chrono::DateTime::parse_from_rfc3339`, moved to UTC: the point in time
/// that a text names. Nothing is said of which texts name one.
#[verifier::external_body]
pub(crate) fn parse_rfc3339(text: &str) -> (t: Option<Timestamp>)
    ensures
        t == rfc3339(text@),
{
    chrono::DateTime::parse_from_rfc3339(text).ok().map(
        |dt| Timestamp { secs: dt.timestamp(), nanos: dt.timestamp_subsec_nanos() },
    )
}

/// The point in time of a one-based day count and a count of milliseconds of
/// that day. A negative count goes back by its whole seconds; its remainder
/// counts forward.
pub open spec fn day_instant(day: int, ms: int) -> Timestamp {
    let magnitude = if ms < 0 {
        -ms
    } else {
        ms
    };
    let whole = if ms < 0 {
        -(magnitude / 1000)
    } else {
        magnitude / 1000
    };
    Timestamp {
        secs: ((day - 1) * 86_400 + whole) as i64,
        nanos: ((magnitude % 1000) * 1_000_000) as u32,
    }
}

/// See [`day_instant`]. Day one is 1970-01-01.
pub fn collection_instant(day: i32, ms: i64) -> (t: Option<Timestamp>)
    requires
        -0x8000 <= day <= 0xFFFF,
        -0x1_0000_0000 <= ms <= 0x1_0000_0000,
    ensures
        t == Some(day_instant(day as int, ms as int)),
{
    let magnitude: i64 = if ms < 0 {
        -ms
    } else {
        ms
    };
    let whole: i64 = if ms < 0 {
        -(magnitude / 1000)
    } else {
        magnitude / 1000
    };
    let nanos: u32 = (magnitude % 1000) as u32 * 1_000_000;
    utc_timestamp((day as i64 - 1) * 86_400 + whole, nanos)
}

/// For a count that is not negative, the point in time lies that many
/// milliseconds behind midnight of the day, day one being 1970-01-01.
pub proof fn day_instant_counts_milliseconds(day: int, ms: int)
    requires
        -0x8000 <= day <= 0xFFFF,
        0 <= ms <= 0xFFFF_FFFF,
    ensures
        day_instant(day, ms).millis_since_epoch() == (day - 1) * 86_400_000 + ms,
{
}

/// For a negative count, the point in time lies as many whole seconds before
/// midnight of the day as the count holds, and the milliseconds that remain
/// behind that.
pub proof fn day_instant_goes_back_by_whole_seconds(day: int, ms: int)
    requires
        -0x8000 <= day <= 0xFFFF,
        -0x8000_0000 <= ms < 0,
    ensures
        day_instant(day, ms).millis_since_epoch() - (day - 1) * 86_400_000 == ms + 2 * (-ms
            % 1000),
{
}

/// Points in time are ordered by the nanoseconds that lie behind 1970.
pub proof fn order_is_by_nanoseconds(a: Timestamp, b: Timestamp)
    requires
        a.nanos < 1_000_000_000,
        b.nanos < 1_000_000_000,
    ensures
        a.at_or_before(b) <==> a.secs * 1_000_000_000 + a.nanos <= b.secs * 1_000_000_000 + b.nanos,
{
}

/// Milliseconds and microseconds are counted down to the last whole one.
pub proof fn counts_are_rounded_down(t: Timestamp)
    requires
        t.nanos < 1_000_000_000,
    ensures
        ({
            let n = t.secs * 1_000_000_000 + t.nanos;
            &&& t.millis_since_epoch() * 1_000_000 <= n < (t.millis_since_epoch() + 1) * 1_000_000
            &&& t.micros_since_epoch() * 1000 <= n < (t.micros_since_epoch() + 1) * 1000
        }),
{
}

} // verus!
