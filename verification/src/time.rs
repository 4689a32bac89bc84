//! Instants as the bot reads them: whole seconds since the Unix epoch plus the
//! nanoseconds past that second (a value of 1_000_000_000 or more marks a leap second).

use vstd::prelude::*;

verus! {

/// Nanoseconds in one second.
pub const NANOS_PER_SEC: u32 = 1_000_000_000;

/// Seconds in one day.
pub const SECS_PER_DAY: i64 = 86_400;

/// An instant in UTC: `secs` whole non-leap seconds since 1970-01-01T00:00:00Z and
/// `nanos` nanoseconds past them; `nanos >= NANOS_PER_SEC` stands for a leap second.
#[derive(Clone, Copy, Debug, PartialEq, Eq, Structural)]
pub struct Timestamp {
    pub secs: i64,
    pub nanos: u32,
}

/// Strict order of instants: first by whole seconds, then by nanoseconds.
pub open spec fn ts_lt(a: Timestamp, b: Timestamp) -> bool {
    a.secs < b.secs || (a.secs == b.secs && a.nanos < b.nanos)
}

/// Non-strict order of instants.
pub open spec fn ts_le(a: Timestamp, b: Timestamp) -> bool {
    !ts_lt(b, a)
}

/// Seconds since midnight of the instant's day.
pub open spec fn time_of_day(t: Timestamp) -> int {
    t.secs as int % (SECS_PER_DAY as int)
}

/// Integer division rounded toward zero.
pub open spec fn div_toward_zero(a: int, b: int) -> int {
    if a >= 0 {
        a / b
    } else {
        -((-a) / b)
    }
}

/// Nanoseconds from `earlier` to `later`. A leap second on one side is counted as a
/// second of its own only when the other instant lies earlier in its day.
pub open spec fn nanos_between(later: Timestamp, earlier: Timestamp) -> int {
    let adjust: int = if time_of_day(later) > time_of_day(earlier) && earlier.nanos
        >= NANOS_PER_SEC {
        1
    } else if time_of_day(later) < time_of_day(earlier) && later.nanos >= NANOS_PER_SEC {
        -1
    } else {
        0
    };
    (later.secs - earlier.secs + adjust) * (NANOS_PER_SEC as int) + later.nanos - earlier.nanos
}

/// Whole seconds from `earlier` to `later`, rounded toward zero (negative when `later`
/// lies before `earlier`).
pub open spec fn seconds_between(later: Timestamp, earlier: Timestamp) -> int {
    div_toward_zero(nanos_between(later, earlier), NANOS_PER_SEC as int)
}

impl Timestamp {
    fn time_of_day_secs(secs: i64) -> (r: i64)
        ensures
            r == secs as int % (SECS_PER_DAY as int),
    {
        match secs.checked_rem_euclid(SECS_PER_DAY) {
            Some(r) => r,
            None => 0,
        }
    }

    /// `self` lies strictly before `other`.
    pub fn is_before(&self, other: &Timestamp) -> (r: bool)
        ensures
            r == ts_lt(*self, *other),
    {
        self.secs < other.secs || (self.secs == other.secs && self.nanos < other.nanos)
    }

    /// Whole seconds from `earlier` to `self`, rounded toward zero.
    pub fn whole_seconds_since(&self, earlier: &Timestamp) -> (r: i128)
        ensures
            r == seconds_between(*self, *earlier),
    {
        let tod_later: i64 = Self::time_of_day_secs(self.secs);
        let tod_earlier: i64 = Self::time_of_day_secs(earlier.secs);
        let adjust: i128 = if tod_later > tod_earlier && earlier.nanos >= NANOS_PER_SEC {
            1
        } else if tod_later < tod_earlier && self.nanos >= NANOS_PER_SEC {
            -1
        } else {
            0
        };
        let whole: i128 = self.secs as i128 - earlier.secs as i128 + adjust;
        assert(-0x1_0000_0000_0000_0001 <= whole <= 0x1_0000_0000_0000_0001);
        assert(-0x1_0000_0000_0000_0001 * 1_000_000_000 <= whole * 1_000_000_000
            <= 0x1_0000_0000_0000_0001 * 1_000_000_000) by (nonlinear_arith)
            requires
                -0x1_0000_0000_0000_0001 <= whole <= 0x1_0000_0000_0000_0001,
        ;
        let total: i128 = whole * 1_000_000_000 + self.nanos as i128 - earlier.nanos as i128;
        if total >= 0 {
            total / 1_000_000_000
        } else {
            -((-total) / 1_000_000_000)
        }
    }
}

/// The UTC instant, as (whole seconds since the epoch, nanoseconds past them), that
/// `chrono` reads from an RFC 3339 text, or `None` where it rejects the text.
pub uninterp spec fn rfc3339_utc_instant(text: Seq<char>) -> Option<(i64, u32)>;

/// The instant that an optional RFC 3339 text denotes, if it is present and valid.
pub open spec fn instant_of(text: Option<Seq<char>>) -> Option<Timestamp> {
    match text {
        Some(t) => match rfc3339_utc_instant(t) {
            Some((secs, nanos)) => Some(Timestamp { secs, nanos }),
            None => None,
        },
        None => None,
    }
}

/// Calls `chrono::DateTime::parse_from_rfc3339` and converts the result to UTC; claims
/// that the result is the named function `rfc3339_utc_instant` of the text, read through
/// `DateTime::timestamp` and `DateTime::timestamp_subsec_nanos`.
#[verifier::external_body]
pub(crate) fn parse_datetime(text: &str) -> (r: Option<Timestamp>)
    ensures
        match rfc3339_utc_instant(text@) {
            Some((secs, nanos)) => r == Some((Timestamp { secs, nanos })),
            None => r is None,
        },
{
    match chrono::DateTime::parse_from_rfc3339(text) {
        Ok(dt) => {
            let utc = dt.with_timezone(&chrono::Utc);
            Some(Timestamp { secs: utc.timestamp(), nanos: utc.timestamp_subsec_nanos() })
        },
        Err(_) => None,
    }
}

/// Reads the system clock through `std::time::SystemTime::now` and converts it with
/// chrono's `From<SystemTime> for DateTime<Utc>`, which handles clocks before the epoch;
/// claims only that the instant is not a leap second. (The conversion panics only for a
/// clock outside chrono's range of dates, about 262,000 years around year 0.)
#[verifier::external_body]
pub(crate) fn clock_now() -> (t: Timestamp)
    ensures
        t.nanos < NANOS_PER_SEC,
{
    let now = chrono::DateTime::<chrono::Utc>::from(std::time::SystemTime::now());
    Timestamp { secs: now.timestamp(), nanos: now.timestamp_subsec_nanos() }
}

} // verus!
