//! The trusted boundary to the `time` crate: conversions between Unix
//! timestamps and calendar fields, and the reading of the current time.
//! Everything else in the crate is verified against the contracts stated
//! here.

use vstd::prelude::*;

use crate::calendar::valid_date_gregorian;
use crate::calendar::valid_hms;
use crate::calendar::unix_of;
use crate::calendar::MAX_UNIX_SECONDS;
use crate::calendar::MIN_UNIX_SECONDS;

verus! {

/// Calendar fields of one instant, as the epoch conversions hand them
/// over.
#[derive(Clone, Copy, Debug)]
pub struct CivilTime {
    pub year: i32,
    pub month: u8,
    pub day: u8,
    pub hour: u8,
    pub minute: u8,
    pub second: u8,
}

impl CivilTime {
    /// The fields form a valid Gregorian date and a valid time of day.
    pub open spec fn valid(self) -> bool {
        valid_date_gregorian(self.year as int, self.month as int, self.day as int) && valid_hms(
            self.hour as int,
            self.minute as int,
            self.second as int,
        )
    }

    /// The Unix timestamp of the fields read at the given offset.
    pub open spec fn unix_at(self, offset_hours: int) -> int {
        unix_of(
            self.year as int,
            self.month as int,
            self.day as int,
            self.hour as int,
            self.minute as int,
            self.second as int,
            offset_hours,
        )
    }
}

/// Relies on `time::OffsetDateTime::from_unix_timestamp` and `to_offset`:
/// the calendar fields of the instant `secs` seconds after the Unix epoch,
/// expressed at the given whole-hour UTC offset. The preconditions keep
/// both the instant and its local representation inside the supported
/// year range, so neither call can fail.
#[verifier::external_body]
pub(crate) fn civil_from_unix(secs: i64, offset_hours: i8) -> (r: CivilTime)
    requires
        -25 <= offset_hours <= 25,
        MIN_UNIX_SECONDS <= secs <= MAX_UNIX_SECONDS,
        MIN_UNIX_SECONDS <= secs + 3600 * offset_hours <= MAX_UNIX_SECONDS,
    ensures
        r.valid(),
        r.unix_at(offset_hours as int) == secs,
{
    let offset = time::UtcOffset::from_hms(offset_hours, 0, 0).unwrap();
    let dt = time::OffsetDateTime::from_unix_timestamp(secs).unwrap().to_offset(offset);
    CivilTime {
        year: dt.year(),
        month: u8::from(dt.month()),
        day: dt.day(),
        hour: dt.hour(),
        minute: dt.minute(),
        second: dt.second(),
    }
}

/// Relies on `time::Date::from_calendar_date`, `Date::with_hms`,
/// `PlainDateTime::assume_offset` and `OffsetDateTime::unix_timestamp`:
/// the Unix timestamp of valid calendar fields read at the given
/// whole-hour UTC offset.
#[verifier::external_body]
pub(crate) fn unix_from_civil(c: CivilTime, offset_hours: i8) -> (r: i64)
    requires
        c.valid(),
        -25 <= offset_hours <= 25,
    ensures
        r == c.unix_at(offset_hours as int),
{
    let offset = time::UtcOffset::from_hms(offset_hours, 0, 0).unwrap();
    let month = time::Month::try_from(c.month).unwrap();
    let date = time::Date::from_calendar_date(c.year, month, c.day).unwrap();
    date.with_hms(c.hour, c.minute, c.second).unwrap().assume_offset(offset).unix_timestamp()
}

/// Relies on `time::OffsetDateTime::now_utc`: the current Unix time as
/// whole seconds and the millisecond within that second. The seconds
/// value depends on the system clock, so nothing is promised of it.
#[verifier::external_body]
pub(crate) fn now_unix() -> (r: (i64, u16))
    ensures
        r.1 < 1000,
{
    let dt = time::OffsetDateTime::now_utc();
    (dt.unix_timestamp(), dt.millisecond())
}

} // verus!
