//! An absolute instant: calendar date, time of day, millisecond and a
//! whole-hour UTC offset.
//!
//! Calendar navigation (`next_*`, `start_of_*`, `end_of_*`) runs on the
//! simplified calendar of `crate::calendar`, whose only leap condition is
//! divisibility by four; conversions to and from Unix timestamps use the
//! exact Gregorian rule through the trusted boundary in `crate::epoch`.

use vstd::prelude::*;

use crate::calendar::abs_of;
use crate::calendar::align_down;
use crate::calendar::civil_of;
use crate::calendar::day_number_simple;
use crate::calendar::days_in_month_gregorian;
use crate::calendar::days_in_month_simple;
use crate::calendar::is_leap_gregorian;
use crate::calendar::is_leap_simple;
use crate::calendar::lemma_align_down_bounds;
use crate::calendar::lemma_civil_of_eq;
use crate::calendar::lemma_gregorian_valid_implies_simple;
use crate::calendar::lemma_next_date_simple;
use crate::calendar::lemma_prev_date_simple;
use crate::calendar::lemma_seconds_of_day_split;
use crate::calendar::lemma_unix_of_bounds;
use crate::calendar::max_day_number;
use crate::calendar::min_day_number;
use crate::calendar::month_prefix_simple;
use crate::calendar::next_date_simple;
use crate::calendar::prev_date_simple;
use crate::calendar::seconds_of_day;
use crate::calendar::unix_of;
use crate::calendar::valid_date_gregorian;
use crate::calendar::valid_date_simple;
use crate::calendar::valid_hms;
use crate::calendar::valid_offset_hours;
use crate::calendar::MAX_UNIX_SECONDS;
use crate::calendar::MIN_UNIX_SECONDS;
use crate::digits::all_digits;
use crate::digits::dec2;
use crate::digits::dec4;
use crate::digits::digits_val;
use crate::digits::parse_digits_max;
use crate::digits::parse_u8_digits;
use crate::digits::push_dec2;
use crate::digits::push_dec4;
use crate::epoch::civil_from_unix;
use crate::epoch::now_unix;
use crate::epoch::unix_from_civil;
use crate::epoch::CivilTime;
use crate::weekday::weekday_index;
use crate::weekday::weekday_of_index;
use crate::weekday::Weekday;
use vstd::string::StrSliceExecFns;
use vstd::string::StringExecFns;

verus! {

/// Errors of the instant operations.
#[derive(Debug)]
pub enum OffsetDateTimeError {
    /// The UTC offset cannot be built from whole hours.
    InvalidOffsetHours(i8),
    /// A Unix timestamp outside the representable range.
    InvalidTimestamp(i64),
    /// A millisecond count outside `[0, 999]`; never produced by this
    /// crate.
    InvalidMilliseconds(u16),
    /// The input does not match the expected template.
    ParseError(String),
    /// A value cannot be rendered; never produced by this crate.
    FormatError(String),
    /// A seconds-of-day count outside `[0, 86400)`.
    InvalidSeconds(i64),
    /// A zero alignment interval.
    InvalidAlignmentUnit(u64),
    /// An addition failed; never produced by this crate.
    AddTimeError(OffsetDateTime),
}

/// A year rendered to four zero-padded digits, a minus sign in front of
/// negative years.
pub open spec fn year4_seq(y: int) -> Seq<char> {
    if y < 0 {
        seq!['-'] + dec4(-y)
    } else {
        dec4(y)
    }
}

/// The `±HH:MM` suffix of a whole-hour UTC offset, the sign always
/// written.
pub open spec fn offset_suffix_seq(off: int) -> Seq<char> {
    (if off < 0 {
        seq!['-'] + dec2(-off)
    } else {
        seq!['+'] + dec2(off)
    }) + seq![':', '0', '0']
}

/// The display rendering `YYYY-MM-DD HH:MM:SS±HH:MM` of calendar fields
/// at a whole-hour UTC offset.
pub open spec fn display_seq(y: int, mo: int, d: int, h: int, mi: int, s: int, off: int) -> Seq<
    char,
> {
    year4_seq(y) + seq!['-'] + dec2(mo) + seq!['-'] + dec2(d) + seq![' '] + dec2(h) + seq![':']
        + dec2(mi) + seq![':'] + dec2(s) + offset_suffix_seq(off)
}

/// Read a display string `YYYY-MM-DD HH:MM:SS±HH:MM` back into its
/// fields: signed year, month, day, hour, minute, second and signed
/// whole-hour offset. `None` when the string does not have that shape.
pub open spec fn parse_display_seq(s: Seq<char>) -> Option<(int, int, int, int, int, int, int)> {
    let b: int = if s.len() > 0 && s[0] == '-' {
        1
    } else {
        0
    };
    if s.len() == 25 + b && all_digits(s.subrange(b, b + 4)) && s[b + 4] == '-' && all_digits(
        s.subrange(b + 5, b + 7),
    ) && s[b + 7] == '-' && all_digits(s.subrange(b + 8, b + 10)) && s[b + 10] == ' '
        && all_digits(s.subrange(b + 11, b + 13)) && s[b + 13] == ':' && all_digits(
        s.subrange(b + 14, b + 16),
    ) && s[b + 16] == ':' && all_digits(s.subrange(b + 17, b + 19)) && (s[b + 19] == '+' || s[b
        + 19] == '-') && all_digits(s.subrange(b + 20, b + 22)) && s[b + 22] == ':' && s[b + 23]
        == '0' && s[b + 24] == '0' {
        let ysign: int = if b == 1 {
            -1
        } else {
            1
        };
        let osign: int = if s[b + 19] == '-' {
            -1
        } else {
            1
        };
        Some(
            (
                ysign * digits_val(s.subrange(b, b + 4)),
                digits_val(s.subrange(b + 5, b + 7)),
                digits_val(s.subrange(b + 8, b + 10)),
                digits_val(s.subrange(b + 11, b + 13)),
                digits_val(s.subrange(b + 14, b + 16)),
                digits_val(s.subrange(b + 17, b + 19)),
                osign * digits_val(s.subrange(b + 20, b + 22)),
            ),
        )
    } else {
        None
    }
}

/// Reading a rendered display string back recovers exactly the fields
/// that were rendered.
pub proof fn lemma_display_seq_parses_back(
    y: int,
    mo: int,
    d: int,
    h: int,
    mi: int,
    s: int,
    off: int,
)
    requires
        -9999 <= y <= 9999,
        0 <= mo < 100,
        0 <= d < 100,
        0 <= h < 100,
        0 <= mi < 100,
        0 <= s < 100,
        -25 <= off <= 25,
    ensures
        parse_display_seq(display_seq(y, mo, d, h, mi, s, off)) == Some(
            (y, mo, d, h, mi, s, off),
        ),
{
    let w = display_seq(y, mo, d, h, mi, s, off);
    let ya = if y < 0 {
        -y
    } else {
        y
    };
    let oa = if off < 0 {
        -off
    } else {
        off
    };
    let b: int = if y < 0 {
        1
    } else {
        0
    };
    crate::digits::lemma_dec4_val(ya);
    crate::digits::lemma_dec2_val(mo);
    crate::digits::lemma_dec2_val(d);
    crate::digits::lemma_dec2_val(h);
    crate::digits::lemma_dec2_val(mi);
    crate::digits::lemma_dec2_val(s);
    crate::digits::lemma_dec2_val(oa);
    crate::digits::lemma_digit_char_val(0);
    assert(w.len() == 25 + b);
    assert(w[0] == '-' <==> y < 0) by {
        if y >= 0 {
            assert(w[0] == dec4(ya)[0]);
            assert(crate::digits::is_digit(w[0]));
        }
    }
    assert(w.subrange(b, b + 4) =~= dec4(ya));
    assert(w[b + 4] == '-');
    assert(w.subrange(b + 5, b + 7) =~= dec2(mo));
    assert(w[b + 7] == '-');
    assert(w.subrange(b + 8, b + 10) =~= dec2(d));
    assert(w[b + 10] == ' ');
    assert(w.subrange(b + 11, b + 13) =~= dec2(h));
    assert(w[b + 13] == ':');
    assert(w.subrange(b + 14, b + 16) =~= dec2(mi));
    assert(w[b + 16] == ':');
    assert(w.subrange(b + 17, b + 19) =~= dec2(s));
    assert(w[b + 19] == '+' || w[b + 19] == '-');
    assert(w[b + 19] == '-' <==> off < 0) by {
        if off >= 0 {
            assert(w[b + 19] == '+');
        }
    }
    assert(w.subrange(b + 20, b + 22) =~= dec2(oa));
    assert(w[b + 22] == ':');
    assert(w[b + 23] == '0');
    assert(w[b + 24] == '0');
    if y < 0 {
        assert((-1) * digits_val(w.subrange(b, b + 4)) == y);
    } else {
        assert(1 * digits_val(w.subrange(b, b + 4)) == y);
    }
    if off < 0 {
        assert((-1) * digits_val(w.subrange(b + 20, b + 22)) == off);
    } else {
        assert(1 * digits_val(w.subrange(b + 20, b + 22)) == off);
    }
}

/// `display_seq` over the field tuple that `civil_of` yields.
pub open spec fn display_seq_of(c: (int, int, int, int, int, int), off: int) -> Seq<char> {
    display_seq(c.0, c.1, c.2, c.3, c.4, c.5, off)
}

/// The Chinese rendering of calendar fields; the offset suffix is always
/// `+08:00` because the fields are the instant's at UTC+8.
pub open spec fn chinese_seq(y: int, mo: int, d: int, h: int, mi: int, s: int) -> Seq<char> {
    year4_seq(y) + seq!['\u{5e74}'] + dec2(mo) + seq!['\u{6708}'] + dec2(d) + seq![
        '\u{65e5}',
        ' ',
    ] + dec2(h) + seq!['\u{65f6}'] + dec2(mi) + seq!['\u{5206}'] + dec2(s) + seq![
        '\u{79d2}',
        ' ',
        '+',
        '0',
        '8',
        ':',
        '0',
        '0',
    ]
}

/// `chinese_seq` over the field tuple that `civil_of` yields.
pub open spec fn chinese_seq_of(c: (int, int, int, int, int, int)) -> Seq<char> {
    chinese_seq(c.0, c.1, c.2, c.3, c.4, c.5)
}

/// The dotted rendering `YYYY.MM.DD` of a date.
pub open spec fn dot_date_seq(y: int, mo: int, d: int) -> Seq<char> {
    dec4(y) + seq!['.'] + dec2(mo) + seq!['.'] + dec2(d)
}

/// An eight-character all-digit date string `YYYYMMDD`.
pub open spec fn date8_ok(s: Seq<char>) -> bool {
    s.len() == 8 && all_digits(s)
}

/// The year field of a `YYYYMMDD` string.
pub open spec fn date8_year(s: Seq<char>) -> int {
    digits_val(s.subrange(0, 4))
}

/// The month field of a `YYYYMMDD` string.
pub open spec fn date8_month(s: Seq<char>) -> int {
    digits_val(s.subrange(4, 6))
}

/// The day field of a `YYYYMMDD` string.
pub open spec fn date8_day(s: Seq<char>) -> int {
    digits_val(s.subrange(6, 8))
}

/// An `HH:MM:SS` string: two digits, a colon, two digits, a colon, two
/// digits.
pub open spec fn hms8_ok(s: Seq<char>) -> bool {
    s.len() == 8 && s[2] == ':' && s[5] == ':' && all_digits(s.subrange(0, 2)) && all_digits(
        s.subrange(3, 5),
    ) && all_digits(s.subrange(6, 8))
}

/// The hour field of an `HH:MM:SS` string.
pub open spec fn hms8_hour(s: Seq<char>) -> int {
    digits_val(s.subrange(0, 2))
}

/// The minute field of an `HH:MM:SS` string.
pub open spec fn hms8_minute(s: Seq<char>) -> int {
    digits_val(s.subrange(3, 5))
}

/// The second field of an `HH:MM:SS` string.
pub open spec fn hms8_second(s: Seq<char>) -> int {
    digits_val(s.subrange(6, 8))
}

/// A compact `YYYYMMDD_HHMM` string: eight digits, an underscore, four
/// digits.
pub open spec fn simple13_ok(s: Seq<char>) -> bool {
    s.len() == 13 && all_digits(s.subrange(0, 8)) && s[8] == '_' && all_digits(s.subrange(9, 13))
}

/// The hour field of a `YYYYMMDD_HHMM` string.
pub open spec fn simple13_hour(s: Seq<char>) -> int {
    digits_val(s.subrange(9, 11))
}

/// The minute field of a `YYYYMMDD_HHMM` string.
pub open spec fn simple13_minute(s: Seq<char>) -> int {
    digits_val(s.subrange(11, 13))
}

/// What `from_date_time` accepts: a `YYYYMMDD` date, an `HH:MM:SS` time,
/// a three-digit millisecond, an offset the underlying offset type can
/// hold, and fields that form a valid Gregorian date and time of day.
pub open spec fn from_date_time_ok(ds: Seq<char>, ts: Seq<char>, milli: int, off: int) -> bool {
    date8_ok(ds) && hms8_ok(ts) && 0 <= milli <= 999 && valid_offset_hours(off)
        && valid_date_gregorian(date8_year(ds), date8_month(ds), date8_day(ds)) && valid_hms(
        hms8_hour(ts),
        hms8_minute(ts),
        hms8_second(ts),
    )
}

/// What `from_simple` accepts: a `YYYYMMDD_HHMM` string, an offset the
/// underlying offset type can hold, and fields that form a valid
/// Gregorian date and time of day.
pub open spec fn from_simple_ok(s: Seq<char>, off: int) -> bool {
    simple13_ok(s) && valid_offset_hours(off) && valid_date_gregorian(
        date8_year(s.subrange(0, 8)),
        date8_month(s.subrange(0, 8)),
        date8_day(s.subrange(0, 8)),
    ) && simple13_hour(s) < 24 && simple13_minute(s) < 60
}

/// An absolute instant with millisecond precision and a whole-hour UTC
/// offset.
#[derive(Clone, Copy, Debug, PartialEq, Eq, Structural)]
pub struct OffsetDateTime {
    pub year: i32,
    pub month: u8,
    pub day: u8,
    pub hour: u8,
    pub minute: u8,
    pub second: u8,
    pub millisecond: u16,
    pub offset_hours: i8,
}

impl OffsetDateTime {
    /// Well-formedness: a date of the simplified calendar, a valid time
    /// of day, a millisecond below one thousand and a buildable offset.
    pub open spec fn valid(self) -> bool {
        valid_date_simple(self.year as int, self.month as int, self.day as int) && valid_hms(
            self.hour as int,
            self.minute as int,
            self.second as int,
        ) && self.millisecond < 1000 && valid_offset_hours(self.offset_hours as int)
    }

    /// Well-formedness under the exact Gregorian rule; what the Unix
    /// conversions require.
    pub open spec fn gregorian_valid(self) -> bool {
        self.valid() && valid_date_gregorian(self.year as int, self.month as int, self.day as int)
    }

    /// The day number of the date part in the simplified calendar.
    pub open spec fn date_number(self) -> int {
        day_number_simple(self.year as int, self.month as int, self.day as int)
    }

    /// Seconds since midnight of the time part.
    pub open spec fn spec_seconds(self) -> int {
        seconds_of_day(self.hour as int, self.minute as int, self.second as int)
    }

    /// The Unix timestamp in whole seconds, under the Gregorian rule.
    pub open spec fn unix_seconds(self) -> int {
        unix_of(
            self.year as int,
            self.month as int,
            self.day as int,
            self.hour as int,
            self.minute as int,
            self.second as int,
            self.offset_hours as int,
        )
    }

    /// Construct an instant from its fields; `None` when they do not form
    /// a valid Gregorian date, time of day, millisecond and offset.
    pub fn new(
        year: i32,
        month: u8,
        day: u8,
        hour: u8,
        minute: u8,
        second: u8,
        millisecond: u16,
        offset_hours: i8,
    ) -> (r: Option<OffsetDateTime>)
        ensures
            r is Some <==> valid_date_gregorian(year as int, month as int, day as int) && valid_hms(
                hour as int,
                minute as int,
                second as int,
            ) && millisecond < 1000 && valid_offset_hours(offset_hours as int),
            r matches Some(t) ==> t == (OffsetDateTime {
                year,
                month,
                day,
                hour,
                minute,
                second,
                millisecond,
                offset_hours,
            }),
    {
        if year < -9999 || year > 9999 || month < 1 || month > 12 {
            return None;
        }
        if day < 1 || day > days_in_month_gregorian_exec(year, month) {
            return None;
        }
        if hour >= 24 || minute >= 60 || second >= 60 || millisecond >= 1000 {
            return None;
        }
        if offset_hours < -25 || offset_hours > 25 {
            return None;
        }
        Some(OffsetDateTime { year, month, day, hour, minute, second, millisecond, offset_hours })
    }

    /// True when both instants fall in the same minute of their own
    /// clocks: hour and minute fields equal; dates, offsets and seconds
    /// ignored.
    pub fn is_same_minute(&self, b: &OffsetDateTime) -> (r: bool)
        ensures
            r == (self.hour == b.hour && self.minute == b.minute),
    {
        self.hour == b.hour && self.minute == b.minute
    }

    /// Zero the seconds and sub-seconds, keeping date, hour, minute and
    /// offset.
    pub fn reset_minute(&self) -> (r: OffsetDateTime)
        ensures
            r == (OffsetDateTime { second: 0, millisecond: 0, ..*self }),
    {
        OffsetDateTime { second: 0, millisecond: 0, ..*self }
    }

    /// Replace the time of day by a seconds-of-day count, keeping date and
    /// offset and zeroing the sub-seconds; counts outside `[0, 86400)` are
    /// `InvalidSeconds`.
    pub fn replace_time_with_seconds(&self, seconds: i64) -> (r: Result<
        OffsetDateTime,
        OffsetDateTimeError,
    >)
        requires
            self.valid(),
        ensures
            r is Ok <==> 0 <= seconds < 86400,
            r matches Ok(t) ==> t.valid() && t.spec_seconds() == seconds && t == (OffsetDateTime {
                hour: t.hour,
                minute: t.minute,
                second: t.second,
                millisecond: 0,
                ..*self
            }),
            r matches Err(e) ==> e matches OffsetDateTimeError::InvalidSeconds(s) && s == seconds,
    {
        if seconds < 0 || seconds >= 24 * 3600 {
            return Err(OffsetDateTimeError::InvalidSeconds(seconds));
        }
        Ok(self.with_sod(seconds as u64))
    }

    /// The instant at the same date and offset whose time of day is `sod`
    /// seconds after midnight, sub-seconds zeroed.
    fn with_sod(&self, sod: u64) -> (r: OffsetDateTime)
        requires
            self.valid(),
            sod < 86400,
        ensures
            r.valid(),
            r.spec_seconds() == sod,
            r == (OffsetDateTime {
                hour: r.hour,
                minute: r.minute,
                second: r.second,
                millisecond: 0,
                ..*self
            }),
    {
        let hours = (sod / 3600) as u8;
        let minutes = ((sod % 3600) / 60) as u8;
        let secs = (sod % 60) as u8;
        proof {
            lemma_seconds_of_day_split(sod as int);
        }
        OffsetDateTime { hour: hours, minute: minutes, second: secs, millisecond: 0, ..*self }
    }

    /// Floor the time of day to a multiple of `interval` seconds, keeping
    /// date and offset and zeroing the sub-seconds; a negative interval
    /// aligns like its absolute value, and zero is rejected with
    /// `InvalidAlignmentUnit`.
    pub fn align_to(&self, interval: i64) -> (r: Result<OffsetDateTime, OffsetDateTimeError>)
        requires
            self.valid(),
        ensures
            r is Ok <==> interval != 0,
            r matches Ok(t) ==> t.valid() && t.spec_seconds() == align_down(
                self.spec_seconds(),
                abs_of(interval as int),
            ) && t == (OffsetDateTime {
                hour: t.hour,
                minute: t.minute,
                second: t.second,
                millisecond: 0,
                ..*self
            }),
            r matches Err(e) ==> e matches OffsetDateTimeError::InvalidAlignmentUnit(u) && u == 0,
    {
        if interval == 0 {
            return Err(OffsetDateTimeError::InvalidAlignmentUnit(0));
        }
        let sod = (self.hour as i64 * 3600 + self.minute as i64 * 60 + self.second as i64) as u64;
        let unit: u64 = if interval == i64::MIN {
            9223372036854775808
        } else if interval < 0 {
            (-interval) as u64
        } else {
            interval as u64
        };
        proof {
            lemma_align_down_bounds(sod as int, unit as int);
        }
        let aligned = (sod / unit) * unit;
        Ok(self.with_sod(aligned))
    }

    /// Seconds contributed by the hour field alone: `hour * 3600`.
    pub fn to_hour_seconds(&self) -> (r: i64)
        ensures
            r == 3600 * self.hour,
    {
        self.hour as i64 * 3600
    }

    /// Seconds contributed by hour and minute: `hour * 3600 + minute * 60`.
    pub fn to_minute_seconds(&self) -> (r: i64)
        ensures
            r == 3600 * self.hour + 60 * self.minute,
    {
        self.hour as i64 * 3600 + self.minute as i64 * 60
    }

    /// Milliseconds from this instant to the next occurrence of the given
    /// time of day on its own clock: today when the target has not passed
    /// yet, tomorrow otherwise. Always in `[0, 86400000)`.
    pub fn duration_to_time(&self, target_hour: u8, target_minute: u8, target_second: u8) -> (r:
        i64)
        requires
            self.valid(),
            valid_hms(target_hour as int, target_minute as int, target_second as int),
        ensures
            r == (1000 * seconds_of_day(target_hour as int, target_minute as int, target_second as int)
                - (1000 * self.spec_seconds() + self.millisecond)) % 86400000,
            0 <= r < 86400000,
    {
        let target_ms: i64 = (target_hour as i64 * 3600 + target_minute as i64 * 60
            + target_second as i64) * 1000;
        let current_ms: i64 = (self.hour as i64 * 3600 + self.minute as i64 * 60
            + self.second as i64) * 1000 + self.millisecond as i64;
        let diff = target_ms - current_ms;
        let r = if diff < 0 {
            diff + 86400000
        } else {
            diff
        };
        proof {
            assert(r == (target_ms - current_ms) % 86400000) by (nonlinear_arith)
                requires
                    -86400000 < diff < 86400000,
                    diff == target_ms - current_ms,
                    r == if diff < 0 { 86400000 + diff } else { diff as int },
            ;
        }
        r
    }

    /// The weekday's index of this instant's date, Monday as zero.
    pub open spec fn weekday_index_of(self) -> int {
        (self.date_number() + 6) % 7
    }

    /// The same instant one calendar day later: the date advanced by one
    /// in the simplified calendar, time of day and sub-seconds unchanged.
    pub fn next_day(&self) -> (r: OffsetDateTime)
        requires
            self.valid(),
            !(self.year == 9999 && self.month == 12 && self.day == 31),
        ensures
            r.valid(),
            (r.year as int, r.month as int, r.day as int) == next_date_simple(
                self.year as int,
                self.month as int,
                self.day as int,
            ),
            r.date_number() == self.date_number() + 1,
            r == (OffsetDateTime { year: r.year, month: r.month, day: r.day, ..*self }),
    {
        let (ny, nm, nd) = next_date_exec(self.year, self.month, self.day);
        OffsetDateTime { year: ny, month: nm, day: nd, ..*self }
    }

    /// One hour later: rolls into the next day after 23:00; minute,
    /// second and sub-seconds unchanged.
    pub fn next_hour(&self) -> (r: OffsetDateTime)
        requires
            self.valid(),
            !(self.year == 9999 && self.month == 12 && self.day == 31 && self.hour == 23),
        ensures
            r.valid(),
            r.date_number() * 86400 + r.spec_seconds() == self.date_number() * 86400
                + self.spec_seconds() + 3600,
            self.hour < 23 ==> r == (OffsetDateTime { hour: (self.hour + 1) as u8, ..*self }),
            self.hour == 23 ==> (r.year as int, r.month as int, r.day as int) == next_date_simple(
                self.year as int,
                self.month as int,
                self.day as int,
            ) && r == (OffsetDateTime { year: r.year, month: r.month, day: r.day, hour: 0, ..*self }),
    {
        if self.hour < 23 {
            OffsetDateTime { hour: self.hour + 1, ..*self }
        } else {
            let (ny, nm, nd) = next_date_exec(self.year, self.month, self.day);
            OffsetDateTime { year: ny, month: nm, day: nd, hour: 0, ..*self }
        }
    }

    /// One minute later: rolls the hour, and past 23:59 the day; second
    /// and sub-seconds unchanged.
    pub fn next_minute(&self) -> (r: OffsetDateTime)
        requires
            self.valid(),
            !(self.year == 9999 && self.month == 12 && self.day == 31 && self.hour == 23
                && self.minute == 59),
        ensures
            r.valid(),
            r.date_number() * 86400 + r.spec_seconds() == self.date_number() * 86400
                + self.spec_seconds() + 60,
            self.minute < 59 ==> r == (OffsetDateTime { minute: (self.minute + 1) as u8, ..*self }),
            self.minute == 59 && self.hour < 23 ==> r == (OffsetDateTime {
                hour: (self.hour + 1) as u8,
                minute: 0,
                ..*self
            }),
            self.minute == 59 && self.hour == 23 ==> (r.year as int, r.month as int, r.day as int)
                == next_date_simple(self.year as int, self.month as int, self.day as int) && r == (
            OffsetDateTime {
                year: r.year,
                month: r.month,
                day: r.day,
                hour: 0,
                minute: 0,
                ..*self
            }),
    {
        if self.minute < 59 {
            OffsetDateTime { minute: self.minute + 1, ..*self }
        } else if self.hour < 23 {
            OffsetDateTime { hour: self.hour + 1, minute: 0, ..*self }
        } else {
            let (ny, nm, nd) = next_date_exec(self.year, self.month, self.day);
            OffsetDateTime { year: ny, month: nm, day: nd, hour: 0, minute: 0, ..*self }
        }
    }

    /// One second later: rolls minute, hour, and past 23:59:59 the day;
    /// sub-seconds unchanged.
    pub fn next_second(&self) -> (r: OffsetDateTime)
        requires
            self.valid(),
            !(self.year == 9999 && self.month == 12 && self.day == 31 && self.hour == 23
                && self.minute == 59 && self.second == 59),
        ensures
            r.valid(),
            r.date_number() * 86400 + r.spec_seconds() == self.date_number() * 86400
                + self.spec_seconds() + 1,
            self.second < 59 ==> r == (OffsetDateTime { second: (self.second + 1) as u8, ..*self }),
            self.second == 59 && self.minute < 59 ==> r == (OffsetDateTime {
                minute: (self.minute + 1) as u8,
                second: 0,
                ..*self
            }),
            self.second == 59 && self.minute == 59 && self.hour < 23 ==> r == (OffsetDateTime {
                hour: (self.hour + 1) as u8,
                minute: 0,
                second: 0,
                ..*self
            }),
            self.second == 59 && self.minute == 59 && self.hour == 23 ==> (
            r.year as int,
            r.month as int,
            r.day as int,
            ) == next_date_simple(self.year as int, self.month as int, self.day as int) && r == (
            OffsetDateTime {
                year: r.year,
                month: r.month,
                day: r.day,
                hour: 0,
                minute: 0,
                second: 0,
                ..*self
            }),
    {
        if self.second < 59 {
            OffsetDateTime { second: self.second + 1, ..*self }
        } else if self.minute < 59 {
            OffsetDateTime { minute: self.minute + 1, second: 0, ..*self }
        } else if self.hour < 23 {
            OffsetDateTime { hour: self.hour + 1, minute: 0, second: 0, ..*self }
        } else {
            let (ny, nm, nd) = next_date_exec(self.year, self.month, self.day);
            OffsetDateTime { year: ny, month: nm, day: nd, hour: 0, minute: 0, second: 0, ..*self }
        }
    }

    /// The same date at `00:00:00`, sub-seconds zeroed.
    pub fn start_of_day(&self) -> (r: OffsetDateTime)
        ensures
            r == (OffsetDateTime { hour: 0, minute: 0, second: 0, millisecond: 0, ..*self }),
    {
        OffsetDateTime { hour: 0, minute: 0, second: 0, millisecond: 0, ..*self }
    }

    /// The same date at `23:59:59`, sub-seconds zeroed.
    pub fn end_of_day(&self) -> (r: OffsetDateTime)
        ensures
            r == (OffsetDateTime { hour: 23, minute: 59, second: 59, millisecond: 0, ..*self }),
    {
        OffsetDateTime { hour: 23, minute: 59, second: 59, millisecond: 0, ..*self }
    }

    /// The first day of the same month at `00:00:00`.
    pub fn start_of_month(&self) -> (r: OffsetDateTime)
        ensures
            r == (OffsetDateTime {
                day: 1,
                hour: 0,
                minute: 0,
                second: 0,
                millisecond: 0,
                ..*self
            }),
    {
        OffsetDateTime { day: 1, hour: 0, minute: 0, second: 0, millisecond: 0, ..*self }
    }

    /// The last day of the same month at `23:59:59`; the month length
    /// comes from the simplified calendar, so February has 29 days in
    /// every year divisible by four.
    pub fn end_of_month(&self) -> (r: OffsetDateTime)
        requires
            self.valid(),
        ensures
            r.valid(),
            r.day == days_in_month_simple(self.year as int, self.month as int),
            r == (OffsetDateTime {
                day: r.day,
                hour: 23,
                minute: 59,
                second: 59,
                millisecond: 0,
                ..*self
            }),
    {
        let dim = days_in_month_simple_exec(self.year, self.month);
        OffsetDateTime { day: dim, hour: 23, minute: 59, second: 59, millisecond: 0, ..*self }
    }

    /// The weekday of this instant's date in the simplified calendar.
    pub fn weekday(&self) -> (r: Weekday)
        requires
            self.valid(),
        ensures
            r == weekday_of_index(self.weekday_index_of()),
            weekday_index(r) == self.weekday_index_of(),
    {
        let dn = day_number_simple_exec(self.year, self.month, self.day);
        let idx = (dn + 6).checked_rem_euclid(7).unwrap();
        if idx == 0 {
            Weekday::Monday
        } else if idx == 1 {
            Weekday::Tuesday
        } else if idx == 2 {
            Weekday::Wednesday
        } else if idx == 3 {
            Weekday::Thursday
        } else if idx == 4 {
            Weekday::Friday
        } else if idx == 5 {
            Weekday::Saturday
        } else {
            Weekday::Sunday
        }
    }

    /// Midnight of the Monday of this instant's week: `start_of_day`
    /// moved back by the days elapsed since Monday.
    pub fn start_of_week(&self) -> (r: OffsetDateTime)
        requires
            self.valid(),
            self.date_number() - self.weekday_index_of() >= min_day_number(),
        ensures
            r.valid(),
            r.date_number() == self.date_number() - self.weekday_index_of(),
            r.weekday_index_of() == 0,
            r == (OffsetDateTime {
                year: r.year,
                month: r.month,
                day: r.day,
                hour: 0,
                minute: 0,
                second: 0,
                millisecond: 0,
                ..*self
            }),
    {
        let k = weekday_to_u8_index(self);
        let mut y = self.year;
        let mut m = self.month;
        let mut d = self.day;
        let mut i: u8 = 0;
        while i < k
            invariant
                i <= k,
                k == self.weekday_index_of(),
                self.valid(),
                self.date_number() - self.weekday_index_of() >= min_day_number(),
                valid_date_simple(y as int, m as int, d as int),
                day_number_simple(y as int, m as int, d as int) == self.date_number() - i,
            decreases k - i,
        {
            let (py, pm, pd) = prev_date_exec(y, m, d);
            y = py;
            m = pm;
            d = pd;
            i = i + 1;
        }
        proof {
            lemma_weekday_shift_to_monday(self.date_number(), self.weekday_index_of());
        }
        OffsetDateTime {
            year: y,
            month: m,
            day: d,
            hour: 0,
            minute: 0,
            second: 0,
            millisecond: 0,
            ..*self
        }
    }

    /// The end of the Sunday of this instant's week: `end_of_day` moved
    /// forward to Sunday.
    pub fn end_of_week(&self) -> (r: OffsetDateTime)
        requires
            self.valid(),
            self.date_number() + 6 - self.weekday_index_of() <= max_day_number(),
        ensures
            r.valid(),
            r.date_number() == self.date_number() + 6 - self.weekday_index_of(),
            r.weekday_index_of() == 6,
            r == (OffsetDateTime {
                year: r.year,
                month: r.month,
                day: r.day,
                hour: 23,
                minute: 59,
                second: 59,
                millisecond: 0,
                ..*self
            }),
    {
        let k = weekday_to_u8_index(self);
        let steps = 6 - k;
        let mut y = self.year;
        let mut m = self.month;
        let mut d = self.day;
        let mut i: u8 = 0;
        while i < steps
            invariant
                i <= steps,
                steps == 6 - self.weekday_index_of(),
                self.valid(),
                self.date_number() + 6 - self.weekday_index_of() <= max_day_number(),
                valid_date_simple(y as int, m as int, d as int),
                day_number_simple(y as int, m as int, d as int) == self.date_number() + i,
            decreases steps - i,
        {
            let (ny, nm, nd) = next_date_exec(y, m, d);
            y = ny;
            m = nm;
            d = nd;
            i = i + 1;
        }
        proof {
            lemma_weekday_shift_to_sunday(self.date_number(), self.weekday_index_of());
        }
        OffsetDateTime {
            year: y,
            month: m,
            day: d,
            hour: 23,
            minute: 59,
            second: 59,
            millisecond: 0,
            ..*self
        }
    }

    /// The calendar fields as the epoch boundary carries them.
    fn to_civil(&self) -> (r: CivilTime)
        requires
            self.gregorian_valid(),
        ensures
            r == (CivilTime {
                year: self.year,
                month: self.month,
                day: self.day,
                hour: self.hour,
                minute: self.minute,
                second: self.second,
            }),
            r.valid(),
            r.unix_at(self.offset_hours as int) == self.unix_seconds(),
    {
        CivilTime {
            year: self.year,
            month: self.month,
            day: self.day,
            hour: self.hour,
            minute: self.minute,
            second: self.second,
        }
    }

    /// The Unix timestamp of this instant, in whole seconds; the
    /// milliseconds do not contribute.
    pub fn to_unix_timestamp(&self) -> (r: i64)
        requires
            self.gregorian_valid(),
        ensures
            r == self.unix_seconds(),
    {
        unix_from_civil(self.to_civil(), self.offset_hours)
    }

    /// The instant `ts` seconds after the Unix epoch, in UTC; timestamps
    /// outside the representable range are `InvalidTimestamp`.
    pub fn from_unix_timestamp(ts: i64) -> (r: Result<OffsetDateTime, OffsetDateTimeError>)
        ensures
            r is Ok <==> MIN_UNIX_SECONDS <= ts <= MAX_UNIX_SECONDS,
            r matches Ok(t) ==> t.gregorian_valid() && t.unix_seconds() == ts && t.offset_hours
                == 0 && t.millisecond == 0,
            r matches Err(e) ==> e matches OffsetDateTimeError::InvalidTimestamp(v) && v == ts,
    {
        if ts < MIN_UNIX_SECONDS || ts > MAX_UNIX_SECONDS {
            return Err(OffsetDateTimeError::InvalidTimestamp(ts));
        }
        let c = civil_from_unix(ts, 0);
        proof {
            lemma_gregorian_valid_implies_simple(c.year as int, c.month as int, c.day as int);
        }
        Ok(
            OffsetDateTime {
                year: c.year,
                month: c.month,
                day: c.day,
                hour: c.hour,
                minute: c.minute,
                second: c.second,
                millisecond: 0,
                offset_hours: 0,
            },
        )
    }

    /// The Unix timestamp of this instant scaled to milliseconds, plus
    /// the millisecond field; negative before the epoch.
    pub fn milli_timestamp(&self) -> (r: i64)
        requires
            self.gregorian_valid(),
        ensures
            r == 1000 * self.unix_seconds() + self.millisecond,
    {
        proof {
            lemma_unix_of_bounds(
                self.year as int,
                self.month as int,
                self.day as int,
                self.hour as int,
                self.minute as int,
                self.second as int,
                self.offset_hours as int,
            );
        }
        let secs = self.to_unix_timestamp();
        secs * 1000 + self.millisecond as i64
    }

    /// The instant `timestamp` seconds after the Unix epoch, expressed at
    /// the given whole-hour UTC offset. An offset that cannot be built is
    /// `InvalidOffsetHours`; a timestamp whose instant, or whose local
    /// representation at that offset, falls outside the representable
    /// years is `InvalidTimestamp`.
    pub fn from_seconds(timestamp: u64, offset_hours: i8) -> (r: Result<
        OffsetDateTime,
        OffsetDateTimeError,
    >)
        ensures
            ({
                let ts = timestamp as i64;
                &&& (r is Ok <==> valid_offset_hours(offset_hours as int) && MIN_UNIX_SECONDS <= ts
                    <= MAX_UNIX_SECONDS && MIN_UNIX_SECONDS <= ts + 3600 * offset_hours
                    <= MAX_UNIX_SECONDS)
                &&& (r matches Ok(t) ==> t.gregorian_valid() && t.offset_hours == offset_hours
                    && t.millisecond == 0 && t.unix_seconds() == ts)
                &&& (r matches Err(e) ==> (if !valid_offset_hours(offset_hours as int) {
                    e matches OffsetDateTimeError::InvalidOffsetHours(o) && o == offset_hours
                } else {
                    e matches OffsetDateTimeError::InvalidTimestamp(v) && v == ts
                }))
            }),
    {
        let ts = #[verifier::truncate] (timestamp as i64);
        if offset_hours < -25 || offset_hours > 25 {
            return Err(OffsetDateTimeError::InvalidOffsetHours(offset_hours));
        }
        if ts < MIN_UNIX_SECONDS || ts > MAX_UNIX_SECONDS {
            return Err(OffsetDateTimeError::InvalidTimestamp(ts));
        }
        let local = ts + (offset_hours as i64) * 3600;
        if local < MIN_UNIX_SECONDS || local > MAX_UNIX_SECONDS {
            return Err(OffsetDateTimeError::InvalidTimestamp(ts));
        }
        let c = civil_from_unix(ts, offset_hours);
        proof {
            lemma_gregorian_valid_implies_simple(c.year as int, c.month as int, c.day as int);
        }
        Ok(
            OffsetDateTime {
                year: c.year,
                month: c.month,
                day: c.day,
                hour: c.hour,
                minute: c.minute,
                second: c.second,
                millisecond: 0,
                offset_hours,
            },
        )
    }

    /// The instant `timestamp` milliseconds after the Unix epoch,
    /// expressed at the given whole-hour UTC offset: the whole seconds
    /// place the instant and the remainder becomes the millisecond
    /// field. The error cases are those of `from_seconds`, applied to
    /// the whole-second part.
    pub fn from_milliseconds(timestamp: u64, offset_hours: i8) -> (r: Result<
        OffsetDateTime,
        OffsetDateTimeError,
    >)
        ensures
            ({
                let secs = timestamp / 1000;
                &&& (r is Ok <==> valid_offset_hours(offset_hours as int) && secs
                    <= MAX_UNIX_SECONDS && secs + 3600 * offset_hours <= MAX_UNIX_SECONDS)
                &&& (r matches Ok(t) ==> t.gregorian_valid() && t.offset_hours == offset_hours
                    && t.millisecond == timestamp % 1000 && t.unix_seconds() == secs)
                &&& (r matches Err(e) ==> (if !valid_offset_hours(offset_hours as int) {
                    e matches OffsetDateTimeError::InvalidOffsetHours(o) && o == offset_hours
                } else {
                    e matches OffsetDateTimeError::InvalidTimestamp(v) && v == secs
                }))
            }),
    {
        let secs_u = timestamp / 1000;
        let millis = (timestamp % 1000) as u16;
        if offset_hours < -25 || offset_hours > 25 {
            return Err(OffsetDateTimeError::InvalidOffsetHours(offset_hours));
        }
        let secs = secs_u as i64;
        if secs > MAX_UNIX_SECONDS {
            return Err(OffsetDateTimeError::InvalidTimestamp(secs));
        }
        let local = secs + (offset_hours as i64) * 3600;
        if local > MAX_UNIX_SECONDS {
            return Err(OffsetDateTimeError::InvalidTimestamp(secs));
        }
        let c = civil_from_unix(secs, offset_hours);
        proof {
            lemma_gregorian_valid_implies_simple(c.year as int, c.month as int, c.day as int);
        }
        Ok(
            OffsetDateTime {
                year: c.year,
                month: c.month,
                day: c.day,
                hour: c.hour,
                minute: c.minute,
                second: c.second,
                millisecond: millis,
                offset_hours,
            },
        )
    }

    /// The current instant, expressed at the given whole-hour UTC offset.
    /// The result follows the system clock, so only its well-formedness
    /// and its offset are promised; a clock outside the representable
    /// years is clamped to them.
    pub fn now_with_offset(offset_hours: i8) -> (r: OffsetDateTime)
        requires
            valid_offset_hours(offset_hours as int),
        ensures
            r.gregorian_valid(),
            r.offset_hours == offset_hours,
    {
        let (now_secs, now_millis) = now_unix();
        let secs = if now_secs < MIN_UNIX_SECONDS + 90000 {
            MIN_UNIX_SECONDS + 90000
        } else if now_secs > MAX_UNIX_SECONDS - 90000 {
            MAX_UNIX_SECONDS - 90000
        } else {
            now_secs
        };
        let c = civil_from_unix(secs, offset_hours);
        proof {
            lemma_gregorian_valid_implies_simple(c.year as int, c.month as int, c.day as int);
        }
        OffsetDateTime {
            year: c.year,
            month: c.month,
            day: c.day,
            hour: c.hour,
            minute: c.minute,
            second: c.second,
            millisecond: now_millis,
            offset_hours,
        }
    }

    /// The same absolute instant expressed at another whole-hour UTC
    /// offset; the calendar fields change, the Unix timestamp and the
    /// millisecond do not.
    pub fn to_offset_hours(&self, offset_hours: i8) -> (r: OffsetDateTime)
        requires
            self.gregorian_valid(),
            valid_offset_hours(offset_hours as int),
            MIN_UNIX_SECONDS <= self.unix_seconds() <= MAX_UNIX_SECONDS,
            MIN_UNIX_SECONDS <= self.unix_seconds() + 3600 * offset_hours <= MAX_UNIX_SECONDS,
        ensures
            r.gregorian_valid(),
            r.offset_hours == offset_hours,
            r.millisecond == self.millisecond,
            r.unix_seconds() == self.unix_seconds(),
    {
        let secs = self.to_unix_timestamp();
        let c = civil_from_unix(secs, offset_hours);
        proof {
            lemma_gregorian_valid_implies_simple(c.year as int, c.month as int, c.day as int);
        }
        OffsetDateTime {
            year: c.year,
            month: c.month,
            day: c.day,
            hour: c.hour,
            minute: c.minute,
            second: c.second,
            millisecond: self.millisecond,
            offset_hours,
        }
    }

    /// Render as `YYYY-MM-DD HH:MM:SS±HH:MM` after converting to the
    /// given whole-hour UTC offset.
    pub fn to_display_string(&self, offset_hours: i8) -> (r: String)
        requires
            self.gregorian_valid(),
            valid_offset_hours(offset_hours as int),
            MIN_UNIX_SECONDS <= self.unix_seconds() <= MAX_UNIX_SECONDS,
            MIN_UNIX_SECONDS <= self.unix_seconds() + 3600 * offset_hours <= MAX_UNIX_SECONDS,
        ensures
            r@ == display_seq_of(
                civil_of(self.unix_seconds(), offset_hours as int),
                offset_hours as int,
            ),
    {
        let conv = self.to_offset_hours(offset_hours);
        proof {
            lemma_civil_of_eq(
                self.unix_seconds(),
                offset_hours as int,
                conv.year as int,
                conv.month as int,
                conv.day as int,
                conv.hour as int,
                conv.minute as int,
                conv.second as int,
            );
        }
        render_display(&conv)
    }

    /// Render as `YYYY年MM月DD日 HH时MM分SS秒 +08:00` after converting to
    /// UTC+8.
    pub fn to_chinese_string(&self) -> (r: String)
        requires
            self.gregorian_valid(),
            MIN_UNIX_SECONDS <= self.unix_seconds() <= MAX_UNIX_SECONDS,
            MIN_UNIX_SECONDS <= self.unix_seconds() + 28800 <= MAX_UNIX_SECONDS,
        ensures
            r@ == chinese_seq_of(civil_of(self.unix_seconds(), 8)),
    {
        let conv = self.to_offset_hours(8);
        proof {
            lemma_civil_of_eq(
                self.unix_seconds(),
                8,
                conv.year as int,
                conv.month as int,
                conv.day as int,
                conv.hour as int,
                conv.minute as int,
                conv.second as int,
            );
        }
        render_chinese(&conv)
    }

    /// Parse an instant from a `YYYYMMDD` date string, an `HH:MM:SS`
    /// time string, a millisecond count and a whole-hour UTC offset.
    /// Anything that does not match the template, or whose fields are
    /// out of range, is a `ParseError`.
    pub fn from_date_time(date: &str, time: &str, milli: u64, offset_hours: i8) -> (r: Result<
        OffsetDateTime,
        OffsetDateTimeError,
    >)
        ensures
            r is Ok <==> from_date_time_ok(date@, time@, milli as int, offset_hours as int),
            r matches Ok(t) ==> t.gregorian_valid() && t.year == date8_year(date@) && t.month
                == date8_month(date@) && t.day == date8_day(date@) && t.hour == hms8_hour(time@)
                && t.minute == hms8_minute(time@) && t.second == hms8_second(time@)
                && t.millisecond == milli && t.offset_hours == offset_hours,
            r matches Err(e) ==> e matches OffsetDateTimeError::ParseError(_),
    {
        let (y, mo, d) = match parse_date8(date) {
            Some(v) => v,
            None => {
                return Err(parse_error());
            },
        };
        let tn = time.unicode_len();
        if tn != 8 {
            return Err(parse_error());
        }
        if time.get_char(2) != ':' || time.get_char(5) != ':' {
            return Err(parse_error());
        }
        let hour_val = parse_u8_digits(time, 0, 2);
        let minute_val = parse_u8_digits(time, 3, 5);
        let second_val = parse_u8_digits(time, 6, 8);
        let (h, mi, s) = match (hour_val, minute_val, second_val) {
            (Some(h), Some(mi), Some(s)) => (h, mi, s),
            _ => {
                proof {
                    if all_digits(time@.subrange(0, 2)) {
                        lemma_digits_val_small_bound(time@.subrange(0, 2));
                    }
                    if all_digits(time@.subrange(3, 5)) {
                        lemma_digits_val_small_bound(time@.subrange(3, 5));
                    }
                    if all_digits(time@.subrange(6, 8)) {
                        lemma_digits_val_small_bound(time@.subrange(6, 8));
                    }
                }
                return Err(parse_error());
            },
        };
        if milli > 999 || offset_hours < -25 || offset_hours > 25 {
            return Err(parse_error());
        }
        if h >= 24 || mi >= 60 || s >= 60 {
            return Err(parse_error());
        }
        if mo < 1 || mo > 12 || d < 1 || d > days_in_month_gregorian_exec(y as i32, mo) {
            return Err(parse_error());
        }
        Ok(
            OffsetDateTime {
                year: y as i32,
                month: mo,
                day: d,
                hour: h,
                minute: mi,
                second: s,
                millisecond: milli as u16,
                offset_hours,
            },
        )
    }

    /// Parse an instant from the compact `YYYYMMDD_HHMM` form and a
    /// whole-hour UTC offset; seconds and milliseconds are zero.
    /// Anything that does not match the template, or whose fields are
    /// out of range, is a `ParseError`.
    pub fn from_simple(dt: &str, offset_hours: i8) -> (r: Result<
        OffsetDateTime,
        OffsetDateTimeError,
    >)
        ensures
            r is Ok <==> from_simple_ok(dt@, offset_hours as int),
            r matches Ok(t) ==> t.gregorian_valid() && t.year == date8_year(dt@.subrange(0, 8))
                && t.month == date8_month(dt@.subrange(0, 8)) && t.day == date8_day(
                dt@.subrange(0, 8),
            ) && t.hour == simple13_hour(dt@) && t.minute == simple13_minute(dt@) && t.second == 0
                && t.millisecond == 0 && t.offset_hours == offset_hours,
            r matches Err(e) ==> e matches OffsetDateTimeError::ParseError(_),
    {
        let n = dt.unicode_len();
        if n != 13 {
            return Err(parse_error());
        }
        if dt.get_char(8) != '_' {
            return Err(parse_error());
        }
        let date_part = dt.substring_char(0, 8);
        let (y, mo, d) = match parse_date8(date_part) {
            Some(v) => v,
            None => {
                return Err(parse_error());
            },
        };
        proof {
            lemma_split_four_digits(dt@);
        }
        let hour_val = parse_u8_digits(dt, 9, 11);
        let minute_val = parse_u8_digits(dt, 11, 13);
        let (h, mi) = match (hour_val, minute_val) {
            (Some(h), Some(mi)) => (h, mi),
            _ => {
                proof {
                    if all_digits(dt@.subrange(9, 11)) {
                        lemma_digits_val_small_bound(dt@.subrange(9, 11));
                    }
                    if all_digits(dt@.subrange(11, 13)) {
                        lemma_digits_val_small_bound(dt@.subrange(11, 13));
                    }
                }
                return Err(parse_error());
            },
        };
        if offset_hours < -25 || offset_hours > 25 {
            return Err(parse_error());
        }
        if h >= 24 || mi >= 60 {
            return Err(parse_error());
        }
        if mo < 1 || mo > 12 || d < 1 || d > days_in_month_gregorian_exec(y as i32, mo) {
            return Err(parse_error());
        }
        Ok(
            OffsetDateTime {
                year: y as i32,
                month: mo,
                day: d,
                hour: h,
                minute: mi,
                second: 0,
                millisecond: 0,
                offset_hours,
            },
        )
    }

    /// Reformat a `YYYYMMDD` date string as `YYYY.MM.DD`; anything that
    /// is not eight digits forming a valid Gregorian date is a
    /// `ParseError`.
    pub fn convert_to_dot_date(input: &str) -> (r: Result<String, OffsetDateTimeError>)
        ensures
            r is Ok <==> date8_ok(input@) && valid_date_gregorian(
                date8_year(input@),
                date8_month(input@),
                date8_day(input@),
            ),
            r matches Ok(out) ==> out@ == dot_date_seq(
                date8_year(input@),
                date8_month(input@),
                date8_day(input@),
            ),
            r matches Err(e) ==> e matches OffsetDateTimeError::ParseError(_),
    {
        let (y, mo, d) = match parse_date8(input) {
            Some(v) => v,
            None => {
                return Err(parse_error());
            },
        };
        if mo < 1 || mo > 12 || d < 1 || d > days_in_month_gregorian_exec(y as i32, mo) {
            return Err(parse_error());
        }
        let out = push_dec4(String::new(), y);
        let out = out.concat(".");
        let out = push_dec2(out, mo);
        let out = out.concat(".");
        let out = push_dec2(out, d);
        proof {
            reveal_strlit(".");
            assert(out@ =~= dot_date_seq(
                date8_year(input@),
                date8_month(input@),
                date8_day(input@),
            ));
        }
        Ok(out)
    }

    /// Whether the fields form a valid instant under the exact Gregorian
    /// rule; what the Unix timestamp conversions require of their input.
    pub fn is_gregorian_valid(&self) -> (r: bool)
        ensures
            r == self.gregorian_valid(),
    {
        if self.year < -9999 || self.year > 9999 || self.month < 1 || self.month > 12 {
            return false;
        }
        self.day >= 1 && self.day <= days_in_month_gregorian_exec(self.year, self.month)
            && self.hour < 24 && self.minute < 60 && self.second < 60 && self.millisecond < 1000
            && self.offset_hours >= -25 && self.offset_hours <= 25
    }

    /// The hour field.
    pub fn hour(&self) -> (r: u8)
        ensures
            r == self.hour,
    {
        self.hour
    }

    /// The minute field.
    pub fn minute(&self) -> (r: u8)
        ensures
            r == self.minute,
    {
        self.minute
    }

    /// The second field.
    pub fn second(&self) -> (r: u8)
        ensures
            r == self.second,
    {
        self.second
    }

    /// The millisecond field.
    pub fn millisecond(&self) -> (r: u16)
        ensures
            r == self.millisecond,
    {
        self.millisecond
    }

    /// The year field.
    pub fn year(&self) -> (r: i32)
        ensures
            r == self.year,
    {
        self.year
    }

    /// The month field, one through twelve.
    pub fn month(&self) -> (r: u8)
        ensures
            r == self.month,
    {
        self.month
    }

    /// The day-of-month field.
    pub fn day(&self) -> (r: u8)
        ensures
            r == self.day,
    {
        self.day
    }

    /// The whole-hour UTC offset.
    pub fn offset(&self) -> (r: i8)
        ensures
            r == self.offset_hours,
    {
        self.offset_hours
    }
}

/// The error every template mismatch reports.
fn parse_error() -> (r: OffsetDateTimeError)
    ensures
        r matches OffsetDateTimeError::ParseError(_),
{
    OffsetDateTimeError::ParseError("input does not match the expected template".to_owned())
}

/// A digit string of at most four characters stays below ten thousand;
/// shorter ones stay below the matching power of ten.
proof fn lemma_digits_val_small_bound(s: Seq<char>)
    requires
        all_digits(s),
    ensures
        digits_val(s) >= 0,
        s.len() <= 1 ==> digits_val(s) < 10,
        s.len() <= 2 ==> digits_val(s) < 100,
        s.len() <= 3 ==> digits_val(s) < 1000,
        s.len() <= 4 ==> digits_val(s) < 10000,
    decreases s.len(),
{
    if s.len() > 0 {
        assert(all_digits(s.drop_last())) by {
            assert(forall|i: int|
                0 <= i < s.drop_last().len() ==> #[trigger] s.drop_last()[i] == s[i]);
        }
        lemma_digits_val_small_bound(s.drop_last());
    }
}

/// In a thirteen-character compact string, the four trailing digits are
/// exactly the two two-digit fields.
proof fn lemma_split_four_digits(s: Seq<char>)
    requires
        s.len() == 13,
    ensures
        all_digits(s.subrange(9, 13)) == (all_digits(s.subrange(9, 11)) && all_digits(
            s.subrange(11, 13),
        )),
        s.subrange(9, 11) == s.subrange(9, 13).subrange(0, 2),
        s.subrange(11, 13) == s.subrange(9, 13).subrange(2, 4),
{
    assert(s.subrange(9, 11) =~= s.subrange(9, 13).subrange(0, 2));
    assert(s.subrange(11, 13) =~= s.subrange(9, 13).subrange(2, 4));
    if all_digits(s.subrange(9, 11)) && all_digits(s.subrange(11, 13)) {
        assert forall|i: int| 0 <= i < 4 implies crate::digits::is_digit(
            #[trigger] s.subrange(9, 13)[i],
        ) by {
            if i < 2 {
                assert(s.subrange(9, 13)[i] == s.subrange(9, 11)[i]);
            } else {
                assert(s.subrange(9, 13)[i] == s.subrange(11, 13)[i - 2]);
            }
        }
    }
    if all_digits(s.subrange(9, 13)) {
        assert forall|i: int| 0 <= i < 2 implies crate::digits::is_digit(
            #[trigger] s.subrange(9, 11)[i],
        ) by {
            assert(s.subrange(9, 11)[i] == s.subrange(9, 13)[i]);
        }
        assert forall|i: int| 0 <= i < 2 implies crate::digits::is_digit(
            #[trigger] s.subrange(11, 13)[i],
        ) by {
            assert(s.subrange(11, 13)[i] == s.subrange(9, 13)[i + 2]);
        }
    }
}

/// Read a `YYYYMMDD` string into its year, month and day values.
fn parse_date8(s: &str) -> (r: Option<(u16, u8, u8)>)
    ensures
        r matches Some(v) ==> date8_ok(s@) && v.0 == date8_year(s@) && v.1 == date8_month(s@)
            && v.2 == date8_day(s@) && v.0 <= 9999 && v.1 <= 99 && v.2 <= 99,
        r is None ==> !date8_ok(s@),
{
    let n = s.unicode_len();
    if n != 8 {
        return None;
    }
    let year_val = parse_digits_max(s, 0, 4, 9999);
    let month_val = parse_u8_digits(s, 4, 6);
    let day_val = parse_u8_digits(s, 6, 8);
    proof {
        if all_digits(s@.subrange(0, 4)) {
            lemma_digits_val_small_bound(s@.subrange(0, 4));
        }
        if all_digits(s@.subrange(4, 6)) {
            lemma_digits_val_small_bound(s@.subrange(4, 6));
        }
        if all_digits(s@.subrange(6, 8)) {
            lemma_digits_val_small_bound(s@.subrange(6, 8));
        }
        if all_digits(s@) {
            assert(forall|i: int| 0 <= i < 4 ==> s@.subrange(0, 4)[i] == #[trigger] s@[i]);
            assert(forall|i: int| 0 <= i < 2 ==> s@.subrange(4, 6)[i] == #[trigger] s@[i + 4]);
            assert(forall|i: int| 0 <= i < 2 ==> s@.subrange(6, 8)[i] == #[trigger] s@[i + 6]);
        }
    }
    match (year_val, month_val, day_val) {
        (Some(y), Some(mo), Some(d)) => {
            proof {
                assert forall|i: int| 0 <= i < 8 implies crate::digits::is_digit(
                    #[trigger] s@[i],
                ) by {
                    if i < 4 {
                        assert(s@[i] == s@.subrange(0, 4)[i]);
                    } else if i < 6 {
                        assert(s@[i] == s@.subrange(4, 6)[i - 4]);
                    } else {
                        assert(s@[i] == s@.subrange(6, 8)[i - 6]);
                    }
                }
                assert(all_digits(s@));
            }
            Some((y as u16, mo, d))
        },
        _ => None,
    }
}

/// Append the four-digit year, a minus sign in front of negative years.
fn push_year4(s: String, y: i32) -> (r: String)
    requires
        -9999 <= y <= 9999,
    ensures
        r@ == s@ + year4_seq(y as int),
{
    if y < 0 {
        let s1 = s.concat("-");
        let s2 = push_dec4(s1, (-y) as u16);
        proof {
            reveal_strlit("-");
            assert(s2@ =~= s@ + year4_seq(y as int));
        }
        s2
    } else {
        push_dec4(s, y as u16)
    }
}

/// Render the fields of a valid instant as
/// `YYYY-MM-DD HH:MM:SS±HH:MM`.
fn render_display(t: &OffsetDateTime) -> (r: String)
    requires
        t.valid(),
    ensures
        r@ == display_seq(
            t.year as int,
            t.month as int,
            t.day as int,
            t.hour as int,
            t.minute as int,
            t.second as int,
            t.offset_hours as int,
        ),
{
    let s = push_year4(String::new(), t.year);
    let s = s.concat("-");
    let s = push_dec2(s, t.month);
    let s = s.concat("-");
    let s = push_dec2(s, t.day);
    let s = s.concat(" ");
    let s = push_dec2(s, t.hour);
    let s = s.concat(":");
    let s = push_dec2(s, t.minute);
    let s = s.concat(":");
    let s = push_dec2(s, t.second);
    let s = if t.offset_hours < 0 {
        let s1 = s.concat("-");
        push_dec2(s1, (-(t.offset_hours as i64)) as u8)
    } else {
        let s1 = s.concat("+");
        push_dec2(s1, t.offset_hours as u8)
    };
    let s = s.concat(":00");
    proof {
        reveal_strlit("-");
        reveal_strlit(" ");
        reveal_strlit(":");
        reveal_strlit("+");
        reveal_strlit(":00");
        assert(s@ =~= display_seq(
            t.year as int,
            t.month as int,
            t.day as int,
            t.hour as int,
            t.minute as int,
            t.second as int,
            t.offset_hours as int,
        ));
    }
    s
}

/// Render the fields of a valid instant at UTC+8 as
/// `YYYY年MM月DD日 HH时MM分SS秒 +08:00`.
fn render_chinese(t: &OffsetDateTime) -> (r: String)
    requires
        t.valid(),
    ensures
        r@ == chinese_seq(
            t.year as int,
            t.month as int,
            t.day as int,
            t.hour as int,
            t.minute as int,
            t.second as int,
        ),
{
    let s = push_year4(String::new(), t.year);
    let s = s.concat("\u{5e74}");
    let s = push_dec2(s, t.month);
    let s = s.concat("\u{6708}");
    let s = push_dec2(s, t.day);
    let s = s.concat("\u{65e5} ");
    let s = push_dec2(s, t.hour);
    let s = s.concat("\u{65f6}");
    let s = push_dec2(s, t.minute);
    let s = s.concat("\u{5206}");
    let s = push_dec2(s, t.second);
    let s = s.concat("\u{79d2} +08:00");
    proof {
        reveal_strlit("\u{5e74}");
        reveal_strlit("\u{6708}");
        reveal_strlit("\u{65e5} ");
        reveal_strlit("\u{65f6}");
        reveal_strlit("\u{5206}");
        reveal_strlit("\u{79d2} +08:00");
        assert(s@ =~= chinese_seq(
            t.year as int,
            t.month as int,
            t.day as int,
            t.hour as int,
            t.minute as int,
            t.second as int,
        ));
    }
    s
}

/// The calendar successor of a valid date of the simplified calendar.
fn next_date_exec(y: i32, m: u8, d: u8) -> (r: (i32, u8, u8))
    requires
        valid_date_simple(y as int, m as int, d as int),
        !(y == 9999 && m == 12 && d == 31),
    ensures
        (r.0 as int, r.1 as int, r.2 as int) == next_date_simple(y as int, m as int, d as int),
        valid_date_simple(r.0 as int, r.1 as int, r.2 as int),
        day_number_simple(r.0 as int, r.1 as int, r.2 as int) == day_number_simple(
            y as int,
            m as int,
            d as int,
        ) + 1,
{
    proof {
        lemma_next_date_simple(y as int, m as int, d as int);
    }
    let dim = days_in_month_simple_exec(y, m);
    if d < dim {
        (y, m, d + 1)
    } else if m < 12 {
        (y, m + 1, 1)
    } else {
        (y + 1, 1, 1)
    }
}

/// The calendar predecessor of a valid date of the simplified calendar.
fn prev_date_exec(y: i32, m: u8, d: u8) -> (r: (i32, u8, u8))
    requires
        valid_date_simple(y as int, m as int, d as int),
        !(y == -9999 && m == 1 && d == 1),
    ensures
        (r.0 as int, r.1 as int, r.2 as int) == prev_date_simple(y as int, m as int, d as int),
        valid_date_simple(r.0 as int, r.1 as int, r.2 as int),
        day_number_simple(r.0 as int, r.1 as int, r.2 as int) == day_number_simple(
            y as int,
            m as int,
            d as int,
        ) - 1,
{
    proof {
        lemma_prev_date_simple(y as int, m as int, d as int);
    }
    if d > 1 {
        (y, m, d - 1)
    } else if m > 1 {
        (y, m - 1, days_in_month_simple_exec(y, m - 1))
    } else {
        (y - 1, 12, 31)
    }
}

/// Days of year `y` that precede month `m` in the simplified calendar.
fn month_prefix_simple_exec(y: i32, m: u8) -> (r: u16)
    requires
        -9999 <= y <= 9999,
        1 <= m <= 12,
    ensures
        r == month_prefix_simple(y as int, m as int),
{
    let base: u16 = if m <= 1 {
        0
    } else if m == 2 {
        31
    } else if m == 3 {
        59
    } else if m == 4 {
        90
    } else if m == 5 {
        120
    } else if m == 6 {
        151
    } else if m == 7 {
        181
    } else if m == 8 {
        212
    } else if m == 9 {
        243
    } else if m == 10 {
        273
    } else if m == 11 {
        304
    } else {
        334
    };
    if m >= 3 && is_leap_simple_exec(y) {
        base + 1
    } else {
        base
    }
}

/// The floor of a quarter of `x`, for the year arithmetic.
fn quarter_floor(x: i64) -> (r: i64)
    requires
        -10001 <= x <= 10000,
    ensures
        r == x / 4,
{
    proof {
        vstd::arithmetic::div_mod::lemma_hoist_over_denominator(x as int, 10000, 4);
    }
    ((x + 40000) as u64 / 4) as i64 - 10000
}

/// The day number of a valid date of the simplified calendar.
pub fn day_number_simple_exec(y: i32, m: u8, d: u8) -> (r: i64)
    requires
        valid_date_simple(y as int, m as int, d as int),
    ensures
        r == day_number_simple(y as int, m as int, d as int),
        -4400000 <= r <= 4400000,
{
    let yb: i64 = 365 * (y as i64 - 1) + quarter_floor(y as i64 - 1);
    proof {
        assert(-3650000 <= 365 * (y as int - 1) <= 3649270) by (nonlinear_arith)
            requires
                -9999 <= y <= 9999,
        ;
        vstd::arithmetic::div_mod::lemma_div_is_ordered(-10000, y as int - 1, 4);
        vstd::arithmetic::div_mod::lemma_div_is_ordered(y as int - 1, 9998, 4);
    }
    let mp = month_prefix_simple_exec(y, m);
    yb + mp as i64 + d as i64 - 1
}

/// The weekday index of a valid instant's date, Monday as zero.
fn weekday_to_u8_index(t: &OffsetDateTime) -> (r: u8)
    requires
        t.valid(),
    ensures
        r == t.weekday_index_of(),
        r <= 6,
{
    let dn = day_number_simple_exec(t.year, t.month, t.day);
    let idx = (dn + 6).checked_rem_euclid(7).unwrap();
    idx as u8
}

/// Stepping back by the weekday index lands on a Monday.
proof fn lemma_weekday_shift_to_monday(dn: int, widx: int)
    requires
        widx == (dn + 6) % 7,
    ensures
        ((dn - widx) + 6) % 7 == 0,
{
    vstd::arithmetic::div_mod::lemma_fundamental_div_mod(dn + 6, 7);
    vstd::arithmetic::div_mod::lemma_mod_multiples_vanish((dn + 6) / 7, 0, 7);
}

/// Stepping forward to close the week lands on a Sunday.
proof fn lemma_weekday_shift_to_sunday(dn: int, widx: int)
    requires
        widx == (dn + 6) % 7,
    ensures
        ((dn + 6 - widx) + 6) % 7 == 6,
{
    vstd::arithmetic::div_mod::lemma_fundamental_div_mod(dn + 6, 7);
    vstd::arithmetic::div_mod::lemma_mod_multiples_vanish((dn + 6) / 7 + 1, -1, 7);
}

/// Whether year `y` is a leap year of the simplified calendar.
pub fn is_leap_simple_exec(y: i32) -> (r: bool)
    requires
        -9999 <= y <= 9999,
    ensures
        r == is_leap_simple(y as int),
{
    let shifted = (y as i64 + 40000) as u64;
    proof {
        vstd::arithmetic::div_mod::lemma_mod_multiples_vanish(10000, y as int, 4);
    }
    shifted % 4 == 0
}

/// Whether year `y` is a leap year of the Gregorian calendar.
pub fn is_leap_gregorian_exec(y: i32) -> (r: bool)
    requires
        -9999 <= y <= 9999,
    ensures
        r == is_leap_gregorian(y as int),
{
    let shifted = (y as i64 + 40000) as u64;
    proof {
        vstd::arithmetic::div_mod::lemma_mod_multiples_vanish(10000, y as int, 4);
        vstd::arithmetic::div_mod::lemma_mod_multiples_vanish(400, y as int, 100);
        vstd::arithmetic::div_mod::lemma_mod_multiples_vanish(100, y as int, 400);
    }
    shifted % 4 == 0 && (shifted % 100 != 0 || shifted % 400 == 0)
}

/// Length of month `m` of year `y` in the simplified calendar.
pub fn days_in_month_simple_exec(y: i32, m: u8) -> (r: u8)
    requires
        -9999 <= y <= 9999,
        1 <= m <= 12,
    ensures
        r == days_in_month_simple(y as int, m as int),
{
    if m == 2 {
        if is_leap_simple_exec(y) {
            29
        } else {
            28
        }
    } else if m == 4 || m == 6 || m == 9 || m == 11 {
        30
    } else {
        31
    }
}

/// Length of month `m` of year `y` in the Gregorian calendar.
pub fn days_in_month_gregorian_exec(y: i32, m: u8) -> (r: u8)
    requires
        -9999 <= y <= 9999,
        1 <= m <= 12,
    ensures
        r == days_in_month_gregorian(y as int, m as int),
{
    if m == 2 {
        if is_leap_gregorian_exec(y) {
            29
        } else {
            28
        }
    } else if m == 4 || m == 6 || m == 9 || m == 11 {
        30
    } else {
        31
    }
}

} // verus!
