//! A wall-clock time of day: hour, minute and second, with no date and no
//! UTC offset attached.

use vstd::prelude::*;

use crate::calendar::abs_of;
use crate::calendar::align_down;
use crate::calendar::lemma_align_down_bounds;
use crate::calendar::lemma_seconds_of_day_split;
use crate::calendar::seconds_of_day;
use crate::calendar::valid_hms;
use crate::digits::all_digits;
use crate::digits::dec1or2;
use crate::digits::dec2;
use crate::digits::digits_val;
use crate::digits::parse_u8_digits;
use crate::digits::push_dec1or2;
use crate::digits::push_dec2;
use vstd::arithmetic::div_mod::lemma_small_mod;
use vstd::string::StrSliceExecFns;
use vstd::string::StringExecFns;

verus! {

/// The compact rendering of a wall-clock time: hour unpadded, minute
/// zero-padded to two digits.
pub open spec fn shorten_of(h: int, m: int) -> Seq<char> {
    dec1or2(h) + seq![':'] + dec2(m)
}

/// Index of the first colon of `s` at or after position `i`, or minus one
/// when there is none.
pub open spec fn first_colon_from(s: Seq<char>, i: int) -> int
    decreases s.len() - i,
{
    if i < 0 || i >= s.len() {
        -1
    } else if s[i] == ':' {
        i
    } else {
        first_colon_from(s, i + 1)
    }
}

/// A field the wall-clock parser accepts: nonempty, decimal digits only,
/// value at most 255.
pub open spec fn numeric_u8_field(f: Seq<char>) -> bool {
    f.len() > 0 && all_digits(f) && digits_val(f) <= 255
}

/// The shape `Time::from_str` accepts: two numeric fields separated by the
/// string's only colon.
pub open spec fn hm_format_ok(s: Seq<char>) -> bool {
    let p = first_colon_from(s, 0);
    p >= 0 && numeric_u8_field(s.take(p)) && numeric_u8_field(s.skip(p + 1))
}

/// The hour field's value of a string of the accepted shape.
pub open spec fn hm_hour(s: Seq<char>) -> int {
    digits_val(s.take(first_colon_from(s, 0)))
}

/// The minute field's value of a string of the accepted shape.
pub open spec fn hm_minute(s: Seq<char>) -> int {
    digits_val(s.skip(first_colon_from(s, 0) + 1))
}

/// Errors of the wall-clock operations.
#[derive(Debug)]
pub enum TimeError {
    /// The string is not two colon-separated numeric fields.
    InvalidFormat(String),
    /// Hour or minute is out of range.
    InvalidComponents(u8, u8),
    /// Zeroing the seconds failed; never produced by this crate.
    ResetSecondsError(Time),
    /// A seconds-of-day count outside `[0, 86400)`.
    InvalidSeconds(i64),
    /// A zero alignment interval.
    InvalidAlignmentUnit(u64),
    /// An addition failed; never produced by this crate.
    AddTimeError(Time),
}

/// A time of day, seconds precision.
#[derive(Clone, Copy, Debug, PartialEq, Eq, Structural)]
pub struct Time {
    pub hour: u8,
    pub minute: u8,
    pub second: u8,
}

impl Time {
    /// The fields are in range: hour below 24, minute and second below 60.
    pub open spec fn valid(self) -> bool {
        valid_hms(self.hour as int, self.minute as int, self.second as int)
    }

    /// Seconds since midnight.
    pub open spec fn spec_seconds(self) -> int {
        seconds_of_day(self.hour as int, self.minute as int, self.second as int)
    }

    /// Construct a time of day from its fields.
    pub fn from_hms(hour: u8, minute: u8, second: u8) -> (r: Time)
        requires
            valid_hms(hour as int, minute as int, second as int),
        ensures
            r.valid(),
            r.hour == hour,
            r.minute == minute,
            r.second == second,
    {
        Time { hour, minute, second }
    }

    /// Total seconds since midnight: `hour * 3600 + minute * 60 + second`.
    pub fn to_seconds(&self) -> (r: i64)
        requires
            self.valid(),
        ensures
            r == self.spec_seconds(),
            0 <= r < 86400,
    {
        self.hour as i64 * 3600 + self.minute as i64 * 60 + self.second as i64
    }

    /// The time of day whose seconds-of-day count is `seconds`; rejects
    /// counts outside `[0, 86400)` with `InvalidSeconds`.
    pub fn from_seconds(seconds: i64) -> (r: Result<Time, TimeError>)
        ensures
            r is Ok <==> 0 <= seconds < 86400,
            r matches Ok(t) ==> t.valid() && t.spec_seconds() == seconds,
            r matches Err(e) ==> e matches TimeError::InvalidSeconds(s) && s == seconds,
    {
        if seconds < 0 || seconds >= 24 * 3600 {
            return Err(TimeError::InvalidSeconds(seconds));
        }
        Ok(Time::from_sod(seconds as u64))
    }

    /// The time of day `sod` seconds after midnight.
    fn from_sod(sod: u64) -> (r: Time)
        requires
            sod < 86400,
        ensures
            r.valid(),
            r.spec_seconds() == sod,
    {
        let hours = (sod / 3600) as u8;
        let minutes = ((sod % 3600) / 60) as u8;
        let secs = (sod % 60) as u8;
        proof {
            lemma_seconds_of_day_split(sod as int);
        }
        Time { hour: hours, minute: minutes, second: secs }
    }

    /// Floor the seconds-of-day count to a multiple of `interval`; a
    /// negative interval aligns like its absolute value, and zero is
    /// rejected with `InvalidAlignmentUnit`.
    pub fn align_to(&self, interval: i64) -> (r: Result<Time, TimeError>)
        requires
            self.valid(),
        ensures
            r is Ok <==> interval != 0,
            r matches Ok(t) ==> t.valid() && t.spec_seconds() == align_down(
                self.spec_seconds(),
                abs_of(interval as int),
            ),
            r matches Err(e) ==> e matches TimeError::InvalidAlignmentUnit(u) && u == 0,
    {
        if interval == 0 {
            return Err(TimeError::InvalidAlignmentUnit(0));
        }
        let sod = self.to_seconds() as u64;
        let unit: u64 = if interval == i64::MIN {
            9223372036854775808
        } else if interval < 0 {
            (-interval) as u64
        } else {
            interval as u64
        };
        proof {
            lemma_align_down_bounds(sod as int, unit as int);
        }
        let aligned = (sod / unit) * unit;
        Ok(Time::from_sod(aligned))
    }

    /// Add `delta` minutes, wrapping modulo 24 hours with a non-negative
    /// remainder; the seconds field is unchanged.
    pub fn add_minutes(&self, delta: i64) -> (r: Time)
        requires
            self.valid(),
            delta + 1439 <= i64::MAX,
        ensures
            r.valid(),
            r.hour * 60 + r.minute == (self.hour * 60 + self.minute + delta) % 1440,
            r.second == self.second,
    {
        let total: i64 = self.hour as i64 * 60 + self.minute as i64 + delta;
        let normalized: i64 = total.checked_rem_euclid(1440).unwrap();
        let hours = (normalized / 60) as u8;
        let minutes = (normalized % 60) as u8;
        proof {
            assert(0 <= normalized < 1440 && (normalized / 60) * 60 + normalized % 60
                == normalized && normalized / 60 < 24 && normalized % 60 < 60)
                by (nonlinear_arith)
                requires
                    normalized == (total as int) % 1440,
            ;
        }
        Time { hour: hours, minute: minutes, second: self.second }
    }

    /// True when both times fall in the same minute: hour and minute equal,
    /// seconds ignored.
    pub fn is_same_minute(&self, other: &Time) -> (r: bool)
        ensures
            r == (self.hour == other.hour && self.minute == other.minute),
    {
        self.minute == other.minute && self.hour == other.hour
    }

    /// Zero the seconds field, keeping hour and minute. Always succeeds.
    pub fn reset_minute(&self) -> (r: Result<Time, TimeError>)
        requires
            self.valid(),
        ensures
            r matches Ok(t) && t.hour == self.hour && t.minute == self.minute && t.second == 0,
    {
        Ok(Time { hour: self.hour, minute: self.minute, second: 0 })
    }

    /// Inclusive range test. When `start <= end` this is plain containment;
    /// when `start > end` the range wraps past midnight and the test is
    /// `self >= start || self <= end`.
    pub fn is_between(&self, start: Time, end: Time) -> (r: bool)
        requires
            self.valid(),
            start.valid(),
            end.valid(),
        ensures
            start.spec_seconds() <= end.spec_seconds() ==> r == (start.spec_seconds()
                <= self.spec_seconds() <= end.spec_seconds()),
            start.spec_seconds() > end.spec_seconds() ==> r == (self.spec_seconds()
                >= start.spec_seconds() || self.spec_seconds() <= end.spec_seconds()),
    {
        let t = self.to_seconds();
        let s = start.to_seconds();
        let e = end.to_seconds();
        if s <= e {
            t >= s && t <= e
        } else {
            t >= s || t <= e
        }
    }

    /// Time since `right` on a 24-hour dial: `self - right`, plus 24 hours
    /// when that is negative, so the result is always in `[0, 86400)`
    /// seconds.
    pub fn sub_ext(&self, right: Time) -> (r: i64)
        requires
            self.valid(),
            right.valid(),
        ensures
            r == (self.spec_seconds() - right.spec_seconds()) % 86400,
            0 <= r < 86400,
    {
        let diff = self.to_seconds() - right.to_seconds();
        let r = if diff < 0 {
            24 * 3600 + diff
        } else {
            diff
        };
        proof {
            assert(r == (self.spec_seconds() - right.spec_seconds()) % 86400)
                by (nonlinear_arith)
                requires
                    -86400 < diff < 86400,
                    diff == self.spec_seconds() - right.spec_seconds(),
                    r == if diff < 0 { 86400 + diff } else { diff as int },
            ;
        }
        r
    }

    /// A wall-clock time has no date to advance: the value is returned
    /// unchanged.
    pub fn next_day(&self) -> (r: Time)
        ensures
            r == *self,
    {
        *self
    }

    /// One hour later on the dial, wrapping at midnight.
    pub fn next_hour(&self) -> (r: Time)
        requires
            self.valid(),
        ensures
            r.valid(),
            r.spec_seconds() == (self.spec_seconds() + 3600) % 86400,
    {
        let next_hour = (self.hour + 1) % 24;
        let r = Time { hour: next_hour, minute: self.minute, second: self.second };
        proof {
            lemma_wrap_step(self.spec_seconds(), r.spec_seconds(), 3600);
        }
        r
    }

    /// One minute later on the dial, wrapping at midnight; seconds
    /// unchanged.
    pub fn next_minute(&self) -> (r: Time)
        requires
            self.valid(),
        ensures
            r.valid(),
            r.spec_seconds() == (self.spec_seconds() + 60) % 86400,
    {
        let r = if self.minute == 59 {
            let next_hour = (self.hour + 1) % 24;
            Time { hour: next_hour, minute: 0, second: self.second }
        } else {
            Time { hour: self.hour, minute: self.minute + 1, second: self.second }
        };
        proof {
            lemma_wrap_step(self.spec_seconds(), r.spec_seconds(), 60);
        }
        r
    }

    /// One second later on the dial, wrapping at midnight.
    pub fn next_second(&self) -> (r: Time)
        requires
            self.valid(),
        ensures
            r.valid(),
            r.spec_seconds() == (self.spec_seconds() + 1) % 86400,
    {
        let r = if self.second == 59 {
            if self.minute == 59 {
                let next_hour = (self.hour + 1) % 24;
                Time { hour: next_hour, minute: 0, second: 0 }
            } else {
                Time { hour: self.hour, minute: self.minute + 1, second: 0 }
            }
        } else {
            Time { hour: self.hour, minute: self.minute, second: self.second + 1 }
        };
        proof {
            lemma_wrap_step(self.spec_seconds(), r.spec_seconds(), 1);
        }
        r
    }

    /// Seconds contributed by the hour field alone: `hour * 3600`.
    pub fn to_hour_seconds(&self) -> (r: i64)
        ensures
            r == 3600 * self.hour,
    {
        self.hour as i64 * 3600
    }

    /// Seconds contributed by hour and minute: `hour * 3600 + minute * 60`.
    pub fn to_minute_seconds(&self) -> (r: i64)
        ensures
            r == 3600 * self.hour + 60 * self.minute,
    {
        self.hour as i64 * 3600 + self.minute as i64 * 60
    }

    /// Render as `H:MM`: the hour unpadded, the minute zero-padded to two
    /// digits.
    pub fn to_shorten(&self) -> (r: String)
        requires
            self.valid(),
        ensures
            r@ == shorten_of(self.hour as int, self.minute as int),
    {
        let s = String::new();
        let s = push_dec1or2(s, self.hour);
        let s = s.concat(":");
        let s = push_dec2(s, self.minute);
        proof {
            reveal_strlit(":");
            assert(s@ =~= shorten_of(self.hour as int, self.minute as int));
        }
        s
    }

    /// Parse `H:MM` or `HH:MM`, the seconds forced to zero. A string that
    /// is not two colon-separated numeric fields is `InvalidFormat`; an
    /// hour of 24 or more or a minute of 60 or more is
    /// `InvalidComponents`.
    pub fn from_str(time_str: &str) -> (r: Result<Time, TimeError>)
        ensures
            ({
                let s = time_str@;
                &&& (r is Ok <==> hm_format_ok(s) && hm_hour(s) < 24 && hm_minute(s) < 60)
                &&& (r matches Ok(t) ==> t.valid() && t.hour == hm_hour(s) && t.minute
                    == hm_minute(s) && t.second == 0)
                &&& (r matches Err(e) ==> (if hm_format_ok(s) {
                    e matches TimeError::InvalidComponents(h, m) && h == hm_hour(s) && m
                        == hm_minute(s)
                } else {
                    e matches TimeError::InvalidFormat(orig) && orig@ == s
                }))
            }),
    {
        let ghost s = time_str@;
        let n = time_str.unicode_len();
        let colon = match find_colon(time_str) {
            Some(p) => p,
            None => {
                return Err(TimeError::InvalidFormat(time_str.to_owned()));
            },
        };
        if colon == 0 || colon + 1 == n {
            proof {
                if colon == 0 {
                    assert(s.take(0).len() == 0);
                } else {
                    assert(s.skip(colon + 1).len() == 0);
                }
            }
            return Err(TimeError::InvalidFormat(time_str.to_owned()));
        }
        let hour_val = parse_u8_digits(time_str, 0, colon);
        let minute_val = parse_u8_digits(time_str, colon + 1, n);
        proof {
            assert(s.subrange(0, colon as int) =~= s.take(colon as int));
            assert(s.subrange(colon + 1, s.len() as int) =~= s.skip(colon + 1));
        }
        match (hour_val, minute_val) {
            (Some(h), Some(m)) => {
                if h < 24 && m < 60 {
                    Ok(Time { hour: h, minute: m, second: 0 })
                } else {
                    Err(TimeError::InvalidComponents(h, m))
                }
            },
            _ => Err(TimeError::InvalidFormat(time_str.to_owned())),
        }
    }

    /// The hour field.
    pub fn hour(&self) -> (r: u8)
        ensures
            r == self.hour,
    {
        self.hour
    }

    /// The minute field.
    pub fn minute(&self) -> (r: u8)
        ensures
            r == self.minute,
    {
        self.minute
    }

    /// The second field.
    pub fn second(&self) -> (r: u8)
        ensures
            r == self.second,
    {
        self.second
    }
}

/// Position of the first colon of `s`, scanning left to right.
fn find_colon(s: &str) -> (r: Option<usize>)
    ensures
        r matches Some(p) ==> p < s@.len() && first_colon_from(s@, 0) == p,
        r is None ==> first_colon_from(s@, 0) == -1,
{
    let n = s.unicode_len();
    let mut i: usize = 0;
    while i < n
        invariant
            i <= n == s@.len(),
            first_colon_from(s@, 0) == first_colon_from(s@, i as int),
        decreases n - i,
    {
        let c = s.get_char(i);
        if c == ':' {
            return Some(i);
        }
        i = i + 1;
    }
    None
}

/// A time of day moved forward by `step` seconds lands on the dial position
/// `(sod + step) % 86400` when the move either stays inside the day or
/// wraps to the start.
proof fn lemma_wrap_step(sod: int, moved: int, step: int)
    requires
        0 < step < 86400,
        0 <= sod < 86400,
        moved == sod + step || moved == sod + step - 86400,
        0 <= moved < 86400,
    ensures
        moved == (sod + step) % 86400,
{
    if moved == sod + step {
        lemma_small_mod((sod + step) as nat, 86400);
    } else {
        assert(moved == (sod + step) % 86400) by (nonlinear_arith)
            requires
                moved == sod + step - 86400,
                86400 <= sod + step < 2 * 86400,
                0 <= moved < 86400,
        ;
    }
}

} // verus!
