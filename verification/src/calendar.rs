//! The mathematical model of the calendar shared by every contract in the
//! crate: leap-year rules, month lengths, day numbering and the
//! seconds-of-day arithmetic.
//!
//! Two leap-year rules coexist on purpose. Calendar navigation (the `next_*`
//! and `start_of_*`/`end_of_*` family) runs on a simplified calendar whose
//! only leap condition is divisibility by four, while parsing and the Unix
//! epoch conversions use the exact proleptic Gregorian rule. Every date that
//! is valid under the Gregorian rule is also valid under the simplified one.

use vstd::prelude::*;

verus! {

/// The simplified leap-year rule: every fourth year, century years included.
pub open spec fn is_leap_simple(y: int) -> bool {
    y % 4 == 0
}

/// The exact proleptic Gregorian leap-year rule.
pub open spec fn is_leap_gregorian(y: int) -> bool {
    y % 4 == 0 && (y % 100 != 0 || y % 400 == 0)
}

/// Length of month `m` of year `y` under the simplified rule.
pub open spec fn days_in_month_simple(y: int, m: int) -> int {
    if m == 2 {
        if is_leap_simple(y) {
            29
        } else {
            28
        }
    } else if m == 4 || m == 6 || m == 9 || m == 11 {
        30
    } else {
        31
    }
}

/// Length of month `m` of year `y` under the Gregorian rule.
pub open spec fn days_in_month_gregorian(y: int, m: int) -> int {
    if m == 2 {
        if is_leap_gregorian(y) {
            29
        } else {
            28
        }
    } else if m == 4 || m == 6 || m == 9 || m == 11 {
        30
    } else {
        31
    }
}

/// Days of a common year that precede month `m`.
pub open spec fn month_prefix_common(m: int) -> int {
    if m <= 1 {
        0
    } else if m == 2 {
        31
    } else if m == 3 {
        59
    } else if m == 4 {
        90
    } else if m == 5 {
        120
    } else if m == 6 {
        151
    } else if m == 7 {
        181
    } else if m == 8 {
        212
    } else if m == 9 {
        243
    } else if m == 10 {
        273
    } else if m == 11 {
        304
    } else {
        334
    }
}

/// Days of year `y` that precede month `m`, under the simplified rule.
pub open spec fn month_prefix_simple(y: int, m: int) -> int {
    month_prefix_common(m) + if m >= 3 && is_leap_simple(y) {
        1int
    } else {
        0int
    }
}

/// Days of year `y` that precede month `m`, under the Gregorian rule.
pub open spec fn month_prefix_gregorian(y: int, m: int) -> int {
    month_prefix_common(m) + if m >= 3 && is_leap_gregorian(y) {
        1int
    } else {
        0int
    }
}

/// Length of year `y` under the simplified rule.
pub open spec fn year_length_simple(y: int) -> int {
    if is_leap_simple(y) {
        366
    } else {
        365
    }
}

/// Day count of the years before year `y` under the simplified rule,
/// measured from year 1.
pub open spec fn year_base_simple(y: int) -> int {
    365 * (y - 1) + (y - 1) / 4
}

/// Day count of the years before year `y` under the Gregorian rule,
/// measured from year 1.
pub open spec fn year_base_gregorian(y: int) -> int {
    365 * (y - 1) + (y - 1) / 4 - (y - 1) / 100 + (y - 1) / 400
}

/// Day number of a date in the simplified calendar; 1-01-01 is day zero.
pub open spec fn day_number_simple(y: int, m: int, d: int) -> int {
    year_base_simple(y) + month_prefix_simple(y, m) + d - 1
}

/// Day number of a date in the proleptic Gregorian calendar; 1-01-01 is day
/// zero.
pub open spec fn day_number_gregorian(y: int, m: int, d: int) -> int {
    year_base_gregorian(y) + month_prefix_gregorian(y, m) + d - 1
}

/// The years the crate can represent; the same bound the Unix conversions
/// support.
pub open spec fn year_in_range(y: int) -> bool {
    -9999 <= y <= 9999
}

/// A calendar date valid under the simplified rule.
pub open spec fn valid_date_simple(y: int, m: int, d: int) -> bool {
    year_in_range(y) && 1 <= m <= 12 && 1 <= d <= days_in_month_simple(y, m)
}

/// A calendar date valid under the Gregorian rule.
pub open spec fn valid_date_gregorian(y: int, m: int, d: int) -> bool {
    year_in_range(y) && 1 <= m <= 12 && 1 <= d <= days_in_month_gregorian(y, m)
}

/// Every Gregorian-valid date is valid in the simplified calendar as well.
pub proof fn lemma_gregorian_valid_implies_simple(y: int, m: int, d: int)
    requires
        valid_date_gregorian(y, m, d),
    ensures
        valid_date_simple(y, m, d),
{
}

/// The whole-hour UTC offsets an offset value can be built from.
pub open spec fn valid_offset_hours(h: int) -> bool {
    -25 <= h <= 25
}

/// Day number of the first day the crate can represent.
pub open spec fn min_day_number() -> int {
    day_number_simple(-9999, 1, 1)
}

/// Day number of the last day the crate can represent.
pub open spec fn max_day_number() -> int {
    day_number_simple(9999, 12, 31)
}

/// The calendar successor of a date in the simplified calendar.
pub open spec fn next_date_simple(y: int, m: int, d: int) -> (int, int, int) {
    if d < days_in_month_simple(y, m) {
        (y, m, d + 1)
    } else if m < 12 {
        (y, m + 1, 1)
    } else {
        (y + 1, 1, 1)
    }
}

/// The calendar predecessor of a date in the simplified calendar.
pub open spec fn prev_date_simple(y: int, m: int, d: int) -> (int, int, int) {
    if d > 1 {
        (y, m, d - 1)
    } else if m > 1 {
        (y, m - 1, days_in_month_simple(y, m - 1))
    } else {
        (y - 1, 12, 31)
    }
}

/// Dividing by a positive constant steps exactly at its multiples.
proof fn lemma_div_step(y: int, k: int)
    requires
        0 < k,
    ensures
        y / k - (y - 1) / k == if y % k == 0 {
            1int
        } else {
            0int
        },
{
    let q0 = y / k;
    let r0 = y % k;
    vstd::arithmetic::div_mod::lemma_fundamental_div_mod(y, k);
    vstd::arithmetic::div_mod::lemma_mod_division_less_than_divisor(y, k);
    let q1: int = if r0 == 0 {
        q0 - 1
    } else {
        q0
    };
    let r1: int = if r0 == 0 {
        k - 1
    } else {
        r0 - 1
    };
    assert(y - 1 == q1 * k + r1) by (nonlinear_arith)
        requires
            y == k * q0 + r0,
            0 <= r0 < k,
            q1 == if r0 == 0 { q0 - 1 } else { q0 },
            r1 == if r0 == 0 { k - 1 } else { r0 - 1 },
    ;
    vstd::arithmetic::div_mod::lemma_fundamental_div_mod_converse(y - 1, k, q1, r1);
}

/// One year in the simplified calendar spans exactly its year length of
/// days.
pub proof fn lemma_year_base_step(y: int)
    ensures
        year_base_simple(y + 1) - year_base_simple(y) == year_length_simple(y),
{
    lemma_div_step(y, 4);
}

/// The calendar successor of a valid date short of the last representable
/// day is valid and lies exactly one day later.
pub proof fn lemma_next_date_simple(y: int, m: int, d: int)
    requires
        valid_date_simple(y, m, d),
        !(y == 9999 && m == 12 && d == 31),
    ensures
        ({
            let (ny, nm, nd) = next_date_simple(y, m, d);
            valid_date_simple(ny, nm, nd) && day_number_simple(ny, nm, nd) == day_number_simple(
                y,
                m,
                d,
            ) + 1
        }),
{
    if d < days_in_month_simple(y, m) {
    } else if m < 12 {
    } else {
        lemma_year_base_step(y);
    }
}

/// The calendar predecessor of a valid date after the first representable
/// day is valid and lies exactly one day earlier.
pub proof fn lemma_prev_date_simple(y: int, m: int, d: int)
    requires
        valid_date_simple(y, m, d),
        !(y == -9999 && m == 1 && d == 1),
    ensures
        ({
            let (py, pm, pd) = prev_date_simple(y, m, d);
            valid_date_simple(py, pm, pd) && day_number_simple(py, pm, pd) == day_number_simple(
                y,
                m,
                d,
            ) - 1
        }),
{
    if d > 1 {
    } else if m > 1 {
    } else {
        lemma_year_base_step(y - 1);
    }
}

/// Within one year of the simplified calendar, a later month starts
/// after every day of an earlier one.
proof fn lemma_month_prefix_simple_ordered(y: int, m1: int, m2: int)
    requires
        1 <= m1 < m2 <= 12,
    ensures
        month_prefix_simple(y, m1) + days_in_month_simple(y, m1) <= month_prefix_simple(y, m2),
    decreases m2 - m1,
{
    if m2 > m1 + 1 {
        lemma_month_prefix_simple_ordered(y, m1, m2 - 1);
    }
}

/// Simplified year bases grow by at least 365 days a year.
proof fn lemma_year_base_simple_monotone(a: int, b: int)
    requires
        a <= b,
    ensures
        year_base_simple(b) - year_base_simple(a) >= 365 * (b - a),
    decreases b - a,
{
    if a < b {
        lemma_year_base_simple_monotone(a, b - 1);
        lemma_year_base_step(b - 1);
    }
}

/// Two valid dates of the simplified calendar with one day number are
/// one date: a day number identifies the date.
pub proof fn lemma_day_number_simple_injective(
    y1: int,
    m1: int,
    d1: int,
    y2: int,
    m2: int,
    d2: int,
)
    requires
        1 <= m1 <= 12 && 1 <= d1 <= days_in_month_simple(y1, m1),
        1 <= m2 <= 12 && 1 <= d2 <= days_in_month_simple(y2, m2),
        day_number_simple(y1, m1, d1) == day_number_simple(y2, m2, d2),
    ensures
        y1 == y2 && m1 == m2 && d1 == d2,
{
    lemma_day_number_simple_year_range(y1, m1, d1);
    lemma_day_number_simple_year_range(y2, m2, d2);
    if y1 < y2 {
        lemma_year_base_simple_monotone(y1 + 1, y2);
    } else if y2 < y1 {
        lemma_year_base_simple_monotone(y2 + 1, y1);
    }
    if m1 < m2 {
        lemma_month_prefix_simple_ordered(y1, m1, m2);
    } else if m2 < m1 {
        lemma_month_prefix_simple_ordered(y1, m2, m1);
    }
}

/// A valid date of year `y` lies between the simplified year bases of
/// `y` and `y + 1`.
pub proof fn lemma_day_number_simple_year_range(y: int, m: int, d: int)
    requires
        1 <= m <= 12,
        1 <= d <= days_in_month_simple(y, m),
    ensures
        year_base_simple(y) <= day_number_simple(y, m, d) < year_base_simple(y + 1),
{
    lemma_year_base_step(y);
}

/// The date reached from a date by taking its calendar successor `n`
/// times in the simplified calendar.
pub open spec fn nth_next_date_simple(y: int, m: int, d: int, n: nat) -> (int, int, int)
    decreases n,
{
    if n == 0 {
        (y, m, d)
    } else {
        let (ny, nm, nd) = next_date_simple(y, m, d);
        nth_next_date_simple(ny, nm, nd, (n - 1) as nat)
    }
}

/// From any valid date of year `y`, taking as many successors as days
/// remain in the year lands on the first day of year `y + 1`.
proof fn lemma_nth_next_reaches_new_year(y: int, m: int, d: int)
    requires
        valid_date_simple(y, m, d),
        y < 9999,
    ensures
        day_number_simple(y, m, d) < day_number_simple(y + 1, 1, 1),
        nth_next_date_simple(
            y,
            m,
            d,
            (day_number_simple(y + 1, 1, 1) - day_number_simple(y, m, d)) as nat,
        ) == (y + 1, 1int, 1int),
    decreases day_number_simple(y + 1, 1, 1) - day_number_simple(y, m, d),
{
    lemma_day_number_simple_year_range(y, m, d);
    lemma_next_date_simple(y, m, d);
    let (ny, nm, nd) = next_date_simple(y, m, d);
    let rem = day_number_simple(y + 1, 1, 1) - day_number_simple(y, m, d);
    assert(rem >= 1);
    assert(nth_next_date_simple(y, m, d, rem as nat) == nth_next_date_simple(
        ny,
        nm,
        nd,
        (rem - 1) as nat,
    ));
    if ny == y + 1 {
        assert(nm == 1 && nd == 1);
        assert(rem == 1);
        assert(nth_next_date_simple(ny, nm, nd, 0) == (ny, nm, nd));
    } else {
        assert(ny == y);
        lemma_nth_next_reaches_new_year(ny, nm, nd);
    }
}

/// Taking the calendar successor once per day of a year carries the
/// first of January to the first of January of the next year; the year
/// length follows the simplified leap rule, so a year divisible by four
/// always counts 366 days.
pub proof fn lemma_next_day_year_cycle(y: int)
    requires
        -9999 <= y < 9999,
    ensures
        nth_next_date_simple(y, 1, 1, year_length_simple(y) as nat) == (y + 1, 1int, 1int),
{
    lemma_year_base_step(y);
    lemma_nth_next_reaches_new_year(y, 1, 1);
}

/// The first second of the Unix epoch, as a day number of the proleptic
/// Gregorian calendar.
pub open spec fn epoch_day_number() -> int {
    day_number_gregorian(1970, 1, 1)
}

/// The Unix timestamp in whole seconds of calendar fields read at a
/// whole-hour UTC offset.
pub open spec fn unix_of(y: int, m: int, d: int, h: int, mi: int, s: int, offset_hours: int) -> int {
    (day_number_gregorian(y, m, d) - epoch_day_number()) * 86400 + seconds_of_day(h, mi, s) - 3600
        * offset_hours
}

/// The smallest Unix timestamp whose instant the crate's year range can
/// represent in UTC.
pub const MIN_UNIX_SECONDS: i64 = -377705116800;

/// The largest Unix timestamp whose instant the crate's year range can
/// represent in UTC.
pub const MAX_UNIX_SECONDS: i64 = 253402300799;

/// The two Unix range bounds are the first and last representable second
/// of the calendar, read in UTC.
pub proof fn lemma_unix_range_bounds()
    ensures
        MIN_UNIX_SECONDS == unix_of(-9999, 1, 1, 0, 0, 0, 0),
        MAX_UNIX_SECONDS == unix_of(9999, 12, 31, 23, 59, 59, 0),
{
}

/// One year of the Gregorian calendar spans 365 days, or 366 in a leap
/// year.
pub proof fn lemma_year_base_gregorian_step(y: int)
    ensures
        year_base_gregorian(y + 1) - year_base_gregorian(y) == 365 + if is_leap_gregorian(y) {
            1int
        } else {
            0int
        },
{
    lemma_div_step(y, 4);
    lemma_div_step(y, 100);
    lemma_div_step(y, 400);
    if y % 400 == 0 {
        let q = y / 400;
        vstd::arithmetic::div_mod::lemma_fundamental_div_mod(y, 400);
        assert(y == (100 * q) * 4 && y == (4 * q) * 100) by (nonlinear_arith)
            requires
                y == 400 * q,
        ;
        vstd::arithmetic::div_mod::lemma_mod_multiples_basic(100 * q, 4);
        vstd::arithmetic::div_mod::lemma_mod_multiples_basic(4 * q, 100);
    } else if y % 100 == 0 {
        let q = y / 100;
        vstd::arithmetic::div_mod::lemma_fundamental_div_mod(y, 100);
        assert(y == (25 * q) * 4) by (nonlinear_arith)
            requires
                y == 100 * q,
        ;
        vstd::arithmetic::div_mod::lemma_mod_multiples_basic(25 * q, 4);
    }
}

/// Year bases of the Gregorian calendar grow by at least 365 days a
/// year.
proof fn lemma_year_base_gregorian_monotone(a: int, b: int)
    requires
        a <= b,
    ensures
        year_base_gregorian(b) - year_base_gregorian(a) >= 365 * (b - a),
    decreases b - a,
{
    if a < b {
        lemma_year_base_gregorian_monotone(a, b - 1);
        lemma_year_base_gregorian_step(b - 1);
    }
}

/// A valid date of year `y` lies between the year bases of `y` and
/// `y + 1`.
proof fn lemma_day_number_gregorian_year_range(y: int, m: int, d: int)
    requires
        1 <= m <= 12,
        1 <= d <= days_in_month_gregorian(y, m),
    ensures
        year_base_gregorian(y) <= day_number_gregorian(y, m, d) < year_base_gregorian(y + 1),
{
    lemma_year_base_gregorian_step(y);
}

/// Within one year, a later month starts after every day of an earlier
/// one.
proof fn lemma_month_prefix_gregorian_ordered(y: int, m1: int, m2: int)
    requires
        1 <= m1 < m2 <= 12,
    ensures
        month_prefix_gregorian(y, m1) + days_in_month_gregorian(y, m1) <= month_prefix_gregorian(
            y,
            m2,
        ),
    decreases m2 - m1,
{
    if m2 > m1 + 1 {
        lemma_month_prefix_gregorian_ordered(y, m1, m2 - 1);
    }
}

/// Two valid Gregorian dates with one day number are one date.
pub proof fn lemma_day_number_gregorian_injective(
    y1: int,
    m1: int,
    d1: int,
    y2: int,
    m2: int,
    d2: int,
)
    requires
        1 <= m1 <= 12 && 1 <= d1 <= days_in_month_gregorian(y1, m1),
        1 <= m2 <= 12 && 1 <= d2 <= days_in_month_gregorian(y2, m2),
        day_number_gregorian(y1, m1, d1) == day_number_gregorian(y2, m2, d2),
    ensures
        y1 == y2 && m1 == m2 && d1 == d2,
{
    lemma_day_number_gregorian_year_range(y1, m1, d1);
    lemma_day_number_gregorian_year_range(y2, m2, d2);
    if y1 < y2 {
        lemma_year_base_gregorian_monotone(y1 + 1, y2);
    } else if y2 < y1 {
        lemma_year_base_gregorian_monotone(y2 + 1, y1);
    }
    if m1 < m2 {
        lemma_month_prefix_gregorian_ordered(y1, m1, m2);
    } else if m2 < m1 {
        lemma_month_prefix_gregorian_ordered(y1, m2, m1);
    }
}

/// Two valid instants at one offset with one Unix timestamp have one set
/// of calendar fields.
pub proof fn lemma_unix_of_injective(
    y1: int,
    m1: int,
    d1: int,
    h1: int,
    mi1: int,
    s1: int,
    y2: int,
    m2: int,
    d2: int,
    h2: int,
    mi2: int,
    s2: int,
    off: int,
)
    requires
        valid_date_gregorian(y1, m1, d1),
        valid_hms(h1, mi1, s1),
        valid_date_gregorian(y2, m2, d2),
        valid_hms(h2, mi2, s2),
        unix_of(y1, m1, d1, h1, mi1, s1, off) == unix_of(y2, m2, d2, h2, mi2, s2, off),
    ensures
        y1 == y2 && m1 == m2 && d1 == d2 && h1 == h2 && mi1 == mi2 && s1 == s2,
{
    let dn1 = day_number_gregorian(y1, m1, d1);
    let dn2 = day_number_gregorian(y2, m2, d2);
    let sod1 = seconds_of_day(h1, mi1, s1);
    let sod2 = seconds_of_day(h2, mi2, s2);
    lemma_seconds_of_day_bounds(h1, mi1, s1);
    lemma_seconds_of_day_bounds(h2, mi2, s2);
    assert(dn1 == dn2) by (nonlinear_arith)
        requires
            (dn1 - epoch_day_number()) * 86400 + sod1 == (dn2 - epoch_day_number()) * 86400 + sod2,
            0 <= sod1 < 86400,
            0 <= sod2 < 86400,
    ;
    lemma_day_number_gregorian_injective(y1, m1, d1, y2, m2, d2);
}

/// The unique calendar fields whose Unix timestamp at offset
/// `offset_hours` is `secs`: the inverse of `unix_of`.
pub open spec fn civil_of(secs: int, offset_hours: int) -> (int, int, int, int, int, int) {
    choose|c: (int, int, int, int, int, int)|
        valid_date_gregorian(c.0, c.1, c.2) && valid_hms(c.3, c.4, c.5) && unix_of(
            c.0,
            c.1,
            c.2,
            c.3,
            c.4,
            c.5,
            offset_hours,
        ) == secs
}

/// Any valid fields with Unix timestamp `secs` at offset `offset_hours`
/// are exactly `civil_of(secs, offset_hours)`.
pub proof fn lemma_civil_of_eq(
    secs: int,
    offset_hours: int,
    y: int,
    m: int,
    d: int,
    h: int,
    mi: int,
    s: int,
)
    requires
        valid_date_gregorian(y, m, d),
        valid_hms(h, mi, s),
        unix_of(y, m, d, h, mi, s, offset_hours) == secs,
    ensures
        civil_of(secs, offset_hours) == (y, m, d, h, mi, s),
{
    let w = (y, m, d, h, mi, s);
    assert(valid_date_gregorian(w.0, w.1, w.2) && valid_hms(w.3, w.4, w.5) && unix_of(
        w.0,
        w.1,
        w.2,
        w.3,
        w.4,
        w.5,
        offset_hours,
    ) == secs);
    let c = civil_of(secs, offset_hours);
    lemma_unix_of_injective(
        c.0,
        c.1,
        c.2,
        c.3,
        c.4,
        c.5,
        y,
        m,
        d,
        h,
        mi,
        s,
        offset_hours,
    );
}

/// A Unix timestamp of a representable instant fits comfortably in a
/// signed 64-bit count of milliseconds.
pub proof fn lemma_unix_of_bounds(y: int, m: int, d: int, h: int, mi: int, s: int, off: int)
    requires
        valid_date_gregorian(y, m, d),
        valid_hms(h, mi, s),
        valid_offset_hours(off),
    ensures
        -450_000_000_000 <= unix_of(y, m, d, h, mi, s, off) <= 450_000_000_000,
{
    vstd::arithmetic::div_mod::lemma_div_is_ordered(-10000, y - 1, 4);
    vstd::arithmetic::div_mod::lemma_div_is_ordered(y - 1, 9998, 4);
    vstd::arithmetic::div_mod::lemma_div_is_ordered(-10000, y - 1, 100);
    vstd::arithmetic::div_mod::lemma_div_is_ordered(y - 1, 9998, 100);
    vstd::arithmetic::div_mod::lemma_div_is_ordered(-10000, y - 1, 400);
    vstd::arithmetic::div_mod::lemma_div_is_ordered(y - 1, 9998, 400);
    assert(-3650000 <= 365 * (y - 1) <= 3649270) by (nonlinear_arith)
        requires
            -9999 <= y <= 9999,
    ;
    assert(-4400000 <= day_number_gregorian(y, m, d) <= 4400000);
    assert((day_number_gregorian(y, m, d) - epoch_day_number()) * 86400 >= -449999999999
        && (day_number_gregorian(y, m, d) - epoch_day_number()) * 86400 <= 449999999999)
        by (nonlinear_arith)
        requires
            -5200000 <= day_number_gregorian(y, m, d) - epoch_day_number() <= 5200000,
    ;
}

/// Seconds since midnight of a time of day.
pub open spec fn seconds_of_day(h: int, m: int, s: int) -> int {
    3600 * h + 60 * m + s
}

/// A valid time of day.
pub open spec fn valid_hms(h: int, m: int, s: int) -> bool {
    0 <= h < 24 && 0 <= m < 60 && 0 <= s < 60
}

/// Splitting a seconds-of-day count back into hour, minute and second
/// inverts `seconds_of_day`.
pub proof fn lemma_seconds_of_day_split(s: int)
    requires
        0 <= s < 86400,
    ensures
        valid_hms(s / 3600, (s % 3600) / 60, s % 60),
        seconds_of_day(s / 3600, (s % 3600) / 60, s % 60) == s,
{
    assert(valid_hms(s / 3600, (s % 3600) / 60, s % 60)
        && seconds_of_day(s / 3600, (s % 3600) / 60, s % 60) == s) by (nonlinear_arith)
        requires
            0 <= s < 86400,
    ;
}

/// The absolute value of an integer.
pub open spec fn abs_of(n: int) -> int {
    if n < 0 {
        -n
    } else {
        n
    }
}

/// The largest multiple of `n` that is at most `s`.
pub open spec fn align_down(s: int, n: int) -> int {
    (s / n) * n
}

/// Flooring a seconds-of-day count to a multiple of a positive interval
/// stays inside the day and below the count itself.
pub proof fn lemma_align_down_bounds(s: int, n: int)
    requires
        0 <= s,
        1 <= n,
    ensures
        0 <= align_down(s, n) <= s,
{
    assert(0 <= (s / n) * n <= s) by (nonlinear_arith)
        requires
            0 <= s,
            1 <= n,
    ;
}

/// Flooring to a multiple of `n` is idempotent.
pub proof fn lemma_align_down_idempotent(s: int, n: int)
    requires
        0 <= s,
        1 <= n,
    ensures
        align_down(align_down(s, n), n) == align_down(s, n),
{
    assert(((s / n) * n) / n == s / n) by (nonlinear_arith)
        requires
            1 <= n,
    ;
}

/// `seconds_of_day` of a valid time of day stays inside one day, and the
/// split recovers the fields.
pub proof fn lemma_seconds_of_day_bounds(h: int, m: int, s: int)
    requires
        valid_hms(h, m, s),
    ensures
        0 <= seconds_of_day(h, m, s) < 86400,
        seconds_of_day(h, m, s) / 3600 == h,
        (seconds_of_day(h, m, s) % 3600) / 60 == m,
        seconds_of_day(h, m, s) % 60 == s,
{
    assert(0 <= seconds_of_day(h, m, s) < 86400 && seconds_of_day(h, m, s) / 3600 == h
        && (seconds_of_day(h, m, s) % 3600) / 60 == m && seconds_of_day(h, m, s) % 60 == s)
        by (nonlinear_arith)
        requires
            valid_hms(h, m, s),
    ;
}

} // verus!
