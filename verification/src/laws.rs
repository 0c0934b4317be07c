//! Laws that relate several operations of the crate, stated and proved
//! over the same spec functions the operations' contracts use.

use vstd::prelude::*;

use crate::calendar::abs_of;
use crate::calendar::align_down;
use crate::calendar::civil_of;
use crate::calendar::lemma_align_down_idempotent;
use crate::calendar::lemma_civil_of_eq;
use crate::calendar::seconds_of_day;
use crate::calendar::unix_of;
use crate::calendar::valid_date_gregorian;
use crate::calendar::valid_hms;
use crate::calendar::valid_offset_hours;
use crate::offset_time::display_seq_of;
use crate::offset_time::lemma_display_seq_parses_back;
use crate::offset_time::parse_display_seq;
use crate::offset_time::OffsetDateTime;
use crate::wall_time::Time;

verus! {

/// Round trip through the millisecond timestamp: an instant built by
/// `from_milliseconds` — its whole seconds are the count divided by a
/// thousand and its millisecond field the remainder — gives the original
/// count back from `milli_timestamp`.
pub proof fn lemma_milli_timestamp_round_trip(t: OffsetDateTime, timestamp: u64)
    requires
        t.unix_seconds() == timestamp / 1000,
        t.millisecond == timestamp % 1000,
    ensures
        1000 * t.unix_seconds() + t.millisecond == timestamp,
{
    vstd::arithmetic::div_mod::lemma_fundamental_div_mod(timestamp as int, 1000);
}

/// Alignment is idempotent: aligning the result of `align_to` to the
/// same interval leaves its seconds-of-day count unchanged.
pub proof fn lemma_align_to_idempotent(t: Time, once: Time, interval: i64)
    requires
        t.valid(),
        interval != 0,
        once.spec_seconds() == align_down(t.spec_seconds(), abs_of(interval as int)),
    ensures
        align_down(once.spec_seconds(), abs_of(interval as int)) == once.spec_seconds(),
{
    lemma_align_down_idempotent(t.spec_seconds(), abs_of(interval as int));
}

/// `duration_to_time` of an instant's own hour, minute and second is
/// zero for every instant without a millisecond part: the value its
/// contract gives is the zero remainder.
pub proof fn lemma_duration_to_own_time_is_zero(a: OffsetDateTime)
    requires
        a.valid(),
        a.millisecond == 0,
    ensures
        (1000 * seconds_of_day(a.hour as int, a.minute as int, a.second as int) - (1000
            * a.spec_seconds() + a.millisecond)) % 86400000 == 0,
{
}

/// Round trip through the display string: whatever valid fields `c` the
/// offset conversion yields for an instant `a` at offset `offset_hours`
/// — they are unique, and `to_display_string` renders exactly them —
/// parsing the rendered string back recovers those fields and the
/// offset, and the fields still denote `a`'s absolute instant.
pub proof fn lemma_display_round_trip(
    a: OffsetDateTime,
    offset_hours: i8,
    c: (int, int, int, int, int, int),
)
    requires
        a.gregorian_valid(),
        valid_offset_hours(offset_hours as int),
        valid_date_gregorian(c.0, c.1, c.2),
        valid_hms(c.3, c.4, c.5),
        unix_of(c.0, c.1, c.2, c.3, c.4, c.5, offset_hours as int) == a.unix_seconds(),
    ensures
        civil_of(a.unix_seconds(), offset_hours as int) == c,
        parse_display_seq(display_seq_of(c, offset_hours as int)) == Some(
            (c.0, c.1, c.2, c.3, c.4, c.5, offset_hours as int),
        ),
{
    lemma_civil_of_eq(a.unix_seconds(), offset_hours as int, c.0, c.1, c.2, c.3, c.4, c.5);
    lemma_display_seq_parses_back(c.0, c.1, c.2, c.3, c.4, c.5, offset_hours as int);
}

} // verus!
