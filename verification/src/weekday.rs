//! Days of the week, numbered from Monday.

use vstd::prelude::*;

verus! {

/// A day of the week.
#[derive(Clone, Copy, Debug, PartialEq, Eq, Structural)]
pub enum Weekday {
    Monday,
    Tuesday,
    Wednesday,
    Thursday,
    Friday,
    Saturday,
    Sunday,
}

/// The index of a weekday, Monday first.
pub open spec fn weekday_index(w: Weekday) -> int {
    match w {
        Weekday::Monday => 0,
        Weekday::Tuesday => 1,
        Weekday::Wednesday => 2,
        Weekday::Thursday => 3,
        Weekday::Friday => 4,
        Weekday::Saturday => 5,
        Weekday::Sunday => 6,
    }
}

/// The weekday of index `i`, Monday first.
pub open spec fn weekday_of_index(i: int) -> Weekday {
    if i == 0 {
        Weekday::Monday
    } else if i == 1 {
        Weekday::Tuesday
    } else if i == 2 {
        Weekday::Wednesday
    } else if i == 3 {
        Weekday::Thursday
    } else if i == 4 {
        Weekday::Friday
    } else if i == 5 {
        Weekday::Saturday
    } else {
        Weekday::Sunday
    }
}

/// Number a weekday from zero: Monday is 0 through Sunday at 6.
pub fn weekday_to_u8(weekday: Weekday) -> (r: u8)
    ensures
        r == weekday_index(weekday),
{
    match weekday {
        Weekday::Monday => 0,
        Weekday::Tuesday => 1,
        Weekday::Wednesday => 2,
        Weekday::Thursday => 3,
        Weekday::Friday => 4,
        Weekday::Saturday => 5,
        Weekday::Sunday => 6,
    }
}

} // verus!
