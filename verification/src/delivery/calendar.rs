//! Dates of the Gregorian calendar.

use vstd::prelude::*;

verus! {

/// A date.
#[derive(Debug, Clone, Copy, PartialEq, Eq, Structural)]
pub struct CivilDate {
    pub year: u64,
    pub month: u64,
    pub day: u64,
}

pub open spec fn is_leap_year(year: int) -> bool {
    year % 4 == 0 && (year % 100 != 0 || year % 400 == 0)
}

pub open spec fn days_in_month(year: int, month: int) -> int {
    if month == 2 {
        if is_leap_year(year) {
            29
        } else {
            28
        }
    } else if month == 4 || month == 6 || month == 9 || month == 11 {
        30
    } else {
        31
    }
}

/// How many leap years there are from year 1 up to, but without, `year`.
pub open spec fn leap_years_before(year: int) -> int {
    (year - 1) / 4 - (year - 1) / 100 + (year - 1) / 400
}

/// How many days lie between the start of 1970 and that of `year`.
pub open spec fn days_before_year(year: int) -> int {
    365 * (year - 1970) + leap_years_before(year) - leap_years_before(1970)
}

/// How many days of `year` come before `month`.
pub open spec fn days_before_month(year: int, month: int) -> int
    decreases month,
{
    if month <= 1 {
        0
    } else {
        days_before_month(year, month - 1) + days_in_month(year, month - 1)
    }
}

impl CivilDate {
    /// Whether the calendar has this date.
    pub open spec fn exists_in_calendar(self) -> bool {
        1 <= self.month <= 12 && 1 <= self.day <= days_in_month(
            self.year as int,
            self.month as int,
        )
    }

    /// How many days after the first of January 1970 the date is.
    pub open spec fn day_number(self) -> int {
        days_before_year(self.year as int) + days_before_month(
            self.year as int,
            self.month as int,
        ) + self.day - 1
    }
}

/// How many days lie between the first of March of year 0 and that of `year`.
spec fn march_days(year: int) -> int {
    365 * year + year / 4 - year / 100 + year / 400
}

proof fn lemma_march_days(era: int, century: int, olympiad: int, rest: int)
    requires
        0 <= era,
        0 <= century <= 3,
        0 <= olympiad <= 24,
        0 <= rest <= 3,
    ensures
        march_days(400 * era + 100 * century + 4 * olympiad + rest) == 146097 * era + 36524
            * century + 1461 * olympiad + 365 * rest,
{
    let year = 400 * era + 100 * century + 4 * olympiad + rest;
    assert(year / 4 == 100 * era + 25 * century + olympiad);
    assert(year / 100 == 4 * era + century);
    assert(year / 400 == era);
}

/// The first of March comes after January and February.
proof fn lemma_before_march(year: int)
    requires
        year >= 1,
    ensures
        days_before_year(year) + days_before_month(year, 3) == march_days(year) - 719468,
        days_before_year(year) == march_days(year - 1) - 719162,
{
    reveal_with_fuel(days_before_month, 4);
    assert(leap_years_before(1970) == 477);
    assert(year / 4 - (year - 1) / 4 == if year % 4 == 0 {
        1int
    } else {
        0int
    });
    assert(year / 100 - (year - 1) / 100 == if year % 100 == 0 {
        1int
    } else {
        0int
    });
    assert(year / 400 - (year - 1) / 400 == if year % 400 == 0 {
        1int
    } else {
        0int
    });
}

/// Where the months from March on start.
proof fn lemma_months(year: int)
    ensures
        days_before_month(year, 4) == days_before_month(year, 3) + 31,
        days_before_month(year, 5) == days_before_month(year, 3) + 61,
        days_before_month(year, 6) == days_before_month(year, 3) + 92,
        days_before_month(year, 7) == days_before_month(year, 3) + 122,
        days_before_month(year, 8) == days_before_month(year, 3) + 153,
        days_before_month(year, 9) == days_before_month(year, 3) + 184,
        days_before_month(year, 10) == days_before_month(year, 3) + 214,
        days_before_month(year, 11) == days_before_month(year, 3) + 245,
        days_before_month(year, 12) == days_before_month(year, 3) + 275,
        days_before_month(year, 1) == 0,
        days_before_month(year, 2) == 31,
{
    reveal_with_fuel(days_before_month, 14);
}

/// The date that is so many days after the first of January 1970.
pub fn civil_from_days(days: u64) -> (r: CivilDate)
    requires
        days <= 0x7fff_ffff_ffff,
    ensures
        r.exists_in_calendar(),
        r.day_number() == days,
        1970 <= r.year,
{
    let shifted: u64 = days + 719_468;
    let era: u64 = shifted / 146_097;
    let day_of_era: u64 = shifted % 146_097;
    let century: u64 = if day_of_era / 36_524 < 3 {
        day_of_era / 36_524
    } else {
        3
    };
    let day_of_century: u64 = day_of_era - 36_524 * century;
    let olympiad: u64 = day_of_century / 1_461;
    let day_of_olympiad: u64 = day_of_century - 1_461 * olympiad;
    let rest: u64 = if day_of_olympiad / 365 < 3 {
        day_of_olympiad / 365
    } else {
        3
    };
    let day_of_year: u64 = day_of_olympiad - 365 * rest;
    let march_year: u64 = 400 * era + 100 * century + 4 * olympiad + rest;
    let month_from_march: u64 = (5 * day_of_year + 2) / 153;
    let day: u64 = day_of_year - (153 * month_from_march + 2) / 5 + 1;
    let (year, month): (u64, u64) = if month_from_march < 10 {
        (march_year, month_from_march + 3)
    } else {
        (march_year + 1, month_from_march - 9)
    };
    proof {
        lemma_march_days(era as int, century as int, olympiad as int, rest as int);
        assert(march_days(march_year as int) + day_of_year == shifted);
        assert(day_of_year <= 365);
        let next = march_year + 1;
        if day_of_year == 365 {
            assert(rest == 3);
            assert(next == 400 * era + 100 * century + 4 * (olympiad + 1));
            assert(is_leap_year(next as int)) by {
                assert(next % 4 == 0);
                if olympiad == 24 {
                    assert(century == 3);
                    assert(next == 400 * (era + 1));
                    assert(next % 400 == 0);
                } else {
                    assert(next % 100 == 4 * (olympiad + 1));
                }
            }
        }
        if month_from_march < 10 {
            lemma_before_march(march_year as int);
            lemma_months(march_year as int);
        } else {
            lemma_before_march(next as int);
            lemma_months(next as int);
        }
    }
    CivilDate { year, month, day }
}

/// No two dates have the same number.
pub proof fn dates_are_told_apart_by_their_numbers(a: CivilDate, b: CivilDate)
    requires
        a.exists_in_calendar(),
        b.exists_in_calendar(),
        a.year >= 1,
        b.year >= 1,
        a.day_number() == b.day_number(),
    ensures
        a == b,
{
    lemma_within_year(a);
    lemma_within_year(b);
    if a.year < b.year {
        lemma_years_grow(a.year as int, b.year as int);
    } else if b.year < a.year {
        lemma_years_grow(b.year as int, a.year as int);
    } else if a.month < b.month {
        lemma_months_grow(a.year as int, a.month as int, b.month as int);
    } else if b.month < a.month {
        lemma_months_grow(a.year as int, b.month as int, a.month as int);
    }
}

proof fn lemma_months_grow(year: int, m: int, n: int)
    requires
        1 <= m < n <= 13,
    ensures
        days_before_month(year, m) + days_in_month(year, m) <= days_before_month(year, n),
    decreases n - m,
{
    if m + 1 < n {
        lemma_months_grow(year, m, n - 1);
    }
}

proof fn lemma_within_year(date: CivilDate)
    requires
        date.exists_in_calendar(),
    ensures
        days_before_month(date.year as int, date.month as int) + date.day <= 365 + if is_leap_year(
            date.year as int,
        ) {
            1int
        } else {
            0int
        },
        0 <= days_before_month(date.year as int, date.month as int),
{
    let year = date.year as int;
    reveal_with_fuel(days_before_month, 14);
    if date.month < 13 {
        lemma_months_grow(year, date.month as int, 13);
    }
    if date.month > 1 {
        lemma_months_grow(year, 1, date.month as int);
    }
}

proof fn lemma_years_grow(a: int, b: int)
    requires
        1 <= a < b,
    ensures
        days_before_year(a) + 365 + (if is_leap_year(a) {
            1int
        } else {
            0int
        }) <= days_before_year(b),
    decreases b - a,
{
    if a + 1 < b {
        lemma_years_grow(a, b - 1);
        lemma_next_year(b - 1);
    } else {
        lemma_next_year(a);
    }
}

proof fn lemma_next_year(year: int)
    requires
        year >= 1,
    ensures
        days_before_year(year + 1) == days_before_year(year) + 365 + if is_leap_year(year) {
            1int
        } else {
            0int
        },
{
    assert(year / 4 - (year - 1) / 4 == if year % 4 == 0 {
        1int
    } else {
        0int
    });
    assert(year / 100 - (year - 1) / 100 == if year % 100 == 0 {
        1int
    } else {
        0int
    });
    assert(year / 400 - (year - 1) / 400 == if year % 400 == 0 {
        1int
    } else {
        0int
    });
}

/// The calendar counts its days one by one: the first of January 1970 has the
/// number 0, and the day after a date has the next number. After the last day
/// of a month comes the first of the next one, and after December January of
/// the next year.
pub proof fn days_are_counted_one_by_one(date: CivilDate)
    requires
        date.exists_in_calendar(),
        1 <= date.year < u64::MAX,
    ensures
        date.year == 1970 && date.month == 1 && date.day == 1 ==> date.day_number() == 0,
        ({
            let CivilDate { year, month, day } = date;
            let last = if month == 2 {
                if (year % 4 == 0 && year % 100 != 0) || year % 400 == 0 {
                    29u64
                } else {
                    28u64
                }
            } else if month == 4 || month == 6 || month == 9 || month == 11 {
                30u64
            } else {
                31u64
            };
            let next = if day < last {
                CivilDate { year, month, day: (day + 1) as u64 }
            } else if month < 12 {
                CivilDate { year, month: (month + 1) as u64, day: 1 }
            } else {
                CivilDate { year: (year + 1) as u64, month: 1, day: 1 }
            };
            &&& 1 <= day <= last
            &&& 1 <= month <= 12
            &&& next.exists_in_calendar()
            &&& next.day_number() == date.day_number() + 1
        }),
{
    lemma_months(date.year as int);
    lemma_months(date.year + 1);
    lemma_before_march(date.year as int);
    lemma_before_march(date.year + 1);
    reveal_with_fuel(days_before_month, 14);
}

} // verus!
