//! Exact Gregorian calendar dates with verified arithmetic.
//!
//! A [`Date`] is a plain (year, month, day) triple. The mathematical model of
//! a date is its day index: the signed number of days between it and the
//! anchor day 1970-01-01 (see [`day_index`]). All arithmetic contracts are
//! stated over that model, and the lexicographic order on (year, month, day)
//! is proved to agree with it on valid dates.

use vstd::prelude::*;

use crate::digits::{
    all_digits, dec_repr_pad, dec_value, digit_val, is_digit, lemma_dec_repr_pad_roundtrip,
    parse_u32, u32_to_dec_pad,
};

verus! {

/// Leap years are divisible by 4 and not by 100, unless divisible by 400.
pub open spec fn spec_is_leap_year(year: u32) -> bool {
    (year % 4 == 0 && year % 100 != 0) || year % 400 == 0
}

pub fn is_leap_year(year: u32) -> (r: bool)
    ensures
        r == spec_is_leap_year(year),
{
    (year % 4 == 0 && year % 100 != 0) || year % 400 == 0
}

/// Month lengths by the fixed table; February follows the leap-year rule.
/// Only defined for months 1 through 12.
pub open spec fn spec_days_in_month(month: u32, year: u32) -> u32 {
    if month == 2 {
        if spec_is_leap_year(year) {
            29
        } else {
            28
        }
    } else if month == 4 || month == 6 || month == 9 || month == 11 {
        30
    } else {
        31
    }
}

/// A month outside 1 through 12 is a contract violation, not a data error,
/// and is excluded by the precondition.
pub fn get_days_in_month(month: u32, year: u32) -> (r: u32)
    requires
        1 <= month <= 12,
    ensures
        r == spec_days_in_month(month, year),
{
    match month {
        1 | 3 | 5 | 7 | 8 | 10 | 12 => 31,
        4 | 6 | 9 | 11 => 30,
        _ => {
            if is_leap_year(year) {
                29
            } else {
                28
            }
        },
    }
}

/// A calendar day. The invariant that the triple names a real Gregorian day
/// is carried by contracts ([`valid_date`]) rather than enforced on
/// construction: `new` trusts its caller, as documented.
#[derive(Debug, Clone, Copy, PartialEq, Eq, Structural, Hash)]
pub struct Date {
    pub year: u32,
    /// The month, starting with 1 for January.
    pub month: u32,
    /// The day, starting at 1 each month.
    pub day: u32,
}

/// The triple names a real day of the Gregorian calendar.
pub open spec fn valid_date(d: Date) -> bool {
    1 <= d.month <= 12 && 1 <= d.day <= spec_days_in_month(d.month, d.year)
}

/// Days in a calendar year.
pub open spec fn spec_days_in_year(year: u32) -> int {
    if spec_is_leap_year(year) {
        366
    } else {
        365
    }
}

/// Signed day offset of January 1 of `year` from January 1 of 1970.
pub open spec fn spec_year_offset(year: u32) -> int
    decreases
            if year >= 1970 {
                year - 1970
            } else {
                1970 - year
            },
{
    if year == 1970 {
        0
    } else if year > 1970 {
        spec_year_offset((year - 1) as u32) + spec_days_in_year((year - 1) as u32)
    } else {
        spec_year_offset((year + 1) as u32) - spec_days_in_year(year)
    }
}

/// Days from the first of January of `year` to the first of `month`.
pub open spec fn spec_days_before_month(year: u32, month: u32) -> int
    decreases month,
{
    if month <= 1 {
        0
    } else {
        spec_days_before_month(year, (month - 1) as u32) + spec_days_in_month(
            (month - 1) as u32,
            year,
        )
    }
}

/// The day index: signed days between `d` and 1970-01-01. This is the
/// mathematical model of a date; it is strictly monotone in the
/// lexicographic (year, month, day) order on valid dates.
pub open spec fn day_index(d: Date) -> int {
    spec_year_offset(d.year) + spec_days_before_month(d.year, d.month) + d.day - 1
}

/// 1-based position of `d` within its year.
pub open spec fn spec_day_in_year(d: Date) -> int {
    spec_days_before_month(d.year, d.month) + d.day
}

impl Date {
    /// Trusts its caller to hand in a valid triple; nothing is rejected here.
    pub fn new(year: u32, month: u32, day: u32) -> (r: Date)
        ensures
            r == (Date { year, month, day }),
    {
        Date { year, month, day }
    }

    pub fn get_month_length(&self) -> (r: u32)
        requires
            1 <= self.month <= 12,
        ensures
            r == spec_days_in_month(self.month, self.year),
    {
        get_days_in_month(self.month, self.year)
    }

    pub fn is_leap_year(&self) -> (r: bool)
        ensures
            r == spec_is_leap_year(self.year),
    {
        is_leap_year(self.year)
    }
}

/// What the epoch-day counter returns: the day index for dates at or past
/// 1970; for earlier dates the year loop is empty and only the position
/// within the year remains.
pub open spec fn spec_days_since_epoch(d: Date) -> int {
    if d.year >= 1970 {
        day_index(d)
    } else {
        spec_day_in_year(d) - 1
    }
}

/// Day of the week, 0 through 6. The anchor is fixed by the epoch:
/// 1970-01-01 maps to 3, so 0 falls on Mondays.
pub open spec fn spec_week_day(d: Date) -> int {
    (spec_days_since_epoch(d) + 3) % 7
}

impl Date {
    /// Whether the triple names a real calendar day.
    pub fn is_valid(&self) -> (r: bool)
        ensures
            r == valid_date(*self),
    {
        1 <= self.month && self.month <= 12 && 1 <= self.day && self.day <= get_days_in_month(
            self.month,
            self.year,
        )
    }

    /// 1-based position of the day within its year.
    pub fn day_in_year(&self) -> (r: u32)
        requires
            valid_date(*self),
        ensures
            r == spec_day_in_year(*self),
    {
        let mut days: u32 = 0;
        let mut m: u32 = 1;
        while m < self.month
            invariant
                1 <= m <= self.month,
                days == spec_days_before_month(self.year, m),
                days <= 31 * (m - 1),
            decreases self.month - m,
        {
            days = days + get_days_in_month(m, self.year);
            m = m + 1;
        }
        days + self.day
    }

    /// Days since 1970-01-01. Monotone in calendar order for dates at or
    /// past the epoch; for earlier dates only the within-year position is
    /// counted. The year bound keeps the count within `u32`.
    pub fn days_since_epoch(&self) -> (r: u32)
        requires
            valid_date(*self),
            self.year <= 1_000_000,
        ensures
            r == spec_days_since_epoch(*self),
            r <= 366_000_366,
    {
        let mut days: u32 = 0;
        let mut y: u32 = 1970;
        proof {
            lemma_day_in_year_bounds(*self);
        }
        while y < self.year
            invariant
                1970 <= y,
                self.year >= 1970 ==> y <= self.year,
                self.year < 1970 ==> y == 1970,
                days == spec_year_offset(y),
                days <= 366 * (y - 1970),
                y <= 1_000_000,
            decreases self.year - y,
        {
            days = days + (if is_leap_year(y) {
                366
            } else {
                365
            });
            proof {
                lemma_year_offset_step((y + 1) as u32);
            }
            y = y + 1;
        }
        days + self.day_in_year() - 1
    }

    /// Week of the year, starting at 1.
    pub fn week_number(&self) -> (r: u32)
        requires
            valid_date(*self),
        ensures
            r == (spec_day_in_year(*self) + 1) / 7 + 1,
    {
        proof {
            lemma_day_in_year_bounds(*self);
        }
        (self.day_in_year() + 1) / 7 + 1
    }

    /// Day of the week, 0 through 6, with 0 on Mondays (1970-01-01, a
    /// Thursday, maps to 3).
    pub fn week_day(&self) -> (r: u32)
        requires
            valid_date(*self),
            self.year <= 1_000_000,
        ensures
            r == spec_week_day(*self),
    {
        let days = self.days_since_epoch();
        proof {
            lemma_day_in_year_bounds(*self);
        }
        (days + 3) % 7
    }

    /// Moves the date forward by `days`, carrying across month and year
    /// boundaries. The bounds on year and distance keep every intermediate
    /// count within `u32`.
    pub fn advance_days(&mut self, days: u32)
        requires
            valid_date(*old(self)),
            old(self).year <= 100_000_000,
            days <= 2_000_000_000,
        ensures
            valid_date(*final(self)),
            day_index(*final(self)) == day_index(*old(self)) + days,
            final(self).year >= old(self).year,
    {
        let mut day: u32 = self.day + days;
        let mut month: u32 = self.month;
        let mut year: u32 = self.year;

        while day > get_days_in_month(month, year)
            invariant
                1 <= month <= 12,
                1 <= day,
                spec_year_offset(year) + spec_days_before_month(year, month) + day - 1
                    == day_index(*old(self)) + days,
                28 * (year - old(self).year) + day <= old(self).day + days,
                year >= old(self).year,
            decreases day,
        {
            let len = get_days_in_month(month, year);
            day = day - len;
            if month == 12 {
                proof {
                    lemma_months_cover_year(year);
                    lemma_year_offset_step((year + 1) as u32);
                }
                month = 1;
                year = year + 1;
            } else {
                month = month + 1;
            }
        }

        self.day = day;
        self.month = month;
        self.year = year;
    }

    /// Moves the date backward by `days`, carrying across month and year
    /// boundaries. The date may not be moved past the first representable
    /// day, year 0 January 1.
    pub fn reverse_days(&mut self, days: u32)
        requires
            valid_date(*old(self)),
            day_index(*old(self)) - days >= spec_year_offset(0),
        ensures
            valid_date(*final(self)),
            day_index(*final(self)) == day_index(*old(self)) - days,
            final(self).year <= old(self).year,
    {
        let mut day: u32 = self.day;
        let mut month: u32 = self.month;
        let mut year: u32 = self.year;

        let mut i: u32 = 0;
        while i < days
            invariant
                i <= days,
                valid_date(Date { year, month, day }),
                day_index(Date { year, month, day }) == day_index(*old(self)) - i,
                day_index(*old(self)) - days >= spec_year_offset(0),
                year <= old(self).year,
            decreases days - i,
        {
            proof {
                let cur = Date { year, month, day };
                if year == 0 && month == 1 && day == 1 {
                    assert(day_index(cur) == spec_year_offset(0));
                }
            }
            if day == 1 {
                if month == 1 {
                    proof {
                        lemma_months_cover_year((year - 1) as u32);
                        lemma_year_offset_step(year);
                    }
                    month = 12;
                    year = year - 1;
                } else {
                    month = month - 1;
                }
                day = get_days_in_month(month, year);
            } else {
                day = day - 1;
            }
            i = i + 1;
        }

        self.day = day;
        self.month = month;
        self.year = year;
    }

    pub fn advance_day(&mut self)
        requires
            valid_date(*old(self)),
            old(self).year <= 100_000_000,
        ensures
            valid_date(*final(self)),
            day_index(*final(self)) == day_index(*old(self)) + 1,
            final(self).year >= old(self).year,
    {
        self.advance_days(1);
    }

    pub fn advance_week(&mut self)
        requires
            valid_date(*old(self)),
            old(self).year <= 100_000_000,
        ensures
            valid_date(*final(self)),
            day_index(*final(self)) == day_index(*old(self)) + 7,
            final(self).year >= old(self).year,
    {
        self.advance_days(7);
    }

    /// Moves to the first day of the following month.
    pub fn advance_month(&mut self)
        requires
            1 <= old(self).month <= 12,
            old(self).year < u32::MAX,
        ensures
            *final(self) == if old(self).month == 12 {
                Date { year: (old(self).year + 1) as u32, month: 1, day: 1 }
            } else {
                Date { year: old(self).year, month: (old(self).month + 1) as u32, day: 1 }
            },
            valid_date(*final(self)),
    {
        self.day = 1;
        self.month = self.month + 1;
        if self.month > 12 {
            self.month = 1;
            self.year = self.year + 1;
        }
    }
}

impl Date {
    /// Today's date by the system clock.
    ///
    /// Relies on chrono's `Utc::now` and its `Datelike` accessors: the month
    /// returned is in 1 through 12 and the day in 1 through 31. Nothing more
    /// is assumed; callers validate the triple before calendar arithmetic.
    #[verifier::external_body]
    pub fn now() -> (r: Date)
        ensures
            1 <= r.month <= 12,
            1 <= r.day <= 31,
    {
        let now = chrono::Utc::now();
        Date {
            year: chrono::Datelike::year(&now) as u32,
            month: chrono::Datelike::month(&now),
            day: chrono::Datelike::day(&now),
        }
    }

    /// Moves forward zero to six days to the next occurrence of the given
    /// weekday; a date already on that weekday stays put.
    pub fn advance_to_weekday(&mut self, week_day: u32)
        requires
            valid_date(*old(self)),
            1970 <= old(self).year <= 1_000_000,
            week_day <= 6,
        ensures
            valid_date(*final(self)),
            day_index(*final(self)) == day_index(*old(self)) + (week_day + 7 - spec_week_day(
                *old(self),
            )) % 7,
            spec_week_day(*final(self)) == week_day,
            final(self).year >= old(self).year,
    {
        proof {
            vstd::arithmetic::div_mod::lemma_fundamental_div_mod(
                spec_days_since_epoch(*old(self)) + 3,
                7,
            );
        }
        let current_week_day = self.week_day();
        if week_day < current_week_day {
            self.advance_days(7 - (current_week_day - week_day));
        } else if week_day > current_week_day {
            self.advance_days(week_day - current_week_day);
        }
        proof {
            let a = day_index(*old(self)) + 3;
            let wd = spec_week_day(*old(self));
            let delta = (week_day + 7 - wd) % 7;
            vstd::arithmetic::div_mod::lemma_mod_multiples_vanish(1, week_day + 0 - wd, 7);
            if week_day >= wd {
                vstd::arithmetic::div_mod::lemma_small_mod((week_day - wd) as nat, 7);
            } else {
                vstd::arithmetic::div_mod::lemma_small_mod((week_day + 7 - wd) as nat, 7);
            }
            assert(delta == week_day + 7 - wd || delta == week_day - wd);
            let b = day_index(*final(self)) + 3;
            assert(b == 7 * (a / 7) + week_day || b == 7 * (a / 7 + 1) + week_day);
            vstd::arithmetic::div_mod::lemma_mod_multiples_vanish(a / 7, week_day as int, 7);
            vstd::arithmetic::div_mod::lemma_mod_multiples_vanish(a / 7 + 1, week_day as int, 7);
            vstd::arithmetic::div_mod::lemma_small_mod(week_day as nat, 7);
        }
    }

    /// The Monday at or before this date. When the date lies at least its
    /// weekday past the epoch, the result's weekday is 0.
    pub fn week_start(&self) -> (r: Date)
        requires
            valid_date(*self),
            1970 <= self.year <= 1_000_000,
        ensures
            valid_date(r),
            day_index(r) == day_index(*self) - spec_week_day(*self),
            spec_date_le(r, *self),
            day_index(*self) - spec_week_day(*self) >= 0 ==> spec_week_day(r) == 0,
    {
        proof {
            lemma_year_offset_mono(0, 1970);
            if spec_date_lt(Date { year: 1970, month: 1, day: 1 }, *self) {
                lemma_day_index_strict_mono(Date { year: 1970, month: 1, day: 1 }, *self);
            }
        }
        let wd = self.week_day();
        let mut date = self.clone();
        date.reverse_days(wd);
        proof {
            if spec_date_lt(*self, date) {
                lemma_day_index_strict_mono(*self, date);
            }
            if day_index(*self) - spec_week_day(*self) >= 0 {
                // The result stays at or past the epoch, so its weekday is
                // also counted from the anchor.
                if spec_date_lt(date, Date { year: 1970, month: 1, day: 1 }) {
                    lemma_day_index_strict_mono(date, Date { year: 1970, month: 1, day: 1 });
                }
                let a = day_index(*self) + 3;
                vstd::arithmetic::div_mod::lemma_fundamental_div_mod(a, 7);
                assert(day_index(date) + 3 == 7 * (a / 7));
                vstd::arithmetic::div_mod::lemma_mod_multiples_vanish(a / 7, 0, 7);
                vstd::arithmetic::div_mod::lemma_small_mod(0, 7);
            }
        }
        date
    }

    /// Signed distance in days: positive when `self` is later than `other`.
    pub fn diff_in_days(&self, other: &Date) -> (r: i32)
        requires
            valid_date(*self),
            valid_date(*other),
            self.year <= 1_000_000,
            other.year <= 1_000_000,
        ensures
            r == spec_days_since_epoch(*self) - spec_days_since_epoch(*other),
    {
        let self_days = self.days_since_epoch();
        let other_days = other.days_since_epoch();
        self_days as i32 - other_days as i32
    }
}

/// On valid dates, calendar order and day-index order agree.
pub proof fn lemma_date_order_index(a: Date, b: Date)
    requires
        valid_date(a),
        valid_date(b),
    ensures
        spec_date_le(a, b) <==> day_index(a) <= day_index(b),
        spec_date_lt(a, b) <==> day_index(a) < day_index(b),
{
    if spec_date_lt(a, b) {
        lemma_day_index_strict_mono(a, b);
    } else if spec_date_lt(b, a) {
        lemma_day_index_strict_mono(b, a);
    }
}

/// The first day of the month after `d`'s.
pub open spec fn spec_next_month(d: Date) -> Date {
    if d.month == 12 {
        Date { year: (d.year + 1) as u32, month: 1, day: 1 }
    } else {
        Date { year: d.year, month: (d.month + 1) as u32, day: 1 }
    }
}

impl Date {
    /// Every day from `self` through `end`, inclusive, in order.
    pub fn iterate_daily_to(&self, end: &Date) -> (r: Vec<Date>)
        requires
            valid_date(*self),
            valid_date(*end),
            self.year <= 2_000_000,
            end.year <= 2_000_000,
        ensures
            forall|i: int|
                0 <= i < r.len() ==> valid_date(#[trigger] r[i]) && day_index(r[i]) == day_index(
                    *self,
                ) + i,
            r.len() == if day_index(*self) <= day_index(*end) {
                day_index(*end) - day_index(*self) + 1
            } else {
                0
            },
    {
        let mut r: Vec<Date> = Vec::new();
        let mut current = self.clone();
        proof {
            lemma_date_order_index(*self, *end);
        }
        while date_le(&current, end)
            invariant
                valid_date(current),
                day_index(current) == day_index(*self) + r.len(),
                r.len() > 0 ==> day_index(current) <= day_index(*end) + 1,
                forall|i: int|
                    0 <= i < r.len() ==> valid_date(#[trigger] r[i]) && day_index(r[i])
                        == day_index(*self) + i,
                spec_date_le(current, *end) ==> current.year <= end.year,
            decreases day_index(*end) + 1 - day_index(current),
        {
            proof {
                lemma_date_order_index(current, *end);
            }
            r.push(current.clone());
            current.advance_day();
        }
        proof {
            lemma_date_order_index(current, *end);
        }
        r
    }

    /// Every day from `self` back through `start`, inclusive, newest first.
    /// `start` must lie after the first representable day so that the cursor
    /// can step past it.
    pub fn iterate_daily_backwards(&self, start: &Date) -> (r: Vec<Date>)
        requires
            valid_date(*self),
            valid_date(*start),
            day_index(*start) > spec_year_offset(0),
        ensures
            forall|i: int|
                0 <= i < r.len() ==> valid_date(#[trigger] r[i]) && day_index(r[i]) == day_index(
                    *self,
                ) - i,
            r.len() == if day_index(*start) <= day_index(*self) {
                day_index(*self) - day_index(*start) + 1
            } else {
                0
            },
    {
        let mut r: Vec<Date> = Vec::new();
        let mut current = self.clone();
        proof {
            lemma_date_order_index(*start, *self);
        }
        while date_le(start, &current)
            invariant
                valid_date(current),
                day_index(current) == day_index(*self) - r.len(),
                r.len() > 0 ==> day_index(current) >= day_index(*start) - 1,
                day_index(*start) > spec_year_offset(0),
                forall|i: int|
                    0 <= i < r.len() ==> valid_date(#[trigger] r[i]) && day_index(r[i])
                        == day_index(*self) - i,
            decreases day_index(current) + 1 - day_index(*start),
        {
            proof {
                lemma_date_order_index(*start, current);
            }
            r.push(current.clone());
            current.reverse_days(1);
        }
        proof {
            lemma_date_order_index(*start, current);
        }
        r
    }

    /// Every seventh day from `self`, while it does not pass `end`.
    pub fn iterate_weekly_to(&self, end: &Date) -> (r: Vec<Date>)
        requires
            valid_date(*self),
            valid_date(*end),
            self.year <= 2_000_000,
            end.year <= 2_000_000,
        ensures
            forall|i: int|
                0 <= i < r.len() ==> valid_date(#[trigger] r[i]) && day_index(r[i]) == day_index(
                    *self,
                ) + 7 * i,
            day_index(*self) <= day_index(*end) ==> 7 * (r.len() - 1) <= day_index(*end)
                - day_index(*self) < 7 * r.len(),
            day_index(*self) > day_index(*end) ==> r.len() == 0,
            forall|i: int| 0 <= i < r.len() ==> (#[trigger] r[i]).year <= end.year,
    {
        let mut r: Vec<Date> = Vec::new();
        let mut current = self.clone();
        proof {
            lemma_date_order_index(*self, *end);
        }
        while date_le(&current, end)
            invariant
                valid_date(current),
                day_index(current) == day_index(*self) + 7 * r.len(),
                r.len() > 0 ==> day_index(current) <= day_index(*end) + 7,
                forall|i: int|
                    0 <= i < r.len() ==> valid_date(#[trigger] r[i]) && day_index(r[i])
                        == day_index(*self) + 7 * i,
                forall|i: int| 0 <= i < r.len() ==> (#[trigger] r[i]).year <= end.year,
                spec_date_le(current, *end) ==> current.year <= end.year,
            decreases day_index(*end) + 7 - day_index(current),
        {
            proof {
                lemma_date_order_index(current, *end);
            }
            r.push(current.clone());
            current.advance_week();
        }
        proof {
            lemma_date_order_index(current, *end);
        }
        r
    }

    /// `self`, then the first day of each following month, while not past
    /// `end`.
    pub fn iterate_monthly_to(&self, end: &Date) -> (r: Vec<Date>)
        requires
            valid_date(*self),
            self.year <= 2_000_000,
            end.year <= 2_000_000,
        ensures
            forall|i: int|
                0 <= i < r.len() ==> valid_date(#[trigger] r[i]) && r[i].year <= end.year,
            r.len() > 0 ==> r[0] == *self,
            r.len() == 0 <==> spec_date_lt(*end, *self),
            forall|i: int| 0 <= i < r.len() ==> spec_date_le(#[trigger] r[i], *end),
            forall|i: int| 1 <= i < r.len() ==> #[trigger] r[i] == spec_next_month(r[i - 1]),
            r.len() > 0 ==> spec_date_lt(*end, spec_next_month(r[r.len() - 1])),
            r.len() == 0 || 12 * self.year + self.month + r.len() <= 12 * end.year + end.month
                + 1,
    {
        let mut r: Vec<Date> = Vec::new();
        let mut current = self.clone();
        while date_le(&current, end)
            invariant
                valid_date(current),
                12 * current.year + current.month == 12 * self.year + self.month + r.len(),
                r.len() == 0 ==> current == *self,
                r.len() > 0 ==> r[0] == *self && current == spec_next_month(r[r.len() - 1]),
                forall|i: int| 0 <= i < r.len() ==> spec_date_le(#[trigger] r[i], *end),
                forall|i: int|
                    0 <= i < r.len() ==> valid_date(#[trigger] r[i]) && r[i].year <= end.year,
                forall|i: int| 1 <= i < r.len() ==> #[trigger] r[i] == spec_next_month(r[i - 1]),
                current.year <= 2_000_001,
                spec_date_le(current, *end) ==> current.year <= end.year,
            decreases (end.year + 1) * 12 + end.month - (current.year * 12 + current.month),
        {
            r.push(current.clone());
            current.advance_month();
        }
        r
    }

    /// The latest date in the list that is not after `self`.
    pub fn find_biggest_smaller(&self, dates: &[Date]) -> (r: Option<Date>)
        ensures
            match r {
                Some(m) => {
                    &&& exists|i: int| 0 <= i < dates@.len() && dates@[i] == m
                    &&& spec_date_le(m, *self)
                    &&& forall|i: int|
                        0 <= i < dates@.len() && spec_date_le(#[trigger] dates@[i], *self)
                            ==> spec_date_le(dates@[i], m)
                },
                None => forall|i: int|
                    0 <= i < dates@.len() ==> !spec_date_le(#[trigger] dates@[i], *self),
            },
    {
        let mut best: Option<Date> = None;
        let mut i: usize = 0;
        while i < dates.len()
            invariant
                i <= dates@.len(),
                match best {
                    Some(m) => {
                        &&& exists|j: int| 0 <= j < i && dates@[j] == m
                        &&& spec_date_le(m, *self)
                        &&& forall|j: int|
                            0 <= j < i && spec_date_le(#[trigger] dates@[j], *self)
                                ==> spec_date_le(dates@[j], m)
                    },
                    None => forall|j: int|
                        0 <= j < i ==> !spec_date_le(#[trigger] dates@[j], *self),
                },
            decreases dates@.len() - i,
        {
            let d = dates[i];
            if date_le(&d, self) {
                match best {
                    Some(b) => {
                        if date_lt(&b, &d) {
                            best = Some(d);
                        }
                    },
                    None => {
                        best = Some(d);
                    },
                }
            }
            i = i + 1;
        }
        best
    }

    /// The earliest date in the list that is not before `self`.
    pub fn find_smallest_bigger(&self, dates: &[Date]) -> (r: Option<Date>)
        ensures
            match r {
                Some(m) => {
                    &&& exists|i: int| 0 <= i < dates@.len() && dates@[i] == m
                    &&& spec_date_le(*self, m)
                    &&& forall|i: int|
                        0 <= i < dates@.len() && spec_date_le(*self, #[trigger] dates@[i])
                            ==> spec_date_le(m, dates@[i])
                },
                None => forall|i: int|
                    0 <= i < dates@.len() ==> !spec_date_le(*self, #[trigger] dates@[i]),
            },
    {
        let mut best: Option<Date> = None;
        let mut i: usize = 0;
        while i < dates.len()
            invariant
                i <= dates@.len(),
                match best {
                    Some(m) => {
                        &&& exists|j: int| 0 <= j < i && dates@[j] == m
                        &&& spec_date_le(*self, m)
                        &&& forall|j: int|
                            0 <= j < i && spec_date_le(*self, #[trigger] dates@[j])
                                ==> spec_date_le(m, dates@[j])
                    },
                    None => forall|j: int|
                        0 <= j < i ==> !spec_date_le(*self, #[trigger] dates@[j]),
                },
            decreases dates@.len() - i,
        {
            let d = dates[i];
            if date_le(self, &d) {
                match best {
                    Some(b) => {
                        if date_lt(&d, &b) {
                            best = Some(d);
                        }
                    },
                    None => {
                        best = Some(d);
                    },
                }
            }
            i = i + 1;
        }
        best
    }

    /// Both brackets around `self`, when each side has one.
    pub fn find_surrounding(&self, dates: &[Date]) -> (r: Option<(Date, Date)>)
        ensures
            match r {
                Some(pair) => {
                    &&& exists|i: int| 0 <= i < dates@.len() && dates@[i] == pair.0
                    &&& exists|i: int| 0 <= i < dates@.len() && dates@[i] == pair.1
                    &&& spec_date_le(pair.0, *self) && spec_date_le(*self, pair.1)
                    &&& forall|i: int|
                        0 <= i < dates@.len() && spec_date_le(#[trigger] dates@[i], *self)
                            ==> spec_date_le(dates@[i], pair.0)
                    &&& forall|i: int|
                        0 <= i < dates@.len() && spec_date_le(*self, #[trigger] dates@[i])
                            ==> spec_date_le(pair.1, dates@[i])
                },
                None => (forall|i: int|
                    0 <= i < dates@.len() ==> !spec_date_le(#[trigger] dates@[i], *self)) || (
                forall|i: int|
                    0 <= i < dates@.len() ==> !spec_date_le(*self, #[trigger] dates@[i])),
            },
    {
        let smaller = self.find_biggest_smaller(dates);
        let bigger = self.find_smallest_bigger(dates);
        match (smaller, bigger) {
            (Some(s), Some(b)) => Some((s, b)),
            _ => None,
        }
    }
}

/// How a date prints: zero-padded year, month and day joined by dashes.
pub open spec fn spec_date_string(d: Date) -> Seq<char> {
    dec_repr_pad(d.year as nat, 4) + seq!['-'] + dec_repr_pad(d.month as nat, 2) + seq!['-']
        + dec_repr_pad(d.day as nat, 2)
}

/// Splitting on dashes, as `str::split('-')` does: one part per gap, empty
/// parts kept.
pub open spec fn split_dash(s: Seq<char>) -> Seq<Seq<char>>
    decreases s.len(),
{
    if s.len() == 0 {
        seq![Seq::<char>::empty()]
    } else if s[0] == '-' {
        seq![Seq::<char>::empty()] + split_dash(s.skip(1))
    } else {
        let rest = split_dash(s.skip(1));
        seq![seq![s[0]] + rest[0]] + rest.skip(1)
    }
}

pub open spec fn dash_count(s: Seq<char>) -> nat
    decreases s.len(),
{
    if s.len() == 0 {
        0
    } else if s[0] == '-' {
        dash_count(s.skip(1)) + 1
    } else {
        dash_count(s.skip(1))
    }
}

pub open spec fn dash_free(s: Seq<char>) -> bool {
    forall|i: int| 0 <= i < s.len() ==> s[i] != '-'
}

/// A nonempty all-digit numeral whose value fits in `u32`.
pub open spec fn valid_numeral(s: Seq<char>) -> bool {
    s.len() >= 1 && all_digits(s) && dec_value(s) <= u32::MAX
}

/// What parsing a date string yields: exactly three dash-separated parts,
/// each a `u32` numeral. The triple is not checked for calendar validity,
/// mirroring the trusting constructor.
pub open spec fn spec_parse_date(s: Seq<char>) -> Option<Date> {
    let parts = split_dash(s);
    if parts.len() == 3 && valid_numeral(parts[0]) && valid_numeral(parts[1]) && valid_numeral(
        parts[2],
    ) {
        Some(
            Date {
                year: dec_value(parts[0]) as u32,
                month: dec_value(parts[1]) as u32,
                day: dec_value(parts[2]) as u32,
            },
        )
    } else {
        None
    }
}

pub proof fn lemma_split_dash_len(s: Seq<char>)
    ensures
        split_dash(s).len() == dash_count(s) + 1,
    decreases s.len(),
{
    if s.len() > 0 {
        lemma_split_dash_len(s.skip(1));
    }
}

/// A dash-free string splits into itself alone.
pub proof fn lemma_split_dash_free(s: Seq<char>)
    requires
        dash_free(s),
    ensures
        split_dash(s) =~~= seq![s],
    decreases s.len(),
{
    if s.len() > 0 {
        assert(dash_free(s.skip(1))) by {
            assert(forall|i: int| 0 <= i < s.skip(1).len() ==> s.skip(1)[i] == s[i + 1]);
        }
        lemma_split_dash_free(s.skip(1));
        assert(seq![s[0]] + s.skip(1) =~= s);
    }
}

/// Splitting past a dash-free head: the head becomes the first part.
pub proof fn lemma_split_dash_concat(a: Seq<char>, rest: Seq<char>)
    requires
        dash_free(a),
    ensures
        split_dash(a + seq!['-'] + rest) =~~= seq![a] + split_dash(rest),
    decreases a.len(),
{
    let s = a + seq!['-'] + rest;
    if a.len() == 0 {
        assert(s[0] == '-');
        assert(s.skip(1) =~= rest);
    } else {
        let a1 = a.skip(1);
        assert(dash_free(a1)) by {
            assert(forall|i: int| 0 <= i < a1.len() ==> a1[i] == a[i + 1]);
        }
        lemma_split_dash_concat(a1, rest);
        assert(s[0] == a[0]);
        assert(s.skip(1) =~= a1 + seq!['-'] + rest);
        let r = split_dash(s.skip(1));
        assert(r =~~= seq![a1] + split_dash(rest));
        assert(r[0] == a1);
        assert(seq![s[0]] + r[0] =~= a);
        assert(r.skip(1) =~~= split_dash(rest));
    }
}

impl Date {
    /// Prints the date as zero-padded `year-month-day`.
    pub fn to_fancy_string(&self) -> (r: String)
        ensures
            r@ == spec_date_string(*self),
    {
        let mut s = u32_to_dec_pad(self.year, 4);
        crate::digits::push_char(&mut s, '-');
        let m = u32_to_dec_pad(self.month, 2);
        s.append(m.as_str());
        crate::digits::push_char(&mut s, '-');
        let d = u32_to_dec_pad(self.day, 2);
        s.append(d.as_str());
        proof {
            assert(s@ =~= spec_date_string(*self));
        }
        s
    }

    /// Reads a `year-month-day` string: exactly three dash-separated decimal
    /// parts. A malformed string is never fatal; it yields `None`.
    #[verifier::rlimit(30)]
    pub fn from_string(date_str: &str) -> (r: Option<Date>)
        ensures
            r == spec_parse_date(date_str@),
    {
        let s = date_str;
        let ghost sv = s@;
        let len = s.unicode_len();
        let mut dash1: usize = 0;
        let mut dash2: usize = 0;
        let mut count: usize = 0;
        let mut i: usize = 0;
        proof {
            assert(sv.skip(0) =~= sv);
        }
        while i < len
            invariant
                i <= len,
                count <= i,
                len == sv.len(),
                sv == s@,
                count + dash_count(sv.skip(i as int)) == dash_count(sv),
                count >= 1 ==> dash1 < i && sv[dash1 as int] == '-' && dash_free(
                    sv.subrange(0, dash1 as int),
                ),
                count >= 2 ==> dash1 < dash2 < i && sv[dash2 as int] == '-' && dash_free(
                    sv.subrange(dash1 + 1, dash2 as int),
                ),
                count == 0 ==> dash_free(sv.subrange(0, i as int)),
                count == 1 ==> dash_free(sv.subrange(dash1 + 1, i as int)),
                count == 2 ==> dash_free(sv.subrange(dash2 + 1, i as int)),
            decreases len - i,
        {
            proof {
                assert(sv.skip(i as int).skip(1) =~= sv.skip(i + 1));
                assert(sv.skip(i as int)[0] == sv[i as int]);
            }
            let c = s.get_char(i);
            if c == '-' {
                if count == 0 {
                    dash1 = i;
                } else if count == 1 {
                    dash2 = i;
                }
                count = count + 1;
            }
            i = i + 1;
        }
        proof {
            assert(sv.skip(len as int) =~= Seq::<char>::empty());
            lemma_split_dash_len(sv);
        }
        if count != 2 {
            return None;
        }
        let p1 = s.substring_char(0, dash1);
        let p2 = s.substring_char(dash1 + 1, dash2);
        let p3 = s.substring_char(dash2 + 1, len);
        proof {
            assert(sv =~= p1@ + seq!['-'] + (p2@ + seq!['-'] + p3@));
            lemma_split_dash_concat(p1@, p2@ + seq!['-'] + p3@);
            lemma_split_dash_concat(p2@, p3@);
            lemma_split_dash_free(p3@);
            assert(split_dash(sv) =~~= seq![p1@, p2@, p3@]);
        }
        let year = parse_u32(p1);
        let month = parse_u32(p2);
        let day = parse_u32(p3);
        match (year, month, day) {
            (Some(y), Some(m), Some(d)) => Some(Date { year: y, month: m, day: d }),
            _ => None,
        }
    }
}

/// Law: printing any date and parsing the text back returns the same date.
pub proof fn lemma_date_string_roundtrip(d: Date)
    ensures
        spec_parse_date(spec_date_string(d)) == Some(d),
{
    lemma_dec_repr_pad_roundtrip(d.year as nat, 4);
    lemma_dec_repr_pad_roundtrip(d.month as nat, 2);
    lemma_dec_repr_pad_roundtrip(d.day as nat, 2);
    let p1 = dec_repr_pad(d.year as nat, 4);
    let p2 = dec_repr_pad(d.month as nat, 2);
    let p3 = dec_repr_pad(d.day as nat, 2);
    assert(dash_free(p1)) by {
        assert(forall|i: int| 0 <= i < p1.len() ==> is_digit(#[trigger] p1[i]));
        assert(forall|i: int| 0 <= i < p1.len() ==> p1[i] != '-') by {
            assert(forall|c: char| is_digit(c) ==> c != '-');
        }
    }
    assert(dash_free(p2)) by {
        assert(forall|i: int| 0 <= i < p2.len() ==> p2[i] != '-') by {
            assert(forall|c: char| is_digit(c) ==> c != '-');
        }
    }
    assert(dash_free(p3)) by {
        assert(forall|i: int| 0 <= i < p3.len() ==> p3[i] != '-') by {
            assert(forall|c: char| is_digit(c) ==> c != '-');
        }
    }
    let s = spec_date_string(d);
    assert(s =~= p1 + seq!['-'] + (p2 + seq!['-'] + p3));
    lemma_split_dash_concat(p1, p2 + seq!['-'] + p3);
    lemma_split_dash_concat(p2, p3);
    lemma_split_dash_free(p3);
    assert(split_dash(s) =~~= seq![p1, p2, p3]);
}

/// Law: advancing a valid date by `n` days and then reversing the result by
/// `n` days returns the original date. The contracts of `advance_days` and
/// `reverse_days` place both results at the same day index, and the day
/// index determines a valid date uniquely.
pub proof fn lemma_advance_reverse_inverse(d: Date, advanced: Date, reversed: Date, n: u32)
    requires
        valid_date(d),
        valid_date(advanced),
        valid_date(reversed),
        day_index(advanced) == day_index(d) + n,
        day_index(reversed) == day_index(advanced) - n,
    ensures
        reversed == d,
{
    lemma_day_index_injective(reversed, d);
}

impl Default for Date {
    /// The placeholder day used before any observation: the first
    /// representable day.
    fn default() -> (r: Date)
        ensures
            r == (Date { year: 0, month: 1, day: 1 }),
    {
        Date { year: 0, month: 1, day: 1 }
    }
}

/// Lexicographic order on (year, month, day).
pub open spec fn spec_date_lt(a: Date, b: Date) -> bool {
    a.year < b.year || (a.year == b.year && (a.month < b.month || (a.month == b.month
        && a.day < b.day)))
}

pub open spec fn spec_date_le(a: Date, b: Date) -> bool {
    spec_date_lt(a, b) || a == b
}

impl PartialOrd for Date {
    fn partial_cmp(&self, other: &Self) -> (r: Option<core::cmp::Ordering>) {
        if self.year < other.year {
            Some(core::cmp::Ordering::Less)
        } else if self.year > other.year {
            Some(core::cmp::Ordering::Greater)
        } else if self.month < other.month {
            Some(core::cmp::Ordering::Less)
        } else if self.month > other.month {
            Some(core::cmp::Ordering::Greater)
        } else if self.day < other.day {
            Some(core::cmp::Ordering::Less)
        } else if self.day > other.day {
            Some(core::cmp::Ordering::Greater)
        } else {
            Some(core::cmp::Ordering::Equal)
        }
    }
}

impl vstd::std_specs::cmp::PartialOrdSpecImpl for Date {
    open spec fn obeys_partial_cmp_spec() -> bool {
        true
    }

    open spec fn partial_cmp_spec(&self, other: &Self) -> Option<core::cmp::Ordering> {
        if spec_date_lt(*self, *other) {
            Some(core::cmp::Ordering::Less)
        } else if spec_date_lt(*other, *self) {
            Some(core::cmp::Ordering::Greater)
        } else {
            Some(core::cmp::Ordering::Equal)
        }
    }
}

impl Date {
    /// True when `start <= self <= end` in calendar order.
    pub fn in_range(&self, start: &Date, end: &Date) -> (r: bool)
        ensures
            r == (spec_date_le(*start, *self) && spec_date_le(*self, *end)),
    {
        date_le(start, self) && date_le(self, end)
    }
}

/// One year's worth of days lies between consecutive year offsets.
pub proof fn lemma_year_offset_step(year: u32)
    requires
        year >= 1,
    ensures
        spec_year_offset(year) == spec_year_offset((year - 1) as u32) + spec_days_in_year(
            (year - 1) as u32,
        ),
{
    if year <= 1970 {
        assert(spec_year_offset((year - 1) as u32) == spec_year_offset(year) - spec_days_in_year(
            (year - 1) as u32,
        ));
    }
}

/// The year offset grows by at least 365 days per year.
pub proof fn lemma_year_offset_mono(y1: u32, y2: u32)
    requires
        y1 <= y2,
    ensures
        spec_year_offset(y1) + 365 * (y2 - y1) <= spec_year_offset(y2),
    decreases y2 - y1,
{
    if y1 < y2 {
        lemma_year_offset_mono(y1, (y2 - 1) as u32);
        lemma_year_offset_step(y2);
    }
}

/// Days-before-month grows by the month's length at each step, and by at
/// least 28 days per month.
pub proof fn lemma_days_before_month_mono(year: u32, m1: u32, m2: u32)
    requires
        1 <= m1 <= m2,
    ensures
        spec_days_before_month(year, m1) + 28 * (m2 - m1) <= spec_days_before_month(year, m2),
    decreases m2 - m1,
{
    if m1 < m2 {
        lemma_days_before_month_mono(year, m1, (m2 - 1) as u32);
        assert(spec_days_before_month(year, m2) == spec_days_before_month(year, (m2 - 1) as u32)
            + spec_days_in_month((m2 - 1) as u32, year));
        assert(spec_days_in_month((m2 - 1) as u32, year) >= 28);
    }
}

/// The months of a year cover exactly the year's days.
pub proof fn lemma_months_cover_year(year: u32)
    ensures
        spec_days_before_month(year, 13) == spec_days_in_year(year),
{
    reveal_with_fuel(spec_days_before_month, 14);
}

/// Within its year, a valid date's day-in-year position lies between 1 and
/// the year's length.
pub proof fn lemma_day_in_year_bounds(d: Date)
    requires
        valid_date(d),
    ensures
        1 <= spec_day_in_year(d) <= spec_days_in_year(d.year),
{
    lemma_days_before_month_mono(d.year, 1, d.month);
    assert(spec_days_before_month(d.year, (d.month + 1) as u32) == spec_days_before_month(
        d.year,
        d.month,
    ) + spec_days_in_month(d.month, d.year));
    lemma_days_before_month_mono(d.year, (d.month + 1) as u32, 13);
    lemma_months_cover_year(d.year);
}

/// The day index is strictly monotone in calendar order on valid dates.
pub proof fn lemma_day_index_strict_mono(a: Date, b: Date)
    requires
        valid_date(a),
        valid_date(b),
        spec_date_lt(a, b),
    ensures
        day_index(a) < day_index(b),
{
    lemma_day_in_year_bounds(a);
    lemma_day_in_year_bounds(b);
    if a.year < b.year {
        lemma_year_offset_step(b.year);
        lemma_year_offset_mono((a.year + 1) as u32, b.year);
        lemma_year_offset_step((a.year + 1) as u32);
    } else if a.month < b.month {
        assert(spec_days_before_month(a.year, (a.month + 1) as u32) == spec_days_before_month(
            a.year,
            a.month,
        ) + spec_days_in_month(a.month, a.year));
        lemma_days_before_month_mono(a.year, (a.month + 1) as u32, b.month);
    }
}

/// Two valid dates with the same day index are the same date.
pub proof fn lemma_day_index_injective(a: Date, b: Date)
    requires
        valid_date(a),
        valid_date(b),
        day_index(a) == day_index(b),
    ensures
        a == b,
{
    if spec_date_lt(a, b) {
        lemma_day_index_strict_mono(a, b);
    } else if spec_date_lt(b, a) {
        lemma_day_index_strict_mono(b, a);
    }
}

/// Calendar comparison, usable where the `<` operator would be.
pub fn date_lt(a: &Date, b: &Date) -> (r: bool)
    ensures
        r == spec_date_lt(*a, *b),
{
    a.year < b.year || (a.year == b.year && (a.month < b.month || (a.month == b.month && a.day
        < b.day)))
}

pub fn date_le(a: &Date, b: &Date) -> (r: bool)
    ensures
        r == spec_date_le(*a, *b),
{
    let r = a.year < b.year || (a.year == b.year && (a.month < b.month || (a.month == b.month
        && a.day <= b.day)));
    r
}

} // verus!
