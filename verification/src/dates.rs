//! A civil (proleptic Gregorian) date model: validity, day counts from the
//! common era, and weekdays. Dates are held as plain year/month/day fields
//! so that every computation on them is verified.

use vstd::prelude::*;

verus! {

/// Days of the week, Monday first, as a calendar row is laid out.
#[derive(Clone, Copy, PartialEq, Eq, Structural, Debug)]
pub enum Weekday {
    Mon,
    Tue,
    Wed,
    Thu,
    Fri,
    Sat,
    Sun,
}

impl Weekday {
    /// Offset of this weekday from Monday: Monday is 0, Sunday is 6.
    pub open spec fn spec_index_from_monday(self) -> int {
        match self {
            Weekday::Mon => 0,
            Weekday::Tue => 1,
            Weekday::Wed => 2,
            Weekday::Thu => 3,
            Weekday::Fri => 4,
            Weekday::Sat => 5,
            Weekday::Sun => 6,
        }
    }

    /// The weekday whose offset from Monday is `i`.
    pub open spec fn spec_from_index(i: int) -> Weekday {
        if i == 0 {
            Weekday::Mon
        } else if i == 1 {
            Weekday::Tue
        } else if i == 2 {
            Weekday::Wed
        } else if i == 3 {
            Weekday::Thu
        } else if i == 4 {
            Weekday::Fri
        } else if i == 5 {
            Weekday::Sat
        } else {
            Weekday::Sun
        }
    }

    /// Offset from Monday, 0 to 6.
    pub fn num_days_from_monday(self) -> (r: u32)
        ensures
            r == self.spec_index_from_monday(),
    {
        match self {
            Weekday::Mon => 0,
            Weekday::Tue => 1,
            Weekday::Wed => 2,
            Weekday::Thu => 3,
            Weekday::Fri => 4,
            Weekday::Sat => 5,
            Weekday::Sun => 6,
        }
    }

    /// Position counted from Monday, 1 to 7.
    pub fn number_from_monday(self) -> (r: u32)
        ensures
            r == self.spec_index_from_monday() + 1,
    {
        self.num_days_from_monday() + 1
    }
}

/// Whether `y` is a leap year in the Gregorian calendar.
pub open spec fn is_leap_year(y: int) -> bool {
    (y % 4 == 0 && y % 100 != 0) || y % 400 == 0
}

/// Number of days in month `m` of year `y`.
pub open spec fn spec_days_in_month(y: int, m: int) -> int {
    if m == 2 {
        if is_leap_year(y) {
            29
        } else {
            28
        }
    } else if m == 4 || m == 6 || m == 9 || m == 11 {
        30
    } else {
        31
    }
}

/// Number of days in all years before year `y`, counted from year 1.
pub open spec fn days_before_year(y: int) -> int
    decreases y,
{
    if y <= 1 {
        0
    } else {
        days_before_year(y - 1) + if is_leap_year(y - 1) {
            366int
        } else {
            365int
        }
    }
}

/// Number of days in the months of year `y` that precede month `m`.
pub open spec fn days_before_month(y: int, m: int) -> int
    decreases m,
{
    if m <= 1 {
        0
    } else {
        days_before_month(y, m - 1) + spec_days_in_month(y, m - 1)
    }
}

/// The smallest and largest years the model admits.
pub const MIN_YEAR: i32 = 1;

pub const MAX_YEAR: i32 = 9999;

/// A calendar date, held as plain fields.
#[derive(Clone, Copy, PartialEq, Eq, Structural, Debug)]
pub struct Date {
    pub year: i32,
    pub month: u32,
    pub day: u32,
}

/// A date is valid when the year is in range, the month is a calendar
/// month, and the day exists in that month.
pub open spec fn valid_date(d: Date) -> bool {
    &&& MIN_YEAR <= d.year <= MAX_YEAR
    &&& 1 <= d.month <= 12
    &&& 1 <= d.day <= spec_days_in_month(d.year as int, d.month as int)
}

/// Rank of a date: the number of days from the start of the common era,
/// with the first day of year 1 ranked 1.
pub open spec fn spec_days_from_ce(d: Date) -> int {
    days_before_year(d.year as int) + days_before_month(d.year as int, d.month as int)
        + d.day as int
}

/// Weekday offset from Monday of a date; the first day of year 1 is a Monday.
pub open spec fn spec_weekday_index(d: Date) -> int {
    (spec_days_from_ce(d) - 1) % 7
}

impl Date {
    /// Builds the date if the fields form a valid date, in the model's
    /// year range.
    pub fn from_ymd_checked(year: i32, month: u32, day: u32) -> (r: Option<Date>)
        ensures
            match r {
                Some(d) => d == (Date { year, month, day }) && valid_date(d),
                None => !valid_date(Date { year, month, day }),
            },
    {
        let d = Date { year, month, day };
        if MIN_YEAR <= year && year <= MAX_YEAR && 1 <= month && month <= 12 && 1 <= day && day
            <= days_in_month(year, month) {
            Some(d)
        } else {
            None
        }
    }
}

/// Number of days in month `m` of year `y`.
pub fn days_in_month(y: i32, m: u32) -> (r: u32)
    requires
        y >= 1,
    ensures
        r == spec_days_in_month(y as int, m as int),
{
    if m == 2 {
        if (y % 4 == 0 && y % 100 != 0) || y % 400 == 0 {
            29
        } else {
            28
        }
    } else if m == 4 || m == 6 || m == 9 || m == 11 {
        30
    } else {
        31
    }
}

/// `a` comes before `b` in year/month/day order.
pub open spec fn date_lt(a: Date, b: Date) -> bool {
    ||| a.year < b.year
    ||| (a.year == b.year && a.month < b.month)
    ||| (a.year == b.year && a.month == b.month && a.day < b.day)
}

/// A year has 365 days, 366 in a leap year: the months of a year sum up
/// to that.
pub proof fn lemma_days_in_year(y: int)
    ensures
        days_before_month(y, 13) == if is_leap_year(y) {
            366int
        } else {
            365int
        },
{
    assert(days_before_month(y, 1) == 0);
    assert(days_before_month(y, 2) == 31);
    assert(days_before_month(y, 3) == days_before_month(y, 2) + spec_days_in_month(y, 2));
    assert(days_before_month(y, 4) == days_before_month(y, 3) + 31);
    assert(days_before_month(y, 5) == days_before_month(y, 4) + 30);
    assert(days_before_month(y, 6) == days_before_month(y, 5) + 31);
    assert(days_before_month(y, 7) == days_before_month(y, 6) + 30);
    assert(days_before_month(y, 8) == days_before_month(y, 7) + 31);
    assert(days_before_month(y, 9) == days_before_month(y, 8) + 31);
    assert(days_before_month(y, 10) == days_before_month(y, 9) + 30);
    assert(days_before_month(y, 11) == days_before_month(y, 10) + 31);
    assert(days_before_month(y, 12) == days_before_month(y, 11) + 30);
    assert(days_before_month(y, 13) == days_before_month(y, 12) + 31);
}

/// Months preceding a later month cover at least one more day.
pub proof fn lemma_days_before_month_increases(y: int, m1: int, m2: int)
    requires
        1 <= m1 <= m2 <= 13,
    ensures
        days_before_month(y, m1) <= days_before_month(y, m2),
        m1 < m2 ==> days_before_month(y, m1) + spec_days_in_month(y, m1) <= days_before_month(
            y,
            m2,
        ),
    decreases m2 - m1,
{
    if m1 < m2 {
        lemma_days_before_month_increases(y, m1 + 1, m2);
        assert(days_before_month(y, m1 + 1) == days_before_month(y, m1) + spec_days_in_month(
            y,
            m1,
        ));
        assert(spec_days_in_month(y, m1) >= 28);
    }
}

/// Earlier years count fewer days, by at least a year's length per year.
pub proof fn lemma_days_before_year_increases(y1: int, y2: int)
    requires
        1 <= y1 <= y2,
    ensures
        days_before_year(y1) <= days_before_year(y2),
        days_before_year(y1) + 365 * (y2 - y1) <= days_before_year(y2),
    decreases y2 - y1,
{
    if y1 < y2 {
        lemma_days_before_year_increases(y1, y2 - 1);
        assert(days_before_year(y2) == days_before_year(y2 - 1) + if is_leap_year(y2 - 1) {
            366int
        } else {
            365int
        });
    }
}

/// The day rank of a valid date lies between the ranks of the first and
/// the last day of its year.
proof fn lemma_rank_within_year(d: Date)
    requires
        valid_date(d),
    ensures
        days_before_year(d.year as int) + 1 <= spec_days_from_ce(d),
        spec_days_from_ce(d) <= days_before_year(d.year as int + 1),
{
    let y = d.year as int;
    let m = d.month as int;
    lemma_days_before_month_increases(y, 1, m);
    lemma_days_before_month_increases(y, m, 13);
    lemma_days_in_year(y);
    assert(days_before_year(y + 1) == days_before_year(y) + if is_leap_year(y) {
        366int
    } else {
        365int
    });
}

/// The day rank grows strictly with the calendar order of valid dates.
pub proof fn lemma_days_from_ce_strictly_increases(a: Date, b: Date)
    requires
        valid_date(a),
        valid_date(b),
        date_lt(a, b),
    ensures
        spec_days_from_ce(a) < spec_days_from_ce(b),
{
    if a.year < b.year {
        lemma_rank_within_year(a);
        lemma_rank_within_year(b);
        lemma_days_before_year_increases(a.year as int + 1, b.year as int);
    } else if a.month < b.month {
        lemma_days_before_month_increases(a.year as int, a.month as int, b.month as int);
    }
}

/// Two distinct valid dates have distinct day ranks.
pub proof fn lemma_days_from_ce_injective(a: Date, b: Date)
    requires
        valid_date(a),
        valid_date(b),
        spec_days_from_ce(a) == spec_days_from_ce(b),
    ensures
        a == b,
{
    if date_lt(a, b) {
        lemma_days_from_ce_strictly_increases(a, b);
    } else if date_lt(b, a) {
        lemma_days_from_ce_strictly_increases(b, a);
    }
}

impl Date {
    /// The last day the model admits.
    pub open spec fn spec_last() -> Date {
        Date { year: MAX_YEAR, month: 12, day: 31 }
    }

    /// The first day the model admits.
    pub open spec fn spec_first() -> Date {
        Date { year: MIN_YEAR, month: 1, day: 1 }
    }

    /// Number of days from the start of the common era, the first day of
    /// year 1 being day 1.
    pub fn num_days_from_ce(&self) -> (r: i32)
        requires
            valid_date(*self),
        ensures
            r == spec_days_from_ce(*self),
            1 <= r <= 3659634,
    {
        let ghost yg = self.year as int;
        let mut acc: i32 = 0;
        let mut i: i32 = 1;
        while i < self.year
            invariant
                1 <= i <= self.year <= MAX_YEAR,
                acc == days_before_year(i as int),
                0 <= acc <= 366 * (i - 1),
            decreases self.year - i,
        {
            if (i % 4 == 0 && i % 100 != 0) || i % 400 == 0 {
                acc = acc + 366;
            } else {
                acc = acc + 365;
            }
            i = i + 1;
        }
        let mut m: u32 = 1;
        let mut macc: i32 = 0;
        while m < self.month
            invariant
                1 <= m <= self.month <= 12,
                self.year >= 1,
                yg == self.year as int,
                macc == days_before_month(yg, m as int),
                0 <= macc <= 31 * (m - 1),
            decreases self.month - m,
        {
            macc = macc + days_in_month(self.year, m) as i32;
            proof {
                assert(days_before_month(yg, m as int + 1) == days_before_month(yg, m as int)
                    + spec_days_in_month(yg, m as int));
            }
            m = m + 1;
        }
        proof {
            lemma_rank_within_year(*self);
            lemma_days_before_year_increases(1, yg);
            lemma_days_before_year_increases(yg, yg + 1);
            lemma_days_before_year_increases(yg + 1, MAX_YEAR as int + 1);
            assert(days_before_year(MAX_YEAR as int + 1) <= 366 * (MAX_YEAR as int)) by {
                lemma_days_before_year_bound(MAX_YEAR as int + 1);
            }
        }
        acc + macc + self.day as i32
    }

    /// Weekday of the date; the first day of year 1 is a Monday.
    pub fn weekday(&self) -> (r: Weekday)
        requires
            valid_date(*self),
        ensures
            r == Weekday::spec_from_index(spec_weekday_index(*self)),
    {
        let n = self.num_days_from_ce();
        let i = (n - 1) % 7;
        if i == 0 {
            Weekday::Mon
        } else if i == 1 {
            Weekday::Tue
        } else if i == 2 {
            Weekday::Wed
        } else if i == 3 {
            Weekday::Thu
        } else if i == 4 {
            Weekday::Fri
        } else if i == 5 {
            Weekday::Sat
        } else {
            Weekday::Sun
        }
    }

    /// The next calendar day.
    pub fn succ(&self) -> (r: Date)
        requires
            valid_date(*self),
            *self != Date::spec_last(),
        ensures
            valid_date(r),
            spec_days_from_ce(r) == spec_days_from_ce(*self) + 1,
    {
        let ghost y = self.year as int;
        let ghost m = self.month as int;
        if self.day < days_in_month(self.year, self.month) {
            Date { year: self.year, month: self.month, day: self.day + 1 }
        } else if self.month < 12 {
            proof {
                assert(days_before_month(y, m + 1) == days_before_month(y, m)
                    + spec_days_in_month(y, m));
            }
            Date { year: self.year, month: self.month + 1, day: 1 }
        } else {
            proof {
                lemma_days_in_year(y);
                assert(days_before_month(y, 13) == days_before_month(y, 12) + spec_days_in_month(
                    y,
                    12,
                ));
                assert(days_before_year(y + 1) == days_before_year(y) + if is_leap_year(y) {
                    366int
                } else {
                    365int
                });
            }
            Date { year: self.year + 1, month: 1, day: 1 }
        }
    }

    /// The previous calendar day.
    pub fn pred(&self) -> (r: Date)
        requires
            valid_date(*self),
            *self != Date::spec_first(),
        ensures
            valid_date(r),
            spec_days_from_ce(r) == spec_days_from_ce(*self) - 1,
    {
        let ghost y = self.year as int;
        let ghost m = self.month as int;
        if self.day > 1 {
            Date { year: self.year, month: self.month, day: self.day - 1 }
        } else if self.month > 1 {
            proof {
                assert(days_before_month(y, m) == days_before_month(y, m - 1)
                    + spec_days_in_month(y, m - 1));
            }
            Date { year: self.year, month: self.month - 1, day: days_in_month(
                self.year,
                self.month - 1,
            ) }
        } else {
            proof {
                lemma_days_in_year(y - 1);
                assert(days_before_month(y - 1, 13) == days_before_month(y - 1, 12)
                    + spec_days_in_month(y - 1, 12));
                assert(days_before_year(y) == days_before_year(y - 1) + if is_leap_year(y - 1) {
                    366int
                } else {
                    365int
                });
            }
            Date { year: self.year - 1, month: 12, day: days_in_month(self.year - 1, 12) }
        }
    }

    /// The day `n` days later.
    pub fn forward_days(&self, n: u32) -> (r: Date)
        requires
            valid_date(*self),
            spec_days_from_ce(*self) + n <= spec_days_from_ce(Date::spec_last()),
        ensures
            valid_date(r),
            spec_days_from_ce(r) == spec_days_from_ce(*self) + n,
    {
        let mut cur = *self;
        let mut i: u32 = 0;
        while i < n
            invariant
                0 <= i <= n,
                valid_date(cur),
                spec_days_from_ce(cur) == spec_days_from_ce(*self) + i,
                spec_days_from_ce(*self) + n <= spec_days_from_ce(Date::spec_last()),
            decreases n - i,
        {
            proof {
                if cur == Date::spec_last() {
                    assert(spec_days_from_ce(cur) < spec_days_from_ce(Date::spec_last()));
                }
            }
            cur = cur.succ();
            i = i + 1;
        }
        cur
    }

    /// The day `n` days earlier.
    pub fn backward_days(&self, n: u32) -> (r: Date)
        requires
            valid_date(*self),
            spec_days_from_ce(Date::spec_first()) + n <= spec_days_from_ce(*self),
        ensures
            valid_date(r),
            spec_days_from_ce(r) == spec_days_from_ce(*self) - n,
    {
        let mut cur = *self;
        let mut i: u32 = 0;
        while i < n
            invariant
                0 <= i <= n,
                valid_date(cur),
                spec_days_from_ce(cur) == spec_days_from_ce(*self) - i,
                spec_days_from_ce(Date::spec_first()) + n <= spec_days_from_ce(*self),
            decreases n - i,
        {
            proof {
                if cur == Date::spec_first() {
                    assert(spec_days_from_ce(cur) > spec_days_from_ce(Date::spec_first()));
                }
            }
            cur = cur.pred();
            i = i + 1;
        }
        cur
    }
}

/// Years before year `y` hold at most 366 days each.
pub proof fn lemma_days_before_year_bound(y: int)
    requires
        y >= 1,
    ensures
        days_before_year(y) <= 366 * (y - 1),
    decreases y,
{
    if y > 1 {
        lemma_days_before_year_bound(y - 1);
    }
}

} // verus!
