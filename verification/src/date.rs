//! Day-precision date arithmetic with leap-year and month-length edge cases.
//!
//! Dates are `YYYY-Mmm-DD` values over the supported years `1000..=9999`.
//! Every date bijects onto an integer index (`date_index`) such that moving
//! one day forward moves the index up by exactly one; all jump operations
//! are specified against that index or against the date's components.

use vstd::arithmetic::div_mod::{
    lemma_fundamental_div_mod, lemma_fundamental_div_mod_converse, lemma_mod_mod,
    lemma_mod_pos_bound,
};
use vstd::prelude::*;

verus! {

/// Twelve months of the year, identified by their 3-letter abbreviations.
#[derive(Debug, Clone, Copy, PartialEq, Eq, Structural, PartialOrd, Ord, Hash)]
pub enum Month {
    Jan,
    Feb,
    Mar,
    Apr,
    May,
    Jun,
    Jul,
    Aug,
    Sep,
    Oct,
    Nov,
    Dec,
}

/// Weekday with Monday-first week convention.
#[derive(Debug, Clone, Copy, PartialEq, Eq, Structural, PartialOrd, Ord, Hash)]
pub enum Weekday {
    Mon,
    Tue,
    Wed,
    Thu,
    Fri,
    Sat,
    Sun,
}

impl Month {
    /// Position of the month in the year, `Jan` being 0.
    pub open spec fn num(self) -> int {
        match self {
            Month::Jan => 0,
            Month::Feb => 1,
            Month::Mar => 2,
            Month::Apr => 3,
            Month::May => 4,
            Month::Jun => 5,
            Month::Jul => 6,
            Month::Aug => 7,
            Month::Sep => 8,
            Month::Oct => 9,
            Month::Nov => 10,
            Month::Dec => 11,
        }
    }

    /// Position of the month in the year, `Jan` being 0.
    pub fn number(self) -> (n: usize)
        ensures
            n == self.num(),
    {
        match self {
            Month::Jan => 0,
            Month::Feb => 1,
            Month::Mar => 2,
            Month::Apr => 3,
            Month::May => 4,
            Month::Jun => 5,
            Month::Jul => 6,
            Month::Aug => 7,
            Month::Sep => 8,
            Month::Oct => 9,
            Month::Nov => 10,
            Month::Dec => 11,
        }
    }

    /// The month at position `n` of the year, `Jan` being 0.
    pub fn from_number(n: usize) -> (m: Month)
        requires
            n < 12,
        ensures
            m.num() == n,
    {
        if n == 0 {
            Month::Jan
        } else if n == 1 {
            Month::Feb
        } else if n == 2 {
            Month::Mar
        } else if n == 3 {
            Month::Apr
        } else if n == 4 {
            Month::May
        } else if n == 5 {
            Month::Jun
        } else if n == 6 {
            Month::Jul
        } else if n == 7 {
            Month::Aug
        } else if n == 8 {
            Month::Sep
        } else if n == 9 {
            Month::Oct
        } else if n == 10 {
            Month::Nov
        } else {
            Month::Dec
        }
    }

    /// Month directly succeeding the current one with wrapping.
    pub fn next(self) -> (m: Month)
        ensures
            m.num() == if self.num() == 11 { 0int } else { self.num() + 1 },
    {
        let n = self.number();
        Month::from_number((n + 1) % 12)
    }

    /// Month directly preceding the current one with wrapping.
    pub fn prev(self) -> (m: Month)
        ensures
            m.num() == if self.num() == 0 { 11int } else { self.num() - 1 },
    {
        let n = self.number();
        Month::from_number((n + 11) % 12)
    }

    /// Number of days in this month of the given year.
    pub fn count(self, year: u16) -> (n: u8)
        ensures
            n as int == month_len(year as int, self.num()),
    {
        match self {
            Month::Feb => if is_leap(year) {
                29
            } else {
                28
            },
            Month::Apr | Month::Jun | Month::Sep | Month::Nov => 30,
            _ => 31,
        }
    }
}

impl Weekday {
    /// Position of the weekday in the week, `Mon` being 0.
    pub open spec fn num(self) -> int {
        match self {
            Weekday::Mon => 0,
            Weekday::Tue => 1,
            Weekday::Wed => 2,
            Weekday::Thu => 3,
            Weekday::Fri => 4,
            Weekday::Sat => 5,
            Weekday::Sun => 6,
        }
    }

    /// Position of the weekday in the week, `Mon` being 0.
    pub fn number(self) -> (n: usize)
        ensures
            n == self.num(),
    {
        match self {
            Weekday::Mon => 0,
            Weekday::Tue => 1,
            Weekday::Wed => 2,
            Weekday::Thu => 3,
            Weekday::Fri => 4,
            Weekday::Sat => 5,
            Weekday::Sun => 6,
        }
    }

    /// The weekday at position `n` of the week, `Mon` being 0.
    pub fn from_number(n: usize) -> (w: Weekday)
        requires
            n < 7,
        ensures
            w.num() == n,
    {
        if n == 0 {
            Weekday::Mon
        } else if n == 1 {
            Weekday::Tue
        } else if n == 2 {
            Weekday::Wed
        } else if n == 3 {
            Weekday::Thu
        } else if n == 4 {
            Weekday::Fri
        } else if n == 5 {
            Weekday::Sat
        } else {
            Weekday::Sun
        }
    }

    /// Weekday directly succeeding the current one with wrapping.
    pub fn next(self) -> (w: Weekday)
        ensures
            w.num() == if self.num() == 6 { 0int } else { self.num() + 1 },
    {
        let n = self.number();
        Weekday::from_number((n + 1) % 7)
    }

    /// Weekday directly preceding the current one with wrapping.
    pub fn prev(self) -> (w: Weekday)
        ensures
            w.num() == if self.num() == 0 { 6int } else { self.num() - 1 },
    {
        let n = self.number();
        Weekday::from_number((n + 6) % 7)
    }
}

/// Whether a year is a leap year: divisible by 4 and either not divisible
/// by 100 or divisible by 400.
pub open spec fn spec_leap(year: int) -> bool {
    year % 4 == 0 && (year % 100 != 0 || year % 400 == 0)
}

/// Whether a year is bissextile, by the 400/100/4 rule.
pub fn is_leap(year: u16) -> (b: bool)
    ensures
        b == spec_leap(year as int),
{
    if year % 400 == 0 {
        true
    } else if year % 100 == 0 {
        false
    } else {
        year % 4 == 0
    }
}

/// Number of days in a month (0-based) of a year.
pub open spec fn month_len(year: int, month: int) -> int {
    if month == 1 {
        if spec_leap(year) {
            29
        } else {
            28
        }
    } else if month == 3 || month == 5 || month == 8 || month == 10 {
        30
    } else {
        31
    }
}

/// Days elapsed in a non-leap year before the given month (0-based).
pub open spec fn cum_days(month: int) -> int {
    if month == 0 {
        0
    } else if month == 1 {
        31
    } else if month == 2 {
        59
    } else if month == 3 {
        90
    } else if month == 4 {
        120
    } else if month == 5 {
        151
    } else if month == 6 {
        181
    } else if month == 7 {
        212
    } else if month == 8 {
        243
    } else if month == 9 {
        273
    } else if month == 10 {
        304
    } else {
        334
    }
}

/// Number of leap years in `1..=y`.
pub open spec fn leap_count(y: int) -> int {
    y / 4 - y / 100 + y / 400
}

/// Mathematical model of a date: year, 0-based month, 1-based day.
pub struct DateV {
    pub year: int,
    pub month: int,
    pub day: int,
}

/// A well-formed date: supported year, legal month, day legal for the
/// month in that year.
pub open spec fn date_wf(v: DateV) -> bool {
    &&& 1000 <= v.year <= 9999
    &&& 0 <= v.month < 12
    &&& 1 <= v.day <= month_len(v.year, v.month)
}

/// The index of a date: a bijection from dates to integers such that the
/// successor of a date has the next index.
pub open spec fn date_index(v: DateV) -> int {
    v.year * 365 + v.day + cum_days(v.month) + leap_count(
        if v.month <= 1 {
            v.year - 1
        } else {
            v.year
        },
    )
}

/// The earliest supported date, 1000-Jan-01.
pub open spec fn first_day() -> DateV {
    DateV { year: 1000, month: 0, day: 1 }
}

/// The latest supported date, 9999-Dec-31.
pub open spec fn last_day() -> DateV {
    DateV { year: 9999, month: 11, day: 31 }
}

/// Index of the earliest supported date.
pub open spec fn min_index() -> int {
    date_index(first_day())
}

/// Index of the latest supported date.
pub open spec fn max_index() -> int {
    date_index(last_day())
}

/// Chronological order on date models.
pub open spec fn date_le_v(a: DateV, b: DateV) -> bool {
    ||| a.year < b.year
    ||| (a.year == b.year && a.month < b.month)
    ||| (a.year == b.year && a.month == b.month && a.day <= b.day)
}

/// Strict chronological order on date models.
pub open spec fn date_lt_v(a: DateV, b: DateV) -> bool {
    date_le_v(a, b) && a != b
}

/// The day after: single-day step with month and year rollover.
pub open spec fn next_v(v: DateV) -> DateV {
    if v.day < month_len(v.year, v.month) {
        DateV { day: v.day + 1, ..v }
    } else if v.month < 11 {
        DateV { month: v.month + 1, day: 1, ..v }
    } else {
        DateV { year: v.year + 1, month: 0, day: 1 }
    }
}

/// The day before: single-day step with month and year rollover.
pub open spec fn prev_v(v: DateV) -> DateV {
    if v.day > 1 {
        DateV { day: v.day - 1, ..v }
    } else if v.month > 0 {
        DateV { month: v.month - 1, day: month_len(v.year, v.month - 1), ..v }
    } else {
        DateV { year: v.year - 1, month: 11, day: 31 }
    }
}

/// The weekday slot of a date by its index, `Mon` being 0.
pub open spec fn weekday_num(v: DateV) -> int {
    (date_index(v) - 2) % 7
}

/// The date `count` months away, day clamped to the target month's
/// length.
pub open spec fn jump_month_v(v: DateV, count: int) -> DateV {
    let total = v.year * 12 + v.month + count;
    let year = total / 12;
    let month = total % 12;
    DateV {
        year,
        month,
        day: if v.day <= month_len(year, month) {
            v.day
        } else {
            month_len(year, month)
        },
    }
}

/// The date `count` years away, day clamped for Feb 29 of non-leap
/// targets.
pub open spec fn jump_year_v(v: DateV, count: int) -> DateV {
    DateV {
        year: v.year + count,
        month: v.month,
        day: if v.month == 1 && v.day == 29 && !spec_leap(v.year + count) {
            28
        } else {
            v.day
        },
    }
}

/// First day of the month of `v`.
pub open spec fn start_of_month_v(v: DateV) -> DateV {
    DateV { day: 1, ..v }
}

/// Last day of the month of `v`.
pub open spec fn end_of_month_v(v: DateV) -> DateV {
    DateV { day: month_len(v.year, v.month), ..v }
}

/// Jan 1st of the year of `v`.
pub open spec fn start_of_year_v(v: DateV) -> DateV {
    DateV { month: 0, day: 1, ..v }
}

/// Dec 31st of the year of `v`.
pub open spec fn end_of_year_v(v: DateV) -> DateV {
    DateV { month: 11, day: 31, ..v }
}

/// Stepping backward from `v` until the day is below `d`, not past the
/// end of the previous month.
pub open spec fn cap_day_v(v: DateV, d: int) -> DateV {
    if v.day < d {
        v
    } else if d >= 2 {
        DateV { day: d - 1, ..v }
    } else {
        prev_v(DateV { day: 1, ..v })
    }
}

proof fn lemma_div_step(x: int, d: int)
    requires
        x >= 1,
        d >= 1,
    ensures
        x / d - (x - 1) / d == if x % d == 0 {
            1int
        } else {
            0int
        },
{
    lemma_fundamental_div_mod(x, d);
    lemma_mod_pos_bound(x, d);
    let q = x / d;
    let r = x % d;
    assert(x == d * q + r);
    assert(d * q == q * d) by (nonlinear_arith);
    if r == 0 {
        assert((q - 1) * d == q * d - d) by (nonlinear_arith);
        assert(x - 1 == (q - 1) * d + (d - 1));
        lemma_fundamental_div_mod_converse(x - 1, d, q - 1, d - 1);
    } else {
        assert(x - 1 == q * d + (r - 1));
        lemma_fundamental_div_mod_converse(x - 1, d, q, r - 1);
    }
}

proof fn lemma_leap_count_step(y: int)
    requires
        y >= 1,
    ensures
        leap_count(y) - leap_count(y - 1) == if spec_leap(y) {
            1int
        } else {
            0int
        },
{
    lemma_div_step(y, 4);
    lemma_div_step(y, 100);
    lemma_div_step(y, 400);
    if y % 400 == 0 {
        lemma_mod_mod(y, 4, 100);
        lemma_mod_mod(y, 100, 4);
    }
    if y % 100 == 0 {
        lemma_mod_mod(y, 4, 25);
    }
}

/// Law: the successor of a well-formed date is well-formed and its index
/// is exactly one more.
pub proof fn lemma_next_index(v: DateV)
    requires
        date_wf(v),
        v != last_day(),
    ensures
        date_wf(next_v(v)),
        date_index(next_v(v)) == date_index(v) + 1,
{
    if v.day < month_len(v.year, v.month) {
    } else if v.month < 11 {
        if v.month == 1 {
            lemma_leap_count_step(v.year);
        }
    } else {
    }
}

/// Law: stepping back then forward returns the same date.
pub proof fn lemma_prev_next(v: DateV)
    requires
        date_wf(v),
        v != first_day(),
    ensures
        date_wf(prev_v(v)),
        prev_v(v) != last_day(),
        next_v(prev_v(v)) == v,
        date_index(prev_v(v)) == date_index(v) - 1,
{
    let p = prev_v(v);
    assert(date_wf(p));
    assert(p != last_day());
    assert(next_v(p) == v);
    lemma_next_index(p);
}

/// Law: stepping forward then back returns the same date.
pub proof fn lemma_next_prev(v: DateV)
    requires
        date_wf(v),
        v != last_day(),
    ensures
        prev_v(next_v(v)) == v,
{
    lemma_next_index(v);
    assert(prev_v(next_v(v)) == v);
}

proof fn lemma_le_last(v: DateV)
    requires
        date_wf(v),
    ensures
        date_le_v(v, last_day()),
{
}

proof fn lemma_next_le(a: DateV, b: DateV)
    requires
        date_wf(a),
        date_wf(b),
        date_lt_v(a, b),
    ensures
        date_le_v(next_v(a), b),
{
}

spec fn date_measure(v: DateV) -> int {
    v.year * 372 + v.month * 31 + v.day
}

proof fn lemma_index_mono(a: DateV, b: DateV)
    requires
        date_wf(a),
        date_wf(b),
        date_lt_v(a, b),
    ensures
        date_index(a) < date_index(b),
    decreases date_measure(b) - date_measure(a),
{
    lemma_le_last(b);
    assert(a != last_day());
    lemma_next_index(a);
    let n = next_v(a);
    if n == b {
    } else {
        lemma_next_le(a, b);
        lemma_index_mono(n, b);
    }
}

/// Law: the index respects the chronological order exactly, so it is a
/// bijection between well-formed dates and their index range.
pub proof fn lemma_index_order(a: DateV, b: DateV)
    requires
        date_wf(a),
        date_wf(b),
    ensures
        date_le_v(a, b) <==> date_index(a) <= date_index(b),
        a == b <==> date_index(a) == date_index(b),
{
    if a != b {
        if date_le_v(a, b) {
            lemma_index_mono(a, b);
        } else {
            assert(date_lt_v(b, a));
            lemma_index_mono(b, a);
        }
    }
}

/// Law: the index of a well-formed date lies between the indices of the
/// first and last supported days.
pub proof fn lemma_index_range(v: DateV)
    requires
        date_wf(v),
    ensures
        min_index() <= date_index(v) <= max_index(),
        min_index() == 365243,
        max_index() == 3652424,
{
    assert(date_wf(first_day()));
    assert(date_wf(last_day()));
    lemma_index_order(first_day(), v);
    lemma_index_order(v, last_day());
    assert(min_index() == 365243);
    assert(max_index() == 3652424);
}

/// The well-formed date at a given index; meaningful for indices between
/// `min_index()` and `max_index()`, where such a date exists and is
/// unique.
pub open spec fn date_of_index(i: int) -> DateV {
    choose|v: DateV| date_wf(v) && date_index(v) == i
}

/// Law: `date_of_index` inverts `date_index` on well-formed dates.
pub proof fn lemma_date_of_index(d: DateV)
    requires
        date_wf(d),
    ensures
        date_of_index(date_index(d)) == d,
{
    assert(date_wf(d) && date_index(d) == date_index(d));
    let w = date_of_index(date_index(d));
    assert(date_wf(w) && date_index(w) == date_index(d));
    lemma_index_order(w, d);
}

/// Law: a date jumped forward by `n` days and back by `n` days is the
/// original date, because a well-formed date is pinned by its index.
pub proof fn lemma_jump_day_roundtrip(d: DateV, e: DateV, f: DateV, n: int)
    requires
        date_wf(d),
        date_wf(e),
        date_wf(f),
        date_index(e) == date_index(d) + n,
        date_index(f) == date_index(e) - n,
    ensures
        f == d,
{
    lemma_index_order(f, d);
}

/// Law: two dates are the same value exactly when their models agree.
pub proof fn lemma_date_view_injective(a: Date, b: Date)
    ensures
        a@ == b@ <==> a == b,
{
    if a@ == b@ {
        assert(a.month.num() == b.month.num());
        assert(a.month == b.month);
        assert(a == b);
    }
}

/// A date with day precision over the supported years `1000..=9999`.
///
/// Values are only built through validating or index-preserving
/// operations, so `day` is always legal for `(year, month)`.
#[derive(Debug, Clone, Copy, PartialEq, Eq, Structural, PartialOrd, Ord, Hash)]
pub struct Date {
    year: u16,
    month: Month,
    day: u8,
}

impl View for Date {
    type V = DateV;

    closed spec fn view(&self) -> DateV {
        DateV { year: self.year as int, month: self.month.num(), day: self.day as int }
    }
}

/// Ways in which a date taken from user input can be wrong.
#[derive(Debug, Clone, Copy, PartialEq, Eq, Structural)]
pub enum DateError {
    /// year is outside of 1000..=9999
    UnsupportedYear(usize),
    /// Feb 29 of a non-leap year
    NotBissextile(usize),
    /// Feb 30 or Feb 31 or 31st day of a 30-day month
    MonthTooShort(Month, usize),
    /// day outside of 1..=31
    InvalidDay(usize),
}

impl Date {
    /// The earliest supported date, 1000-Jan-01, used as the sentinel for
    /// a missing lower bound.
    pub fn min_date() -> (r: Date)
        ensures
            r@ == first_day(),
            date_wf(r@),
    {
        Date { year: 1000, month: Month::Jan, day: 1 }
    }

    /// The latest supported date, 9999-Dec-31, used as the sentinel for a
    /// missing upper bound.
    pub fn max_date() -> (r: Date)
        ensures
            r@ == last_day(),
            date_wf(r@),
    {
        Date { year: 9999, month: Month::Dec, day: 31 }
    }

    /// Validate year-month-day into a date.
    ///
    /// Returns `Ok` exactly on legal dates of the supported years; each
    /// error names the offending value.
    pub fn from(year: usize, month: Month, day: usize) -> (r: Result<Date, DateError>)
        ensures
            r is Ok <==> (1000 <= year <= 9999 && 1 <= day <= month_len(
                year as int,
                month.num(),
            )),
            r matches Ok(d) ==> d@ == (DateV {
                year: year as int,
                month: month.num(),
                day: day as int,
            }) && date_wf(d@),
            !(1000 <= year <= 9999) ==> r == Err::<Date, DateError>(DateError::UnsupportedYear(
                year,
            )),
            1000 <= year <= 9999 && (day == 0 || day > 31) ==> r == Err::<Date, DateError>(
                DateError::InvalidDay(day),
            ),
            1000 <= year <= 9999 && 1 <= day <= 31 && day > month_len(year as int, month.num())
                && day >= 30 ==> r == Err::<Date, DateError>(DateError::MonthTooShort(month, day)),
            1000 <= year <= 9999 && 1 <= day <= 31 && day > month_len(year as int, month.num())
                && day < 30 ==> r == Err::<Date, DateError>(DateError::NotBissextile(year)),
    {
        if year < 1000 || year > 9999 {
            Err(DateError::UnsupportedYear(year))
        } else if day == 0 || day > 31 {
            Err(DateError::InvalidDay(day))
        } else if day <= month.count(year as u16) as usize {
            Ok(Date { year: year as u16, month, day: day as u8 })
        } else if day >= 30 {
            Err(DateError::MonthTooShort(month, day))
        } else {
            Err(DateError::NotBissextile(year))
        }
    }

    /// `day` accessor.
    pub fn day(&self) -> (d: u8)
        ensures
            d as int == self@.day,
    {
        self.day
    }

    /// `month` accessor.
    pub fn month(&self) -> (m: Month)
        ensures
            m.num() == self@.month,
    {
        self.month
    }

    /// `year` accessor.
    pub fn year(&self) -> (y: u16)
        ensures
            y as int == self@.year,
    {
        self.year
    }

    /// Chronological comparison, `self <= other`.
    pub fn le(&self, other: &Date) -> (r: bool)
        ensures
            r == date_le_v(self@, other@),
    {
        self.year < other.year || (self.year == other.year && (self.month.number()
            < other.month.number() || (self.month == other.month && self.day <= other.day)))
    }

    /// Chronological comparison, `self < other`.
    pub fn lt(&self, other: &Date) -> (r: bool)
        ensures
            r == date_lt_v(self@, other@),
    {
        self.year < other.year || (self.year == other.year && (self.month.number()
            < other.month.number() || (self.month == other.month && self.day < other.day)))
    }

    /// The chronologically earlier of two dates.
    pub fn earlier(self, other: Date) -> (r: Date)
        ensures
            r == if date_le_v(self@, other@) {
                self
            } else {
                other
            },
    {
        if self.le(&other) {
            self
        } else {
            other
        }
    }

    /// The chronologically later of two dates.
    pub fn later(self, other: Date) -> (r: Date)
        ensures
            r == if date_le_v(self@, other@) {
                other
            } else {
                self
            },
    {
        if self.le(&other) {
            other
        } else {
            self
        }
    }

    /// Biject the dates with integers: the successor of a date has the
    /// next index.
    pub fn index(self) -> (n: usize)
        requires
            date_wf(self@),
        ensures
            n as int == date_index(self@),
    {
        let y = self.year as usize;
        let years: usize = if self.month.number() <= 1 {
            y - 1
        } else {
            y
        };
        proof {
            lemma_leap_nonneg(years as int);
        }
        let leaps: usize = years / 4 - years / 100 + years / 400;
        let cum: usize = match self.month {
            Month::Jan => 0,
            Month::Feb => 31,
            Month::Mar => 59,
            Month::Apr => 90,
            Month::May => 120,
            Month::Jun => 151,
            Month::Jul => 181,
            Month::Aug => 212,
            Month::Sep => 243,
            Month::Oct => 273,
            Month::Nov => 304,
            Month::Dec => 334,
        };
        y * 365 + self.day as usize + cum + leaps
    }

    /// Day of week of this date.
    pub fn weekday(self) -> (w: Weekday)
        requires
            date_wf(self@),
        ensures
            w.num() == weekday_num(self@),
    {
        proof {
            lemma_index_range(self@);
        }
        let idx = self.index();
        proof {
            lemma_mod_pos_bound(idx - 2, 7);
        }
        Weekday::from_number((idx - 2) % 7)
    }

    /// The day after this one.
    pub fn next(self) -> (r: Date)
        requires
            date_wf(self@),
            self@ != last_day(),
        ensures
            r@ == next_v(self@),
            date_wf(r@),
            date_index(r@) == date_index(self@) + 1,
    {
        proof {
            lemma_next_index(self@);
        }
        if self.month.count(self.year) == self.day {
            if self.month == Month::Dec {
                Date { year: self.year + 1, month: Month::Jan, day: 1 }
            } else {
                Date { month: self.month.next(), day: 1, ..self }
            }
        } else {
            Date { day: self.day + 1, ..self }
        }
    }

    /// The day before this one.
    pub fn prev(self) -> (r: Date)
        requires
            date_wf(self@),
            self@ != first_day(),
        ensures
            r@ == prev_v(self@),
            date_wf(r@),
            date_index(r@) == date_index(self@) - 1,
    {
        proof {
            lemma_prev_next(self@);
        }
        if self.day == 1 {
            if self.month == Month::Jan {
                Date { year: self.year - 1, month: Month::Dec, day: 31 }
            } else {
                let month = self.month.prev();
                Date { month, day: month.count(self.year), ..self }
            }
        } else {
            Date { day: self.day - 1, ..self }
        }
    }

    /// `count` days before or after the current date, exactly: the index
    /// of the result is the index of `self` plus `count`.
    pub fn jump_day(self, count: isize) -> (r: Date)
        requires
            date_wf(self@),
            min_index() <= date_index(self@) + count <= max_index(),
        ensures
            date_wf(r@),
            date_index(r@) == date_index(self@) + count,
    {
        proof {
            lemma_index_range(self@);
        }
        let idx: usize = self.index();
        let target: usize = if count >= 0 {
            idx + (count as usize)
        } else {
            idx - ((-count) as usize)
        };
        let mut d = self;
        let mut i: usize = idx;
        while i < target
            invariant
                date_wf(d@),
                i as int == date_index(d@),
                target as int == date_index(self@) + count,
                target <= 3652424,
            decreases target - i,
        {
            proof {
                lemma_index_range(d@);
                if d@ == last_day() {
                    assert(date_index(d@) == max_index());
                }
            }
            d = d.next();
            i = i + 1;
        }
        while i > target
            invariant
                date_wf(d@),
                i as int == date_index(d@),
                i >= target,
                target as int == date_index(self@) + count,
                target >= 365243,
            decreases i - target,
        {
            proof {
                lemma_index_range(d@);
                if d@ == first_day() {
                    assert(date_index(d@) == min_index());
                }
            }
            d = d.prev();
            i = i - 1;
        }
        d
    }

    /// `count` months before or after the current date.
    ///
    /// The day is truncated to fit in the new month: one month after
    /// `2000-Jan-31` is `2000-Feb-29`.
    pub fn jump_month(self, count: isize) -> (r: Date)
        requires
            date_wf(self@),
            12000 <= self@.year * 12 + self@.month + count <= 119999,
        ensures
            date_wf(r@),
            r@ == jump_month_v(self@, count as int),
    {
        let total: usize = ((self.year as isize) * 12 + self.month.number() as isize + count)
            as usize;
        proof {
            lemma_fundamental_div_mod(total as int, 12);
            lemma_mod_pos_bound(total as int, 12);
        }
        let year: u16 = (total / 12) as u16;
        let month = Month::from_number(total % 12);
        let ml = month.count(year);
        let day: u8 = if self.day <= ml {
            self.day
        } else {
            ml
        };
        Date { year, month, day }
    }

    /// `count` years before or after the current date.
    ///
    /// The day is truncated in the rare case where it is needed: one year
    /// after `2000-Feb-29` is `2001-Feb-28`.
    pub fn jump_year(self, count: isize) -> (r: Date)
        requires
            date_wf(self@),
            1000 <= self@.year + count <= 9999,
        ensures
            date_wf(r@),
            r@ == jump_year_v(self@, count as int),
    {
        let year: u16 = ((self.year as isize) + count) as u16;
        if self.month == Month::Feb && self.day == 29 && !is_leap(year) {
            Date { year, day: 28, ..self }
        } else {
            Date { year, ..self }
        }
    }

    /// First day of the current month.
    pub fn start_of_month(self) -> (r: Date)
        requires
            date_wf(self@),
        ensures
            date_wf(r@),
            r@ == start_of_month_v(self@),
    {
        Date { day: 1, ..self }
    }

    /// Last day of the current month.
    pub fn end_of_month(self) -> (r: Date)
        requires
            date_wf(self@),
        ensures
            date_wf(r@),
            r@ == end_of_month_v(self@),
    {
        Date { day: self.month.count(self.year), ..self }
    }

    /// Jan 1st of the current year.
    pub fn start_of_year(self) -> (r: Date)
        requires
            date_wf(self@),
        ensures
            date_wf(r@),
            r@ == start_of_year_v(self@),
    {
        Date { day: 1, month: Month::Jan, ..self }
    }

    /// Dec 31st of the current year.
    pub fn end_of_year(self) -> (r: Date)
        requires
            date_wf(self@),
        ensures
            date_wf(r@),
            r@ == end_of_year_v(self@),
    {
        Date { day: 31, month: Month::Dec, ..self }
    }

    /// First Monday before (or on) the current date.
    pub fn start_of_week(self) -> (r: Date)
        requires
            date_wf(self@),
            min_index() <= date_index(self@) - weekday_num(self@),
        ensures
            date_wf(r@),
            date_index(r@) == date_index(self@) - weekday_num(self@),
            weekday_num(r@) == 0,
    {
        proof {
            lemma_mod_pos_bound(date_index(self@) - 2, 7);
            lemma_index_range(self@);
        }
        let w = self.weekday().number();
        let r = self.jump_day(-(w as isize));
        proof {
            lemma_fundamental_div_mod(date_index(self@) - 2, 7);
            lemma_fundamental_div_mod_converse(
                date_index(r@) - 2,
                7,
                (date_index(self@) - 2) / 7,
                0,
            );
        }
        r
    }

    /// First Sunday after (or on) the current date.
    pub fn end_of_week(self) -> (r: Date)
        requires
            date_wf(self@),
            date_index(self@) + 6 - weekday_num(self@) <= max_index(),
        ensures
            date_wf(r@),
            date_index(r@) == date_index(self@) + 6 - weekday_num(self@),
            weekday_num(r@) == 6,
    {
        proof {
            lemma_mod_pos_bound(date_index(self@) - 2, 7);
            lemma_index_range(self@);
        }
        let w = self.weekday().number();
        let r = self.jump_day(6 - w as isize);
        proof {
            lemma_fundamental_div_mod(date_index(self@) - 2, 7);
            lemma_fundamental_div_mod_converse(
                date_index(r@) - 2,
                7,
                (date_index(self@) - 2) / 7,
                6,
            );
        }
        r
    }

    /// Step backward within the month until the day is below `d`; if the
    /// month's first day is reached first, step to the end of the
    /// previous month.
    pub fn cap_day(self, d: u8) -> (r: Date)
        requires
            date_wf(self@),
            d >= 1,
            d >= 2 || !(self@.year == 1000 && self@.month == 0),
        ensures
            date_wf(r@),
            r@ == cap_day_v(self@, d as int),
    {
        if self.day < d {
            self
        } else if d >= 2 {
            Date { day: d - 1, ..self }
        } else {
            Date { day: 1, ..self }.prev()
        }
    }
}

/// The 3-letter abbreviation of a month (0-based).
pub open spec fn month_chars(m: int) -> Seq<char> {
    if m == 0 {
        "Jan"@
    } else if m == 1 {
        "Feb"@
    } else if m == 2 {
        "Mar"@
    } else if m == 3 {
        "Apr"@
    } else if m == 4 {
        "May"@
    } else if m == 5 {
        "Jun"@
    } else if m == 6 {
        "Jul"@
    } else if m == 7 {
        "Aug"@
    } else if m == 8 {
        "Sep"@
    } else if m == 9 {
        "Oct"@
    } else if m == 10 {
        "Nov"@
    } else {
        "Dec"@
    }
}

/// The 3-letter abbreviation of a weekday (0-based, Monday first).
pub open spec fn weekday_chars(w: int) -> Seq<char> {
    if w == 0 {
        "Mon"@
    } else if w == 1 {
        "Tue"@
    } else if w == 2 {
        "Wed"@
    } else if w == 3 {
        "Thu"@
    } else if w == 4 {
        "Fri"@
    } else if w == 5 {
        "Sat"@
    } else {
        "Sun"@
    }
}

/// The month at a 0-based position of the year.
pub open spec fn month_of_num(n: int) -> Month {
    if n == 0 {
        Month::Jan
    } else if n == 1 {
        Month::Feb
    } else if n == 2 {
        Month::Mar
    } else if n == 3 {
        Month::Apr
    } else if n == 4 {
        Month::May
    } else if n == 5 {
        Month::Jun
    } else if n == 6 {
        Month::Jul
    } else if n == 7 {
        Month::Aug
    } else if n == 8 {
        Month::Sep
    } else if n == 9 {
        Month::Oct
    } else if n == 10 {
        Month::Nov
    } else {
        Month::Dec
    }
}

/// The text form of a date: `YYYY-Mmm-DD`, day zero-padded to 2 digits.
pub open spec fn date_chars(v: DateV) -> Seq<char> {
    crate::fmtnum::dec_chars(v.year as nat) + "-"@ + month_chars(v.month) + "-"@
        + crate::fmtnum::dec2_chars(v.day as nat)
}

impl Month {
    /// The month's 3-letter abbreviation.
    pub fn name(self) -> (r: &'static str)
        ensures
            r@ == month_chars(self.num()),
    {
        match self {
            Month::Jan => "Jan",
            Month::Feb => "Feb",
            Month::Mar => "Mar",
            Month::Apr => "Apr",
            Month::May => "May",
            Month::Jun => "Jun",
            Month::Jul => "Jul",
            Month::Aug => "Aug",
            Month::Sep => "Sep",
            Month::Oct => "Oct",
            Month::Nov => "Nov",
            Month::Dec => "Dec",
        }
    }
}

impl Weekday {
    /// The weekday's 3-letter abbreviation.
    pub fn name(self) -> (r: &'static str)
        ensures
            r@ == weekday_chars(self.num()),
    {
        match self {
            Weekday::Mon => "Mon",
            Weekday::Tue => "Tue",
            Weekday::Wed => "Wed",
            Weekday::Thu => "Thu",
            Weekday::Fri => "Fri",
            Weekday::Sat => "Sat",
            Weekday::Sun => "Sun",
        }
    }
}

impl Date {
    /// Render the date as `YYYY-Mmm-DD`.
    pub fn text(&self) -> (r: String)
        requires
            date_wf(self@),
        ensures
            r@ == date_chars(self@),
    {
        let mut r = crate::fmtnum::usize_string(self.year as usize);
        r.append("-");
        r.append(self.month.name());
        r.append("-");
        r.append(crate::fmtnum::usize_string2(self.day as usize).as_str());
        r
    }
}

/// The explanation a date error renders as.
pub open spec fn date_error_chars(e: DateError) -> Seq<char> {
    match e {
        DateError::UnsupportedYear(y) => crate::fmtnum::dec_chars(y as nat)
            + " is outside of the supported range for years"@,
        DateError::NotBissextile(y) => crate::fmtnum::dec_chars(y as nat)
            + " is not bissextile, Feb 29 does not exist"@,
        DateError::MonthTooShort(m, d) => month_chars(m.num())
            + " is a short month, it does not have a "@ + crate::fmtnum::dec_chars(d as nat)
            + "th day"@,
        DateError::InvalidDay(d) => crate::fmtnum::dec_chars(d as nat) + " is not a valid day"@,
    }
}

/// The fix hint a date error carries.
pub open spec fn fix_hint_chars(e: DateError) -> Seq<char> {
    match e {
        DateError::UnsupportedYear(_) => "year should be between 1000 and 9999 inclusive"@,
        DateError::NotBissextile(y) => "did you mean "@ + crate::fmtnum::dec_chars(y as nat)
            + "-Feb-28 or "@ + crate::fmtnum::dec_chars(y as nat) + "-Mar-01 ?"@,
        DateError::MonthTooShort(m, d) => month_chars(m.num()) + " is only "@
            + crate::fmtnum::dec_chars(
            if m.num() == 1 {
                if d >= 29 {
                    (d - 1) as nat
                } else {
                    28nat
                }
            } else {
                30nat
            },
        ) + " days long"@,
        DateError::InvalidDay(d) => crate::fmtnum::dec_chars(d as nat)
            + " is not in the range 1 ..= 31"@,
    }
}

impl DateError {
    /// Render what is wrong with the date.
    pub fn text(&self) -> (r: String)
        ensures
            r@ == date_error_chars(*self),
    {
        match self {
            DateError::UnsupportedYear(y) => {
                let mut r = crate::fmtnum::usize_string(*y);
                r.append(" is outside of the supported range for years");
                r
            },
            DateError::NotBissextile(y) => {
                let mut r = crate::fmtnum::usize_string(*y);
                r.append(" is not bissextile, Feb 29 does not exist");
                r
            },
            DateError::MonthTooShort(m, d) => {
                let mut r = m.name().to_owned();
                r.append(" is a short month, it does not have a ");
                r.append(crate::fmtnum::usize_string(*d).as_str());
                r.append("th day");
                r
            },
            DateError::InvalidDay(d) => {
                let mut r = crate::fmtnum::usize_string(*d);
                r.append(" is not a valid day");
                r
            },
        }
    }

    /// What message to show to help fix the date error.
    pub fn fix_hint(self) -> (r: String)
        ensures
            r@ == fix_hint_chars(self),
    {
        match self {
            DateError::UnsupportedYear(_) => String::from_str(
                "year should be between 1000 and 9999 inclusive",
            ),
            DateError::NotBissextile(y) => {
                let mut r = String::from_str("did you mean ");
                r.append(crate::fmtnum::usize_string(y).as_str());
                r.append("-Feb-28 or ");
                r.append(crate::fmtnum::usize_string(y).as_str());
                r.append("-Mar-01 ?");
                r
            },
            DateError::MonthTooShort(m, d) => {
                let shown: usize = if matches!(m, Month::Feb) {
                    if d >= 29 {
                        d - 1
                    } else {
                        28
                    }
                } else {
                    30
                };
                let mut r = m.name().to_owned();
                r.append(" is only ");
                r.append(crate::fmtnum::usize_string(shown).as_str());
                r.append(" days long");
                r
            },
            DateError::InvalidDay(d) => {
                let mut r = crate::fmtnum::usize_string(d);
                r.append(" is not in the range 1 ..= 31");
                r
            },
        }
    }
}

proof fn lemma_leap_nonneg(y: int)
    requires
        y >= 0,
    ensures
        0 <= y / 100 <= y / 4,
        y / 4 <= y,
        0 <= y / 400,
{
    lemma_fundamental_div_mod(y, 4);
    lemma_mod_pos_bound(y, 4);
    lemma_fundamental_div_mod(y, 100);
    lemma_mod_pos_bound(y, 100);
    lemma_fundamental_div_mod(y, 400);
    lemma_mod_pos_bound(y, 400);
}

} // verus!
