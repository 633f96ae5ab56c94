//! Expense entries and their fields: amounts with cent precision,
//! categories, spans that resolve to concrete date ranges, and the
//! proportional allocation ("prorating") of an entry's value over a
//! sub-period of its validity period.

use crate::date::{
    cap_day_v, date_index, date_le_v, date_wf, end_of_month_v, end_of_year_v, first_day,
    jump_month_v, jump_year_v, last_day, max_index, min_index, next_v, prev_v, start_of_month_v,
    start_of_year_v, weekday_num, Date, DateV,
};
use crate::period::{between_wf, date_max_v, date_min_v, Between};
use vstd::arithmetic::div_mod::{
    lemma_div_by_multiple, lemma_div_is_ordered, lemma_fundamental_div_mod, lemma_mod_pos_bound,
};
use vstd::math::abs;
use vstd::prelude::*;

verus! {

/// A quantity of money with cent precision.
#[derive(Debug, Clone, Copy, PartialEq, Eq, Structural, PartialOrd, Ord, Hash)]
pub struct Amount(pub isize);

impl Amount {
    /// The zero amount.
    pub fn zero() -> (r: Amount)
        ensures
            r.0 == 0,
    {
        Amount(0)
    }

    /// An amount from a number of cents.
    pub fn from(i: isize) -> (r: Amount)
        ensures
            r.0 == i,
    {
        Amount(i)
    }

    /// Sum of two amounts.
    pub fn plus(self, other: Amount) -> (r: Amount)
        requires
            isize::MIN <= self.0 + other.0 <= isize::MAX,
        ensures
            r.0 == self.0 + other.0,
    {
        Amount(self.0 + other.0)
    }

    /// The opposite amount.
    pub fn negated(self) -> (r: Amount)
        requires
            self.0 != isize::MIN,
        ensures
            r.0 == -self.0,
    {
        Amount(-self.0)
    }
}

/// The text form of an amount: sign, euros, a dot, cents zero-padded to
/// two digits, and the currency sign.
pub open spec fn amount_chars(v: int) -> Seq<char> {
    (if v < 0 {
        "-"@
    } else {
        Seq::<char>::empty()
    }) + crate::fmtnum::dec_chars((abs(v) / 100) as nat) + "."@ + crate::fmtnum::dec2_chars(
        (abs(v) % 100) as nat,
    ) + "\u{20ac}"@
}

impl Amount {
    /// Render the amount with cent precision.
    pub fn text(&self) -> (r: String)
        requires
            self.0 > isize::MIN,
        ensures
            r@ == amount_chars(self.0 as int),
    {
        let mag: usize = if self.0 >= 0 {
            self.0 as usize
        } else {
            (-self.0) as usize
        };
        let mut r = if self.0 >= 0 {
            String::new()
        } else {
            String::from_str("-")
        };
        r.append(crate::fmtnum::usize_string(mag / 100).as_str());
        r.append(".");
        r.append(crate::fmtnum::usize_string2(mag % 100).as_str());
        r.append("\u{20ac}");
        proof {
            assert(r@ =~= amount_chars(self.0 as int));
        }
        r
    }
}

/// A label for an expense.
#[derive(Debug, Clone, PartialEq, Eq)]
pub struct Tag(pub String);

impl Tag {
    /// The empty label.
    pub fn new() -> (r: Tag)
        ensures
            r.0@ == Seq::<char>::empty(),
    {
        Tag(String::new())
    }

    /// Append text to the label.
    pub fn push(&mut self, s: &str)
        ensures
            final(self).0@ == old(self).0@ + s@,
    {
        self.0.append(s);
    }
}

/// Kinds of expenses.
#[derive(Debug, Clone, Copy, PartialEq, Eq, Structural, Hash)]
pub enum Category {
    Salary,
    Home,
    School,
    Cleaning,
    Movement,
    Tech,
    Food,
    Fun,
}

impl Category {
    /// How many categories there are.
    pub const COUNT: usize = 8;

    /// Position of the category in the fixed enumeration.
    pub open spec fn num(self) -> int {
        match self {
            Category::Salary => 0,
            Category::Home => 1,
            Category::School => 2,
            Category::Cleaning => 3,
            Category::Movement => 4,
            Category::Tech => 5,
            Category::Food => 6,
            Category::Fun => 7,
        }
    }

    /// Position of the category in the fixed enumeration.
    pub fn number(self) -> (n: usize)
        ensures
            n == self.num(),
            n < 8,
    {
        match self {
            Category::Salary => 0,
            Category::Home => 1,
            Category::School => 2,
            Category::Cleaning => 3,
            Category::Movement => 4,
            Category::Tech => 5,
            Category::Food => 6,
            Category::Fun => 7,
        }
    }

    /// The category at position `n`, for `n` below the category count.
    pub fn from_usize(n: usize) -> (r: Option<Category>)
        ensures
            r is Some <==> n < 8,
            r matches Some(c) ==> c.num() == n,
    {
        match n {
            0 => Some(Category::Salary),
            1 => Some(Category::Home),
            2 => Some(Category::School),
            3 => Some(Category::Cleaning),
            4 => Some(Category::Movement),
            5 => Some(Category::Tech),
            6 => Some(Category::Food),
            7 => Some(Category::Fun),
            _ => None,
        }
    }

    /// Whether the category counts as income rather than expense.
    pub fn sign(self) -> (r: bool)
        ensures
            r <==> self == Category::Salary,
    {
        match self {
            Category::Salary => true,
            _ => false,
        }
    }
}

/// Granularity of a `Span`'s length.
#[derive(Debug, Clone, Copy, PartialEq, Eq, Structural, PartialOrd, Ord, Hash)]
pub enum Duration {
    Day,
    Week,
    Month,
    Year,
}

impl Duration {
    /// Adjective for the duration, as a table or plot title.
    pub fn text_frequency(self) -> (r: &'static str)
        ensures
            r@ == match self {
                Duration::Day => "Daily"@,
                Duration::Week => "Weekly"@,
                Duration::Month => "Monthly"@,
                Duration::Year => "Yearly"@,
            },
    {
        match self {
            Duration::Day => "Daily",
            Duration::Week => "Weekly",
            Duration::Month => "Monthly",
            Duration::Year => "Yearly",
        }
    }
}

/// Position of a `Span` relative to its reference date.
#[derive(Debug, Clone, Copy, PartialEq, Eq, Structural, Hash)]
pub enum Window {
    Current,
    Posterior,
    Anterior,
    Precedent,
    Successor,
}

/// A date-relative range descriptor: `count` periods of `duration`
/// placed by `window` around a reference date.
#[derive(Debug, Clone, Copy, PartialEq, Eq, Structural)]
pub struct Span {
    pub duration: Duration,
    pub window: Window,
    pub count: usize,
}

/// Whether a span can be resolved at a reference date without leaving
/// the supported years: the reference keeps a margin of `count` periods
/// (plus rollover slack) on both sides.
pub open spec fn span_fits(duration: Duration, count: int, v: DateV) -> bool {
    &&& 1 <= count
    &&& match duration {
        Duration::Day => min_index() <= date_index(v) - count - 1 && date_index(v) + count + 1
            <= max_index(),
        Duration::Week => min_index() <= date_index(v) - 7 * count - 13 && date_index(v) + 7
            * count + 13 <= max_index(),
        Duration::Month => 12001 + count <= v.year * 12 + v.month && v.year * 12 + v.month
            <= 119998 - count,
        Duration::Year => 1001 + count <= v.year && v.year <= 9998 - count,
    }
}

/// Exact resolution of a span at a reference date `v`, as a relation on
/// the two endpoints: each of the 20 `(duration, window)` cases is pinned
/// either through the date index or through the primitive date steps.
pub open spec fn span_period_rel(
    duration: Duration,
    window: Window,
    n: int,
    v: DateV,
    lo: DateV,
    hi: DateV,
) -> bool {
    match (duration, window) {
        (Duration::Day, Window::Precedent) => date_index(lo) == date_index(v) - n && date_index(hi)
            == date_index(v) - 1,
        (Duration::Day, Window::Successor) => date_index(lo) == date_index(v) + 1 && date_index(hi)
            == date_index(v) + n,
        (Duration::Day, Window::Anterior) => date_index(lo) == date_index(v) - n + 1 && hi == v,
        (Duration::Day, _) => lo == v && date_index(hi) == date_index(v) + n - 1,
        (Duration::Week, Window::Current) => date_index(lo) == date_index(v) - weekday_num(v)
            && date_index(hi) == date_index(lo) + 7 * n - 1,
        (Duration::Week, Window::Anterior) => date_index(lo) == date_index(v) - 7 * n + 1 && hi
            == v,
        (Duration::Week, Window::Posterior) => lo == v && date_index(hi) == date_index(v) + 7 * n
            - 1,
        (Duration::Week, Window::Precedent) => date_index(lo) == date_index(v) - weekday_num(v) - 7
            * n && date_index(hi) == date_index(v) - weekday_num(v) - 1,
        (Duration::Week, Window::Successor) => date_index(lo) == date_index(v) + 7 - weekday_num(v)
            && date_index(hi) == date_index(v) + 6 - weekday_num(v) + 7 * n,
        (Duration::Month, Window::Current) => lo == start_of_month_v(v) && hi == end_of_month_v(
            jump_month_v(v, n - 1),
        ),
        (Duration::Month, Window::Posterior) => lo == v && hi == cap_day_v(
            jump_month_v(v, n),
            v.day,
        ),
        (Duration::Month, Window::Anterior) => lo == next_v(jump_month_v(v, -n)) && hi == v,
        (Duration::Month, Window::Precedent) => lo == jump_month_v(start_of_month_v(v), -n) && hi
            == prev_v(start_of_month_v(v)),
        (Duration::Month, Window::Successor) => lo == next_v(end_of_month_v(v)) && hi
            == jump_month_v(end_of_month_v(v), n),
        (Duration::Year, Window::Current) => lo == start_of_year_v(v) && hi == jump_year_v(
            end_of_year_v(v),
            n - 1,
        ),
        (Duration::Year, Window::Posterior) => lo == v && hi == cap_day_v(
            jump_year_v(v, n),
            v.day,
        ),
        (Duration::Year, Window::Anterior) => lo == next_v(jump_year_v(v, -n)) && hi == v,
        (Duration::Year, Window::Precedent) => lo == jump_year_v(start_of_year_v(v), -n) && hi
            == prev_v(start_of_year_v(v)),
        (Duration::Year, Window::Successor) => lo == next_v(end_of_year_v(v)) && hi == jump_year_v(
            end_of_year_v(v),
            n,
        ),
    }
}

/// Functional form of span resolution: the endpoints of the resolved
/// range, each obtained from the primitive date steps or, for day-level
/// movements, from the index bijection.
pub open spec fn span_period_v(duration: Duration, window: Window, n: int, v: DateV) -> (
    DateV,
    DateV,
) {
    let of = |i: int| crate::date::date_of_index(i);
    match (duration, window) {
        (Duration::Day, Window::Precedent) => (of(date_index(v) - n), of(date_index(v) - 1)),
        (Duration::Day, Window::Successor) => (of(date_index(v) + 1), of(date_index(v) + n)),
        (Duration::Day, Window::Anterior) => (of(date_index(v) - n + 1), v),
        (Duration::Day, _) => (v, of(date_index(v) + n - 1)),
        (Duration::Week, Window::Current) => (
            of(date_index(v) - weekday_num(v)),
            of(date_index(v) - weekday_num(v) + 7 * n - 1),
        ),
        (Duration::Week, Window::Anterior) => (of(date_index(v) - 7 * n + 1), v),
        (Duration::Week, Window::Posterior) => (v, of(date_index(v) + 7 * n - 1)),
        (Duration::Week, Window::Precedent) => (
            of(date_index(v) - weekday_num(v) - 7 * n),
            of(date_index(v) - weekday_num(v) - 1),
        ),
        (Duration::Week, Window::Successor) => (
            of(date_index(v) + 7 - weekday_num(v)),
            of(date_index(v) + 6 - weekday_num(v) + 7 * n),
        ),
        (Duration::Month, Window::Current) => (
            start_of_month_v(v),
            end_of_month_v(jump_month_v(v, n - 1)),
        ),
        (Duration::Month, Window::Posterior) => (v, cap_day_v(jump_month_v(v, n), v.day)),
        (Duration::Month, Window::Anterior) => (next_v(jump_month_v(v, -n)), v),
        (Duration::Month, Window::Precedent) => (
            jump_month_v(start_of_month_v(v), -n),
            prev_v(start_of_month_v(v)),
        ),
        (Duration::Month, Window::Successor) => (
            next_v(end_of_month_v(v)),
            jump_month_v(end_of_month_v(v), n),
        ),
        (Duration::Year, Window::Current) => (
            start_of_year_v(v),
            jump_year_v(end_of_year_v(v), n - 1),
        ),
        (Duration::Year, Window::Posterior) => (v, cap_day_v(jump_year_v(v, n), v.day)),
        (Duration::Year, Window::Anterior) => (next_v(jump_year_v(v, -n)), v),
        (Duration::Year, Window::Precedent) => (
            jump_year_v(start_of_year_v(v), -n),
            prev_v(start_of_year_v(v)),
        ),
        (Duration::Year, Window::Successor) => (
            next_v(end_of_year_v(v)),
            jump_year_v(end_of_year_v(v), n),
        ),
    }
}

/// Law: the relational span contract pins the endpoints: any well-formed
/// pair satisfying it is exactly the functional resolution.
pub proof fn lemma_span_period_fun(
    duration: Duration,
    window: Window,
    n: int,
    v: DateV,
    lo: DateV,
    hi: DateV,
)
    requires
        date_wf(v),
        date_wf(lo),
        date_wf(hi),
        span_period_rel(duration, window, n, v, lo, hi),
    ensures
        (lo, hi) == span_period_v(duration, window, n, v),
{
    crate::date::lemma_date_of_index(lo);
    crate::date::lemma_date_of_index(hi);
}

impl Span {
    /// Aggregate the three components into a span.
    pub fn from(duration: Duration, window: Window, count: usize) -> (r: Span)
        ensures
            r.duration == duration,
            r.window == window,
            r.count == count,
    {
        Span { duration, window, count }
    }

    /// Decide whether this span can be resolved at a reference date
    /// without leaving the supported years.
    pub fn fits(&self, dt: &Date) -> (b: bool)
        requires
            date_wf(dt@),
        ensures
            b == span_fits(self.duration, self.count as int, dt@),
    {
        proof {
            crate::date::lemma_index_range(dt@);
        }
        if self.count < 1 {
            return false;
        }
        let idx = dt.index();
        match self.duration {
            Duration::Day => idx >= 365244 && self.count <= idx - 365244 && idx <= 3652423
                && self.count <= 3652423 - idx,
            Duration::Week => {
                if self.count > 469593 {
                    return false;
                }
                let w = 7 * self.count;
                idx >= 365243 + w + 13 && idx + w + 13 <= 3652424
            },
            Duration::Month => {
                let t = (dt.year() as usize) * 12 + dt.month().number();
                t >= 12001 && self.count <= t - 12001 && t <= 119998 && self.count <= 119998 - t
            },
            Duration::Year => {
                let y = dt.year() as usize;
                y >= 1002 && self.count <= y - 1002 + 1 && y <= 9997 && self.count <= 9998 - y
            },
        }
    }

    /// Resolve the span at a reference date into a concrete range of
    /// dates, by the 20 `(duration, window)` placement policies.
    #[verifier::rlimit(60)]
    pub fn period(&self, dt: Date) -> (r: Between)
        requires
            date_wf(dt@),
            span_fits(self.duration, self.count as int, dt@),
        ensures
            between_wf(r@),
            span_period_rel(self.duration, self.window, self.count as int, dt@, r.0@, r.1@),
    {
        proof {
            crate::date::lemma_index_range(dt@);
            lemma_index_year_approx(dt@);
        }
        let nb = self.count as isize;
        let (start, end) = match (self.duration, self.window) {
            (Duration::Day, Window::Precedent) => (dt.jump_day(-nb), dt.prev()),
            (Duration::Day, Window::Successor) => (dt.next(), dt.jump_day(nb)),
            (Duration::Day, Window::Anterior) => (dt.jump_day(-nb).next(), dt),
            (Duration::Day, _) => (dt, dt.jump_day(nb).prev()),
            (Duration::Week, Window::Current) => {
                let d = dt.start_of_week();
                (d, dt.end_of_week().jump_day(7 * (nb - 1)))
            },
            (Duration::Week, Window::Anterior) => (dt.jump_day(-(7 * nb)).next(), dt),
            (Duration::Week, Window::Posterior) => (dt, dt.jump_day(7 * nb).prev()),
            (Duration::Week, Window::Precedent) => {
                let d = dt.start_of_week();
                (d.jump_day(-(7 * nb)), d.prev())
            },
            (Duration::Week, Window::Successor) => {
                let d = dt.end_of_week();
                (d.next(), d.jump_day(7 * nb))
            },
            (Duration::Month, Window::Current) => (
                dt.start_of_month(),
                dt.jump_month(nb - 1).end_of_month(),
            ),
            (Duration::Month, Window::Posterior) => (dt, dt.jump_month(nb).cap_day(dt.day())),
            (Duration::Month, Window::Anterior) => (dt.jump_month(-nb).next(), dt),
            (Duration::Month, Window::Precedent) => {
                let d = dt.start_of_month();
                (d.jump_month(-nb), d.prev())
            },
            (Duration::Month, Window::Successor) => {
                let d = dt.end_of_month();
                (d.next(), d.jump_month(nb))
            },
            (Duration::Year, Window::Current) => (
                dt.start_of_year(),
                dt.end_of_year().jump_year(nb - 1),
            ),
            (Duration::Year, Window::Posterior) => (dt, dt.jump_year(nb).cap_day(dt.day())),
            (Duration::Year, Window::Anterior) => (dt.jump_year(-nb).next(), dt),
            (Duration::Year, Window::Successor) => {
                let d = dt.end_of_year();
                (d.next(), d.jump_year(nb))
            },
            (Duration::Year, Window::Precedent) => {
                let d = dt.start_of_year();
                (d.jump_year(-nb), d.prev())
            },
        };
        Between(start, end)
    }
}

/// Rough year-level bracketing of the date index, used to keep jumps
/// within the supported range.
proof fn lemma_index_year_approx(v: DateV)
    requires
        date_wf(v),
    ensures
        v.year * 365 < date_index(v) <= v.year * 365 + 2888,
{
    let y = if v.month <= 1 {
        v.year - 1
    } else {
        v.year
    };
    lemma_fundamental_div_mod(y, 4);
    lemma_mod_pos_bound(y, 4);
    lemma_fundamental_div_mod(y, 100);
    lemma_mod_pos_bound(y, 100);
    lemma_fundamental_div_mod(y, 400);
    lemma_mod_pos_bound(y, 400);
    lemma_div_is_ordered(y, 9999, 4);
    lemma_div_is_ordered(y, 9999, 400);
    assert(9999int / 4 == 2499);
    assert(9999int / 400 == 24);
}

/// Truncating division as the executable code performs it: the quotient
/// of the magnitudes, with the sign of the dividend.
pub open spec fn trunc_div(a: int, b: int) -> int {
    if a >= 0 {
        a / b
    } else {
        -((-a) / b)
    }
}

/// Mathematical model of an entry.
pub struct EntryV {
    pub value: int,
    pub cat: Category,
    pub lo: DateV,
    pub hi: DateV,
    pub length: int,
    pub tag: Option<Seq<char>>,
}

/// A single monetary fact: an amount, a category, a validity period with
/// its cached length in days, and an optional label.
#[derive(Debug, Clone, PartialEq)]
pub struct Entry {
    value: Amount,
    cat: Category,
    period: Between,
    /// cached length of the period for performance
    length: usize,
    tag: Option<Tag>,
}

impl View for Entry {
    type V = EntryV;

    closed spec fn view(&self) -> EntryV {
        EntryV {
            value: self.value.0 as int,
            cat: self.cat,
            lo: self.period.0@,
            hi: self.period.1@,
            length: self.length as int,
            tag: match self.tag {
                Some(ref t) => Some(t.0@),
                None => None,
            },
        }
    }
}

/// A well-formed entry: a non-empty well-formed period, the cached
/// length equal to the period's day count, and a value small enough that
/// prorating arithmetic cannot overflow.
pub open spec fn entry_wf(e: EntryV) -> bool {
    &&& date_wf(e.lo)
    &&& date_wf(e.hi)
    &&& date_le_v(e.lo, e.hi)
    &&& e.length == date_index(e.hi) - date_index(e.lo) + 1
    &&& abs(e.value) * e.length <= isize::MAX
}

/// Value allocated to the day-index range `a..=b` of entry `e`: the
/// difference of the running allocation `value * (days before x) /
/// length` at the two ends, so that adjacent pieces add up exactly.
pub open spec fn piece_v(e: EntryV, a: int, b: int) -> int {
    trunc_div(e.value * (b + 1 - date_index(e.lo)), e.length) - trunc_div(
        e.value * (a - date_index(e.lo)),
        e.length,
    )
}

/// The prorated sub-entry of `e` over the overlap with `p`, label
/// dropped.
pub open spec fn prorate_v(e: EntryV, p: (DateV, DateV)) -> EntryV {
    let start = date_max_v(e.lo, p.0);
    let end = date_min_v(e.hi, p.1);
    EntryV {
        value: piece_v(e, date_index(start), date_index(end)),
        cat: e.cat,
        lo: start,
        hi: end,
        length: date_index(end) - date_index(start) + 1,
        tag: None,
    }
}

impl Entry {
    /// Aggregate the fields into a single entry over a non-empty period.
    pub fn from(value: Amount, cat: Category, period: Between, tag: Tag) -> (r: Entry)
        requires
            between_wf(period@),
            date_le_v(period.0@, period.1@),
            abs(value.0 as int) * (date_index(period.1@) - date_index(period.0@) + 1)
                <= isize::MAX,
        ensures
            r@ == (EntryV {
                value: value.0 as int,
                cat,
                lo: period.0@,
                hi: period.1@,
                length: date_index(period.1@) - date_index(period.0@) + 1,
                tag: Some(tag.0@),
            }),
            entry_wf(r@),
    {
        proof {
            crate::date::lemma_index_order(period.0@, period.1@);
        }
        let length = period.1.index() - period.0.index() + 1;
        Entry { value, cat, tag: Some(tag), period, length }
    }

    /// `value` accessor.
    pub fn value(&self) -> (r: Amount)
        ensures
            r.0 as int == self@.value,
    {
        self.value
    }

    /// `category` accessor.
    pub fn category(&self) -> (r: Category)
        ensures
            r == self@.cat,
    {
        self.cat
    }

    /// `period` accessor.
    pub fn period(&self) -> (r: Between)
        ensures
            r.0@ == self@.lo,
            r.1@ == self@.hi,
    {
        self.period
    }

    /// `tag` accessor.
    pub fn tag(&self) -> (r: &Option<Tag>)
        ensures
            match r {
                Some(t) => self@.tag == Some(t.0@),
                None => self@.tag is None,
            },
    {
        &self.tag
    }

    /// Intersect with a period and prorate the value over the overlap,
    /// discarding the label; `None` exactly when there is no overlap.
    #[verifier::rlimit(100)]
    pub fn intersect_loss(&self, period: Between) -> (r: Option<Entry>)
        requires
            entry_wf(self@),
            between_wf(period@),
        ensures
            r is Some <==> date_le_v(
                date_max_v(self@.lo, period.0@),
                date_min_v(self@.hi, period.1@),
            ),
            r matches Some(e) ==> e@ == prorate_v(self@, period@) && entry_wf(e@),
    {
        let start = period.0.later(self.period.0);
        let end = period.1.earlier(self.period.1);
        if end.lt(&start) {
            return None;
        }
        proof {
            crate::date::lemma_index_order(self.period.0@, start@);
            crate::date::lemma_index_order(start@, end@);
            crate::date::lemma_index_order(end@, self.period.1@);
        }
        let idx_old: usize = self.period.0.index();
        let idx_start: usize = start.index();
        let idx_end: usize = end.index();
        let mag: usize = if self.value.0 >= 0 {
            self.value.0 as usize
        } else {
            proof {
                lemma_abs_mul_le(abs(self.value.0 as int) as int, self@.length);
            }
            (-self.value.0) as usize
        };
        proof {
            lemma_abs_mul_le(abs(self.value.0 as int) as int, self@.length);
            lemma_piece_bounds(self@, idx_start as int, idx_end as int);
        }
        let k_end: usize = idx_end + 1 - idx_old;
        let k_start: usize = idx_start - idx_old;
        proof {
            lemma_mul_le_mono(mag as int, k_end as int, self@.length);
            lemma_mul_le_mono(mag as int, k_start as int, self@.length);
        }
        let before_end: usize = mag * k_end / self.length;
        let before_start: usize = mag * k_start / self.length;
        proof {
            lemma_mul_le_mono(mag as int, k_start as int, k_end as int);
            lemma_div_is_ordered(mag as int * k_start as int, mag as int * k_end as int,
                self@.length);
            lemma_mag_div_le(mag as int, k_end as int, self@.length);
            lemma_mag_div_le(mag as int, k_start as int, self@.length);
        }
        let value: isize = if self.value.0 >= 0 {
            (before_end - before_start) as isize
        } else {
            -((before_end - before_start) as isize)
        };
        proof {
            lemma_trunc_div_mag(self@.value, k_end as int, self@.length);
            lemma_trunc_div_mag(self@.value, k_start as int, self@.length);
            assert(value as int == piece_v(self@, idx_start as int, idx_end as int));
            lemma_mul_le_both(
                abs(value as int) as int,
                mag as int,
                (idx_end - idx_start + 1) as int,
                self@.length,
            );
        }
        Some(
            Entry {
                value: Amount(value),
                period: Between(start, end),
                length: idx_end - idx_start + 1,
                tag: None,
                cat: self.cat,
            },
        )
    }

    /// Intersect with a period and prorate the value over the overlap,
    /// keeping the label; `None` exactly when there is no overlap.
    pub fn intersect(self, period: Between) -> (r: Option<Entry>)
        requires
            entry_wf(self@),
            between_wf(period@),
        ensures
            r is Some <==> date_le_v(
                date_max_v(self@.lo, period.0@),
                date_min_v(self@.hi, period.1@),
            ),
            r matches Some(e) ==> e@ == (EntryV {
                tag: self@.tag,
                ..prorate_v(self@, period@)
            }) && entry_wf(e@),
    {
        let result = self.intersect_loss(period);
        let tag = self.tag;
        match result {
            Some(mut entry) => {
                entry.tag = tag;
                Some(entry)
            },
            None => None,
        }
    }
}

proof fn lemma_abs_mul_le(m: int, len: int)
    requires
        0 <= m,
        1 <= len,
        m * len <= isize::MAX,
    ensures
        m <= isize::MAX,
{
    assert(m * 1 <= m * len) by (nonlinear_arith)
        requires
            0 <= m,
            1 <= len,
    ;
}

proof fn lemma_mul_le_mono(m: int, k: int, len: int)
    requires
        0 <= m,
        0 <= k <= len,
    ensures
        m * k <= m * len,
{
    assert(m * k <= m * len) by (nonlinear_arith)
        requires
            0 <= m,
            0 <= k <= len,
    ;
}

proof fn lemma_mag_div_le(m: int, k: int, len: int)
    requires
        0 <= m,
        0 <= k <= len,
        1 <= len,
    ensures
        0 <= m * k / len <= m,
{
    lemma_mul_le_mono(m, k, len);
    lemma_div_is_ordered(m * k, m * len, len);
    lemma_div_by_multiple(m, len);
    assert(m * k >= 0) by (nonlinear_arith)
        requires
            0 <= m,
            0 <= k,
    ;
    vstd::arithmetic::div_mod::lemma_div_pos_is_pos(m * k, len);
}

proof fn lemma_mul_le_both(a: int, m: int, l: int, ll: int)
    requires
        0 <= a <= m,
        0 <= l <= ll,
    ensures
        a * l <= m * ll,
{
    assert(a * l <= m * ll) by (nonlinear_arith)
        requires
            0 <= a <= m,
            0 <= l <= ll,
    ;
}

proof fn lemma_trunc_div_mag(v: int, k: int, len: int)
    requires
        len >= 1,
        k >= 0,
    ensures
        trunc_div(v * k, len) == if v >= 0 {
            (v * k) / len
        } else {
            -(((-v) * k) / len)
        },
{
    if v >= 0 {
        assert(v * k >= 0) by (nonlinear_arith)
            requires
                v >= 0,
                k >= 0,
        ;
    } else {
        assert(v * k <= 0) by (nonlinear_arith)
            requires
                v < 0,
                k >= 0,
        ;
        assert(-(v * k) == (-v) * k) by (nonlinear_arith);
        if v * k == 0 {
            assert(trunc_div(v * k, len) == 0);
            assert(((-v) * k) / len == 0);
        }
    }
}

proof fn lemma_piece_bounds(e: EntryV, a: int, b: int)
    requires
        entry_wf(e),
        date_index(e.lo) <= a <= b <= date_index(e.hi),
    ensures
        0 <= b + 1 - date_index(e.lo) <= e.length,
        0 <= a - date_index(e.lo) <= e.length,
{
}

/// Law: prorating is exact over a split. The value allocated to a range
/// of days is the sum of the values allocated to its two halves, for any
/// cut point, so any partition of a period into contiguous pieces sums
/// back to the value allocated to the whole.
pub proof fn lemma_prorate_split(e: EntryV, a: int, m: int, b: int)
    requires
        entry_wf(e),
        a <= m < b,
    ensures
        piece_v(e, a, m) + piece_v(e, m + 1, b) == piece_v(e, a, b),
{
}

/// The prorated values of the pieces a sequence of cut points carves
/// out of an entry: one piece per adjacent pair, from the first cut
/// inclusive to the next cut exclusive.
pub open spec fn pieces_sum(e: EntryV, cuts: Seq<int>) -> int
    decreases cuts.len(),
{
    if cuts.len() <= 1 {
        0
    } else {
        piece_v(e, cuts[0], cuts[1] - 1) + pieces_sum(e, cuts.drop_first())
    }
}

proof fn lemma_pieces_telescope(e: EntryV, cuts: Seq<int>)
    requires
        entry_wf(e),
        cuts.len() >= 1,
    ensures
        pieces_sum(e, cuts) == trunc_div(
            e.value * (cuts.last() - date_index(e.lo)),
            e.length,
        ) - trunc_div(e.value * (cuts[0] - date_index(e.lo)), e.length),
    decreases cuts.len(),
{
    if cuts.len() > 1 {
        lemma_pieces_telescope(e, cuts.drop_first());
    }
}

/// Law: prorating is idempotent over any partition. For an entry with
/// value V over period P and cut points that carve P into contiguous
/// pieces, the prorated values of the pieces sum back to V exactly.
pub proof fn lemma_prorate_partition(e: EntryV, cuts: Seq<int>)
    requires
        entry_wf(e),
        cuts.len() >= 2,
        cuts[0] == date_index(e.lo),
        cuts.last() == date_index(e.hi) + 1,
    ensures
        pieces_sum(e, cuts) == e.value,
{
    lemma_pieces_telescope(e, cuts);
    lemma_prorate_whole(e);
}

/// Law: the value allocated to the whole validity period is exactly the
/// entry's value.
pub proof fn lemma_prorate_whole(e: EntryV)
    requires
        entry_wf(e),
    ensures
        piece_v(e, date_index(e.lo), date_index(e.hi)) == e.value,
{
    let len = e.length;
    if e.value >= 0 {
        lemma_div_by_multiple(e.value, len);
        assert(e.value * (date_index(e.hi) + 1 - date_index(e.lo)) == e.value * len)
            by (nonlinear_arith)
            requires
                len == date_index(e.hi) - date_index(e.lo) + 1,
        ;
        assert(e.value * 0 == 0) by (nonlinear_arith);
    } else {
        lemma_div_by_multiple(-e.value, len);
        assert(-(e.value * (date_index(e.hi) + 1 - date_index(e.lo))) == -e.value * len)
            by (nonlinear_arith)
            requires
                len == date_index(e.hi) - date_index(e.lo) + 1,
        ;
        assert(e.value * 0 == 0) by (nonlinear_arith);
    }
}

} // verus!
