//! Interval algebra over dates: inclusive ranges and possibly one-sided
//! or degenerate intervals, with `intersect` and `unite` defined by
//! exhaustive case analysis and always normalized.

use crate::date::{
    date_le_v, date_lt_v, date_wf, first_day, last_day, Date, DateV, Month,
};
use crate::record::{Error, ErrorV, ItemV, Loc, Record};
use vstd::prelude::*;

verus! {

/// The later of two date models.
pub open spec fn date_max_v(a: DateV, b: DateV) -> DateV {
    if date_le_v(a, b) {
        b
    } else {
        a
    }
}

/// The earlier of two date models.
pub open spec fn date_min_v(a: DateV, b: DateV) -> DateV {
    if date_le_v(a, b) {
        a
    } else {
        b
    }
}

/// `Between(a, b)` is the range of dates from `a` to `b` inclusive,
/// empty by convention when `a > b`.
#[derive(Debug, Clone, Copy, PartialEq, Eq, Structural)]
pub struct Between(pub Date, pub Date);

/// A range of dates that may also be one-sided (`After`/`Before`) or
/// degenerate (`Empty`/`Unbounded`).
#[derive(Debug, Clone, Copy, PartialEq, Eq, Structural)]
pub enum Interval {
    Between(Date, Date),
    After(Date),
    Before(Date),
    Empty,
    Unbounded,
}

/// Mathematical model of an `Interval`.
pub enum IntervalV {
    Between(DateV, DateV),
    After(DateV),
    Before(DateV),
    Empty,
    Unbounded,
}

impl View for Between {
    type V = (DateV, DateV);

    open spec fn view(&self) -> (DateV, DateV) {
        (self.0@, self.1@)
    }
}

impl View for Interval {
    type V = IntervalV;

    open spec fn view(&self) -> IntervalV {
        match *self {
            Interval::Between(a, b) => IntervalV::Between(a@, b@),
            Interval::After(a) => IntervalV::After(a@),
            Interval::Before(b) => IntervalV::Before(b@),
            Interval::Empty => IntervalV::Empty,
            Interval::Unbounded => IntervalV::Unbounded,
        }
    }
}

/// Both endpoints of a pair of date models are well-formed.
pub open spec fn between_wf(b: (DateV, DateV)) -> bool {
    date_wf(b.0) && date_wf(b.1)
}

/// Every date an interval model mentions is well-formed.
pub open spec fn interval_wf(iv: IntervalV) -> bool {
    match iv {
        IntervalV::Between(a, b) => date_wf(a) && date_wf(b),
        IntervalV::After(a) => date_wf(a),
        IntervalV::Before(b) => date_wf(b),
        IntervalV::Empty => true,
        IntervalV::Unbounded => true,
    }
}

/// Whether a date lies in an interval.
pub open spec fn iv_contains(iv: IntervalV, d: DateV) -> bool {
    match iv {
        IntervalV::Between(lo, hi) => date_le_v(lo, d) && date_le_v(d, hi),
        IntervalV::After(lo) => date_le_v(lo, d),
        IntervalV::Before(hi) => date_le_v(d, hi),
        IntervalV::Empty => false,
        IntervalV::Unbounded => true,
    }
}

/// An inverted `Between` collapses to `Empty`; anything else is kept.
pub open spec fn normalized_v(iv: IntervalV) -> IntervalV {
    match iv {
        IntervalV::Between(lo, hi) => if date_lt_v(hi, lo) {
            IntervalV::Empty
        } else {
            iv
        },
        _ => iv,
    }
}

/// Intersection over the 5x5 variant table, before normalization.
pub open spec fn raw_intersect_v(a: IntervalV, b: IntervalV) -> IntervalV {
    match (a, b) {
        (_, IntervalV::Empty) => IntervalV::Empty,
        (IntervalV::Empty, _) => IntervalV::Empty,
        (lhs, IntervalV::Unbounded) => lhs,
        (IntervalV::Unbounded, rhs) => rhs,
        (IntervalV::Between(s1, e1), IntervalV::Between(s2, e2)) => IntervalV::Between(
            date_max_v(s1, s2),
            date_min_v(e1, e2),
        ),
        (IntervalV::After(s1), IntervalV::Between(s2, e2)) => IntervalV::Between(
            date_max_v(s1, s2),
            e2,
        ),
        (IntervalV::Before(e1), IntervalV::Between(s2, e2)) => IntervalV::Between(
            s2,
            date_min_v(e1, e2),
        ),
        (IntervalV::Between(s1, e1), IntervalV::After(s2)) => IntervalV::Between(
            date_max_v(s1, s2),
            e1,
        ),
        (IntervalV::Between(s1, e1), IntervalV::Before(e2)) => IntervalV::Between(
            s1,
            date_min_v(e1, e2),
        ),
        (IntervalV::After(s1), IntervalV::After(s2)) => IntervalV::After(date_max_v(s1, s2)),
        (IntervalV::After(s1), IntervalV::Before(e2)) => IntervalV::Between(s1, e2),
        (IntervalV::Before(e1), IntervalV::After(s2)) => IntervalV::Between(s2, e1),
        (IntervalV::Before(e1), IntervalV::Before(e2)) => IntervalV::Before(date_min_v(e1, e2)),
    }
}

/// Intersection of two interval models, normalized.
pub open spec fn intersect_v(a: IntervalV, b: IntervalV) -> IntervalV {
    normalized_v(raw_intersect_v(a, b))
}

/// Union over the 5x5 variant table, before normalization: the table
/// keeps the convex span of the two operands, bounded by any `Between`
/// endpoint it meets.
pub open spec fn raw_unite_v(a: IntervalV, b: IntervalV) -> IntervalV {
    match (a, b) {
        (_, IntervalV::Unbounded) => IntervalV::Unbounded,
        (IntervalV::Unbounded, _) => IntervalV::Unbounded,
        (lhs, IntervalV::Empty) => lhs,
        (IntervalV::Empty, rhs) => rhs,
        (IntervalV::Between(s1, e1), IntervalV::Between(s2, e2)) => IntervalV::Between(
            date_min_v(s1, s2),
            date_max_v(e1, e2),
        ),
        (IntervalV::After(s1), IntervalV::Between(s2, e2)) => IntervalV::Between(
            date_min_v(s1, s2),
            e2,
        ),
        (IntervalV::Before(e1), IntervalV::Between(s2, e2)) => IntervalV::Between(
            s2,
            date_max_v(e1, e2),
        ),
        (IntervalV::Between(s1, e1), IntervalV::After(s2)) => IntervalV::Between(
            date_min_v(s1, s2),
            e1,
        ),
        (IntervalV::Between(s1, e1), IntervalV::Before(e2)) => IntervalV::Between(
            s1,
            date_max_v(e1, e2),
        ),
        (IntervalV::After(s1), IntervalV::After(s2)) => IntervalV::After(date_min_v(s1, s2)),
        (IntervalV::After(s1), IntervalV::Before(e2)) => IntervalV::Between(s1, e2),
        (IntervalV::Before(e1), IntervalV::After(s2)) => IntervalV::Between(s2, e1),
        (IntervalV::Before(e1), IntervalV::Before(e2)) => IntervalV::Before(date_max_v(e1, e2)),
    }
}

/// Union of two interval models, normalized.
pub open spec fn unite_v(a: IntervalV, b: IntervalV) -> IntervalV {
    normalized_v(raw_unite_v(a, b))
}

impl Between {
    /// Componentwise union: the smallest inclusive range holding both.
    pub fn unite(self, other: Self) -> (r: Self)
        ensures
            r.0@ == date_min_v(self.0@, other.0@),
            r.1@ == date_max_v(self.1@, other.1@),
    {
        Between(self.0.earlier(other.0), self.1.later(other.1))
    }

    /// Componentwise intersection: the largest inclusive range held by
    /// both (possibly inverted, meaning empty).
    pub fn intersect(self, other: Self) -> (r: Self)
        ensures
            r.0@ == date_max_v(self.0@, other.0@),
            r.1@ == date_min_v(self.1@, other.1@),
    {
        Between(self.0.later(other.0), self.1.earlier(other.1))
    }

    /// Turn an inclusive range back into an interval, reading the
    /// sentinel first/last days as missing bounds.
    pub fn into_interval(self) -> (r: Interval)
        ensures
            r@ == if date_lt_v(self.1@, self.0@) {
                IntervalV::Empty
            } else if self.0@ == first_day() {
                if self.1@ == last_day() {
                    IntervalV::Unbounded
                } else {
                    IntervalV::Before(self.1@)
                }
            } else if self.1@ == last_day() {
                IntervalV::After(self.0@)
            } else {
                IntervalV::Between(self.0@, self.1@)
            },
    {
        let md = Date::min_date();
        let xd = Date::max_date();
        proof {
            crate::date::lemma_date_view_injective(self.0, md);
            crate::date::lemma_date_view_injective(self.1, xd);
        }
        if self.1.lt(&self.0) {
            Interval::Empty
        } else if self.0 == md {
            if self.1 == xd {
                Interval::Unbounded
            } else {
                Interval::Before(self.1)
            }
        } else if self.1 == xd {
            Interval::After(self.0)
        } else {
            Interval::Between(self.0, self.1)
        }
    }
}

impl Interval {
    /// Collapse an inverted `Between` to `Empty`.
    pub fn normalized(self) -> (r: Self)
        ensures
            r@ == normalized_v(self@),
    {
        if let Interval::Between(start, end) = &self {
            if end.lt(start) {
                return Interval::Empty;
            }
        }
        self
    }

    /// Intersection over the full variant table, normalized.
    pub fn intersect(self, other: Self) -> (r: Self)
        ensures
            r@ == intersect_v(self@, other@),
    {
        match (self, other) {
            (_, Interval::Empty) => Interval::Empty,
            (Interval::Empty, _) => Interval::Empty,
            (lhs, Interval::Unbounded) => lhs,
            (Interval::Unbounded, rhs) => rhs,
            (Interval::Between(s1, e1), Interval::Between(s2, e2)) => Interval::Between(
                s1.later(s2),
                e1.earlier(e2),
            ),
            (Interval::After(s1), Interval::Between(s2, e2)) => Interval::Between(
                s1.later(s2),
                e2,
            ),
            (Interval::Before(e1), Interval::Between(s2, e2)) => Interval::Between(
                s2,
                e1.earlier(e2),
            ),
            (Interval::Between(s1, e1), Interval::After(s2)) => Interval::Between(
                s1.later(s2),
                e1,
            ),
            (Interval::Between(s1, e1), Interval::Before(e2)) => Interval::Between(
                s1,
                e1.earlier(e2),
            ),
            (Interval::After(s1), Interval::After(s2)) => Interval::After(s1.later(s2)),
            (Interval::After(s1), Interval::Before(e2)) => Interval::Between(s1, e2),
            (Interval::Before(e1), Interval::After(s2)) => Interval::Between(s2, e1),
            (Interval::Before(e1), Interval::Before(e2)) => Interval::Before(e1.earlier(e2)),
        }.normalized()
    }

    /// Union over the full variant table, normalized.
    pub fn unite(self, other: Self) -> (r: Self)
        ensures
            r@ == unite_v(self@, other@),
    {
        match (self, other) {
            (_, Interval::Unbounded) => Interval::Unbounded,
            (Interval::Unbounded, _) => Interval::Unbounded,
            (lhs, Interval::Empty) => lhs,
            (Interval::Empty, rhs) => rhs,
            (Interval::Between(s1, e1), Interval::Between(s2, e2)) => Interval::Between(
                s1.earlier(s2),
                e1.later(e2),
            ),
            (Interval::After(s1), Interval::Between(s2, e2)) => Interval::Between(
                s1.earlier(s2),
                e2,
            ),
            (Interval::Before(e1), Interval::Between(s2, e2)) => Interval::Between(
                s2,
                e1.later(e2),
            ),
            (Interval::Between(s1, e1), Interval::After(s2)) => Interval::Between(
                s1.earlier(s2),
                e1,
            ),
            (Interval::Between(s1, e1), Interval::Before(e2)) => Interval::Between(
                s1,
                e1.later(e2),
            ),
            (Interval::After(s1), Interval::After(s2)) => Interval::After(s1.earlier(s2)),
            (Interval::After(s1), Interval::Before(e2)) => Interval::Between(s1, e2),
            (Interval::Before(e1), Interval::After(s2)) => Interval::Between(s2, e1),
            (Interval::Before(e1), Interval::Before(e2)) => Interval::Before(e1.later(e2)),
        }.normalized()
    }

    /// Materialize the interval as an inclusive range, reading missing
    /// bounds as the sentinel first/last days.
    pub fn into_between(self) -> (r: Between)
        ensures
            r@ == match self@ {
                IntervalV::Between(s, e) => (s, e),
                IntervalV::After(s) => (s, last_day()),
                IntervalV::Before(e) => (first_day(), e),
                IntervalV::Empty => (last_day(), first_day()),
                IntervalV::Unbounded => (first_day(), last_day()),
            },
    {
        let (start, end) = match self {
            Interval::Between(start, end) => (start, end),
            Interval::After(start) => (start, Date::max_date()),
            Interval::Before(end) => (Date::min_date(), end),
            Interval::Empty => (Date::max_date(), Date::min_date()),
            Interval::Unbounded => (Date::min_date(), Date::max_date()),
        };
        Between(start, end)
    }
}

/// Day part of a period's text when both ends share year and month:
/// omitted for the full month, one day for a single day, a range
/// otherwise.
pub open spec fn merge_day_chars(a: DateV, b: DateV) -> Seq<char> {
    if a.day == 1 && b.day == crate::date::month_len(b.year, b.month) {
        Seq::<char>::empty()
    } else if a.day == b.day {
        "-"@ + crate::fmtnum::dec_chars(a.day as nat)
    } else {
        "-"@ + crate::fmtnum::dec_chars(a.day as nat) + ".."@ + crate::fmtnum::dec_chars(
            b.day as nat,
        )
    }
}

/// Month-and-day part of a period's text when the months differ.
pub open spec fn shorten_month_chars(a: DateV, b: DateV) -> Seq<char> {
    "-"@ + crate::date::month_chars(a.month) + (if a.day != 1 {
        "-"@ + crate::fmtnum::dec_chars(a.day as nat)
    } else {
        Seq::<char>::empty()
    }) + ".."@ + crate::date::month_chars(b.month) + (if b.day != crate::date::month_len(
        b.year,
        b.month,
    ) {
        "-"@ + crate::fmtnum::dec_chars(b.day as nat)
    } else {
        Seq::<char>::empty()
    })
}

/// Start half of a period's text whose years differ; the sentinel
/// first day is omitted.
pub open spec fn shorten_start_chars(a: DateV) -> Seq<char> {
    if a != first_day() {
        crate::fmtnum::dec_chars(a.year as nat) + (if a.month != 0 || a.day != 1 {
            "-"@ + crate::date::month_chars(a.month) + (if a.day != 1 {
                "-"@ + crate::fmtnum::dec_chars(a.day as nat)
            } else {
                Seq::<char>::empty()
            })
        } else {
            Seq::<char>::empty()
        })
    } else {
        Seq::<char>::empty()
    }
}

/// End half of a period's text whose years differ; the sentinel last
/// day is omitted.
pub open spec fn shorten_end_chars(b: DateV) -> Seq<char> {
    if b != last_day() {
        crate::fmtnum::dec_chars(b.year as nat) + (if b.month != 11 || b.day != 31 {
            "-"@ + crate::date::month_chars(b.month) + (if b.day != crate::date::month_len(
                b.year,
                b.month,
            ) {
                "-"@ + crate::fmtnum::dec_chars(b.day as nat)
            } else {
                Seq::<char>::empty()
            })
        } else {
            Seq::<char>::empty()
        })
    } else {
        Seq::<char>::empty()
    }
}

/// Text of a period whose years differ; a sentinel endpoint is omitted.
pub open spec fn shorten_year_chars(a: DateV, b: DateV) -> Seq<char> {
    shorten_start_chars(a) + ".."@ + shorten_end_chars(b)
}

/// Month part of a period's text when both ends share the year.
pub open spec fn merge_month_chars(a: DateV, b: DateV) -> Seq<char> {
    if a.month == 0 && a.day == 1 && b.month == 11 && b.day == 31 {
        Seq::<char>::empty()
    } else if a.month == b.month {
        "-"@ + crate::date::month_chars(a.month) + merge_day_chars(a, b)
    } else {
        shorten_month_chars(a, b)
    }
}

/// The text form of a period: matching year, month and day components
/// of the two endpoints are greedily merged; an inverted period renders
/// as `()`.
pub open spec fn period_chars(a: DateV, b: DateV) -> Seq<char> {
    if date_le_v(a, b) {
        if a.year == b.year {
            crate::fmtnum::dec_chars(a.year as nat) + merge_month_chars(a, b)
        } else {
            shorten_year_chars(a, b)
        }
    } else {
        "()"@
    }
}

impl Between {
    /// Render the period, greedily merging the matching components of
    /// its two endpoints.
    pub fn text(&self) -> (r: String)
        requires
            between_wf(self@),
        ensures
            r@ == period_chars(self.0@, self.1@),
    {
        let a = self.0;
        let b = self.1;
        if !a.le(&b) {
            let r = String::from_str("()");
            return r;
        }
        let mut r = String::new();
        if a.year() == b.year() {
            r.append(crate::fmtnum::usize_string(a.year() as usize).as_str());
            if a.month() == Month::Jan && a.day() == 1 && b.month() == Month::Dec && b.day()
                == 31 {
                proof {
                    assert(r@ =~= period_chars(self.0@, self.1@));
                }
            } else if a.month() == b.month() {
                r.append("-");
                r.append(a.month().name());
                if a.day() == 1 && b.day() == b.month().count(b.year()) {
                } else if a.day() == b.day() {
                    r.append("-");
                    r.append(crate::fmtnum::usize_string(a.day() as usize).as_str());
                } else {
                    r.append("-");
                    r.append(crate::fmtnum::usize_string(a.day() as usize).as_str());
                    r.append("..");
                    r.append(crate::fmtnum::usize_string(b.day() as usize).as_str());
                }
                proof {
                    assert(r@ =~= period_chars(self.0@, self.1@));
                }
            } else {
                self.append_shorten_month(&mut r);
                proof {
                    assert(r@ =~= period_chars(self.0@, self.1@));
                }
            }
        } else {
            self.append_shorten_year(&mut r);
            proof {
                assert(r@ =~= period_chars(self.0@, self.1@));
            }
        }
        r
    }

    fn append_shorten_year(&self, r: &mut String)
        requires
            between_wf(self@),
        ensures
            final(r)@ == old(r)@ + shorten_year_chars(self.0@, self.1@),
    {
        append_shorten_start(self.0, r);
        r.append("..");
        append_shorten_end(self.1, r);
        proof {
            assert(r@ =~= old(r)@ + shorten_year_chars(self.0@, self.1@));
        }
    }

    fn append_shorten_month(&self, r: &mut String)
        requires
            between_wf(self@),
        ensures
            final(r)@ == old(r)@ + shorten_month_chars(self.0@, self.1@),
    {
        let a = self.0;
        let b = self.1;
        r.append("-");
        r.append(a.month().name());
        if a.day() != 1 {
            r.append("-");
            r.append(crate::fmtnum::usize_string(a.day() as usize).as_str());
        }
        r.append("..");
        r.append(b.month().name());
        if b.day() != b.month().count(b.year()) {
            r.append("-");
            r.append(crate::fmtnum::usize_string(b.day() as usize).as_str());
        }
        proof {
            assert(r@ =~= old(r)@ + shorten_month_chars(self.0@, self.1@));
        }
    }
}

fn append_shorten_start(a: Date, r: &mut String)
    requires
        date_wf(a@),
    ensures
        final(r)@ == old(r)@ + shorten_start_chars(a@),
{
    let md = Date::min_date();
    proof {
        crate::date::lemma_date_view_injective(a, md);
    }
    if a != md {
        r.append(crate::fmtnum::usize_string(a.year() as usize).as_str());
        if !(a.month() == Month::Jan) || a.day() != 1 {
            r.append("-");
            r.append(a.month().name());
            if a.day() != 1 {
                r.append("-");
                r.append(crate::fmtnum::usize_string(a.day() as usize).as_str());
            }
        }
    }
    proof {
        assert(r@ =~= old(r)@ + shorten_start_chars(a@));
    }
}

fn append_shorten_end(b: Date, r: &mut String)
    requires
        date_wf(b@),
    ensures
        final(r)@ == old(r)@ + shorten_end_chars(b@),
{
    let xd = Date::max_date();
    proof {
        crate::date::lemma_date_view_injective(b, xd);
    }
    if b != xd {
        r.append(crate::fmtnum::usize_string(b.year() as usize).as_str());
        if !(b.month() == Month::Dec) || b.day() != 31 {
            r.append("-");
            r.append(b.month().name());
            if b.day() != b.month().count(b.year()) {
                r.append("-");
                r.append(crate::fmtnum::usize_string(b.day() as usize).as_str());
            }
        }
    }
    proof {
        assert(r@ =~= old(r)@ + shorten_end_chars(b@));
    }
}


/// A date with possibly missing components, as written in a period
/// expression; missing components are defaulted from context.
#[derive(Debug, Clone, Copy, PartialEq, Eq)]
pub struct PartialDate {
    pub year: Option<u16>,
    pub month: Option<Month>,
    pub day: Option<u8>,
}

/// A period expression over partial dates, before the missing
/// components are defaulted.
#[derive(Debug, Clone, Copy, PartialEq, Eq)]
pub enum PartialPeriod {
    Between(PartialDate, PartialDate),
    After(PartialDate),
    Before(PartialDate),
    Empty,
    Unbounded,
}

/// Whether a character is a decimal digit.
pub open spec fn is_digit_c(c: char) -> bool {
    48 <= c as u32 <= 57
}

/// The value of a decimal digit character.
pub open spec fn digit_of(c: char) -> int {
    c as u32 - 48
}

/// Whether a character is an ASCII letter.
pub open spec fn is_alpha_c(c: char) -> bool {
    (65 <= c as u32 <= 90) || (97 <= c as u32 <= 122)
}

/// Every character of the sequence is a decimal digit.
pub open spec fn all_digits_s(s: Seq<char>) -> bool {
    forall|i: int| 0 <= i < s.len() ==> is_digit_c(#[trigger] s[i])
}

/// Every character of the sequence is an ASCII letter.
pub open spec fn all_alpha_s(s: Seq<char>) -> bool {
    forall|i: int| 0 <= i < s.len() ==> is_alpha_c(#[trigger] s[i])
}

/// The number a sequence of digits denotes.
pub open spec fn num_of(s: Seq<char>) -> int
    decreases s.len(),
{
    if s.len() == 0 {
        0
    } else {
        num_of(s.drop_last()) * 10 + digit_of(s.last())
    }
}

/// Index of the first occurrence of `c` at or after `i`, or the length.
pub open spec fn find_from(s: Seq<char>, c: char, i: int) -> int
    decreases s.len() - i,
{
    if i < 0 || i >= s.len() {
        s.len() as int
    } else if s[i] == c {
        i
    } else {
        find_from(s, c, i + 1)
    }
}

/// Index of the first `..` at or after `i`, or the length.
pub open spec fn find_dots(s: Seq<char>, i: int) -> int
    decreases s.len() - i,
{
    if i < 0 || i + 2 > s.len() {
        s.len() as int
    } else if s[i] == '.' && s[i + 1] == '.' {
        i
    } else {
        find_dots(s, i + 1)
    }
}

/// The month a 3-letter abbreviation denotes, if any.
pub open spec fn month_from_3(c0: char, c1: char, c2: char) -> Option<Month> {
    if c0 == 'J' && c1 == 'a' && c2 == 'n' {
        Some(Month::Jan)
    } else if c0 == 'F' && c1 == 'e' && c2 == 'b' {
        Some(Month::Feb)
    } else if c0 == 'M' && c1 == 'a' && c2 == 'r' {
        Some(Month::Mar)
    } else if c0 == 'A' && c1 == 'p' && c2 == 'r' {
        Some(Month::Apr)
    } else if c0 == 'M' && c1 == 'a' && c2 == 'y' {
        Some(Month::May)
    } else if c0 == 'J' && c1 == 'u' && c2 == 'n' {
        Some(Month::Jun)
    } else if c0 == 'J' && c1 == 'u' && c2 == 'l' {
        Some(Month::Jul)
    } else if c0 == 'A' && c1 == 'u' && c2 == 'g' {
        Some(Month::Aug)
    } else if c0 == 'S' && c1 == 'e' && c2 == 'p' {
        Some(Month::Sep)
    } else if c0 == 'O' && c1 == 'c' && c2 == 't' {
        Some(Month::Oct)
    } else if c0 == 'N' && c1 == 'o' && c2 == 'v' {
        Some(Month::Nov)
    } else if c0 == 'D' && c1 == 'e' && c2 == 'c' {
        Some(Month::Dec)
    } else {
        None
    }
}

/// Outcome of parsing a partial date: the date, an ill-formed month
/// name at the given character range, or a malformed expression.
pub enum PdOut {
    Parsed(PartialDate),
    BadMonth(int, int),
    Syntax,
}

/// Parse the `[-Mmm[-DD]]` part after an optional year, `start` at the
/// month name.
pub open spec fn parse_month_day_s(s: Seq<char>, start: int, year: Option<u16>) -> PdOut {
    let d = find_from(s, '-', start);
    let m = s.subrange(start, d);
    if m.len() != 3 {
        PdOut::Syntax
    } else if month_from_3(m[0], m[1], m[2]) is None {
        if all_alpha_s(m) {
            PdOut::BadMonth(start, d)
        } else {
            PdOut::Syntax
        }
    } else {
        let month = month_from_3(m[0], m[1], m[2]).unwrap();
        if d == s.len() {
            PdOut::Parsed(PartialDate { year, month: Some(month), day: None })
        } else {
            let c = s.subrange(d + 1, s.len() as int);
            if 1 <= c.len() <= 2 && all_digits_s(c) {
                PdOut::Parsed(
                    PartialDate { year, month: Some(month), day: Some(num_of(c) as u8) },
                )
            } else {
                PdOut::Syntax
            }
        }
    }
}

/// Parse one partial date: `YYYY[-Mmm[-DD]]`, `Mmm[-DD]`, or `DD`.
pub open spec fn parse_partial_s(s: Seq<char>) -> PdOut {
    let d1 = find_from(s, '-', 0);
    let c0 = s.subrange(0, d1);
    if c0.len() == 0 {
        PdOut::Syntax
    } else if all_digits_s(c0) {
        if c0.len() == 4 {
            if d1 == s.len() {
                PdOut::Parsed(
                    PartialDate { year: Some(num_of(c0) as u16), month: None, day: None },
                )
            } else {
                parse_month_day_s(s, d1 + 1, Some(num_of(c0) as u16))
            }
        } else if c0.len() <= 2 && d1 == s.len() {
            PdOut::Parsed(PartialDate { year: None, month: None, day: Some(num_of(c0) as u8) })
        } else {
            PdOut::Syntax
        }
    } else {
        parse_month_day_s(s, 0, None)
    }
}

/// Outcome of parsing a period expression.
pub enum PpOut {
    Parsed(PartialPeriod),
    BadMonth(int, int),
    Syntax,
}

/// Shift a partial-date outcome by an offset into the whole expression.
pub open spec fn shift_pd(o: PdOut, off: int) -> PpOut {
    match o {
        PdOut::Parsed(_) => PpOut::Syntax,
        PdOut::BadMonth(a, b) => PpOut::BadMonth(a + off, b + off),
        PdOut::Syntax => PpOut::Syntax,
    }
}

/// Parse a period expression: `()`, `..`, `START..`, `..END`,
/// `START..END`, or a single partial date.
pub open spec fn parse_period_s(s: Seq<char>) -> PpOut {
    if s.len() == 2 && s[0] == '(' && s[1] == ')' {
        PpOut::Parsed(PartialPeriod::Empty)
    } else {
        let p = find_dots(s, 0);
        if p == s.len() {
            match parse_partial_s(s) {
                PdOut::Parsed(pd) => PpOut::Parsed(PartialPeriod::Between(pd, pd)),
                o => shift_pd(o, 0),
            }
        } else if find_dots(s, p + 2) < s.len() {
            PpOut::Syntax
        } else {
            let left = s.subrange(0, p);
            let right = s.subrange(p + 2, s.len() as int);
            if left.len() == 0 {
                if right.len() == 0 {
                    PpOut::Parsed(PartialPeriod::Unbounded)
                } else {
                    match parse_partial_s(right) {
                        PdOut::Parsed(pd) => PpOut::Parsed(PartialPeriod::Before(pd)),
                        o => shift_pd(o, p + 2),
                    }
                }
            } else {
                match parse_partial_s(left) {
                    PdOut::Parsed(pd1) => if right.len() == 0 {
                        PpOut::Parsed(PartialPeriod::After(pd1))
                    } else {
                        match parse_partial_s(right) {
                            PdOut::Parsed(pd2) => PpOut::Parsed(PartialPeriod::Between(pd1, pd2)),
                            o => shift_pd(o, p + 2),
                        }
                    },
                    o => shift_pd(o, 0),
                }
            }
        }
    }
}

/// The fatal diagnostic for a month name that is not one of the twelve.
pub open spec fn invalid_month_error(file: usize, a: int, b: int, name: Seq<char>) -> ErrorV {
    ErrorV {
        fatal: true,
        label: "Invalid Month"@,
        items: seq![
            ItemV::Block(Loc { file, start: a as usize, end: b as usize }, "provided here"@),
            ItemV::Text("'"@ + name + "' is not a valid month"@),
            ItemV::Hint("Months are 'Jan', 'Feb', ..., 'Dec'"@),
        ],
    }
}

/// The fatal diagnostic for a period expression outside the grammar.
pub open spec fn parse_failure_error(file: usize, len: int) -> ErrorV {
    ErrorV {
        fatal: true,
        label: "Parsing failure"@,
        items: seq![
            ItemV::Block(Loc { file, start: 0, end: len as usize }, "provided here"@),
            ItemV::Text("expected EOF"@),
        ],
    }
}

/// Law: `intersect` computes exactly the set of dates in both operands.
pub proof fn lemma_intersect_contains(a: IntervalV, b: IntervalV, d: DateV)
    requires
        interval_wf(a),
        interval_wf(b),
        date_wf(d),
    ensures
        iv_contains(intersect_v(a, b), d) <==> iv_contains(a, d) && iv_contains(b, d),
{
}

/// Law: `intersect` and `unite` are commutative.
pub proof fn lemma_commutative(a: IntervalV, b: IntervalV)
    ensures
        intersect_v(a, b) == intersect_v(b, a),
        unite_v(a, b) == unite_v(b, a),
{
}

/// Law: `intersect` is idempotent with self.
pub proof fn lemma_intersect_idempotent(a: IntervalV)
    ensures
        intersect_v(a, a) == normalized_v(a),
{
}

/// Law: `Empty` is absorbing for `intersect` and `Unbounded` is
/// absorbing for `unite`.
pub proof fn lemma_absorbing(a: IntervalV)
    ensures
        intersect_v(a, IntervalV::Empty) == IntervalV::Empty,
        intersect_v(IntervalV::Empty, a) == IntervalV::Empty,
        unite_v(a, IntervalV::Unbounded) == IntervalV::Unbounded,
        unite_v(IntervalV::Unbounded, a) == IntervalV::Unbounded,
{
}

spec fn pd_matches(e: PdParse, o: PdOut) -> bool {
    match (e, o) {
        (PdParse::Parsed(pd1), PdOut::Parsed(pd2)) => pd1 == pd2,
        (PdParse::BadMonth(a1, b1), PdOut::BadMonth(a2, b2)) => a1 as int == a2 && b1 as int
            == b2,
        (PdParse::Syntax, PdOut::Syntax) => true,
        _ => false,
    }
}

enum PdParse {
    Parsed(PartialDate),
    BadMonth(usize, usize),
    Syntax,
}

fn find_char(s: &str, c: char, from: usize) -> (r: usize)
    requires
        from <= s@.len(),
    ensures
        r as int == find_from(s@, c, from as int),
        from <= r <= s@.len(),
{
    let n = s.unicode_len();
    let mut i = from;
    while i < n
        invariant
            from <= i <= n,
            n == s@.len(),
            find_from(s@, c, from as int) == find_from(s@, c, i as int),
        decreases n - i,
    {
        if s.get_char(i) == c {
            return i;
        }
        i = i + 1;
    }
    i
}

fn find_dotdot(s: &str, from: usize) -> (r: usize)
    requires
        from <= s@.len(),
    ensures
        r as int == find_dots(s@, from as int),
        from <= r <= s@.len(),
{
    let n = s.unicode_len();
    let mut i = from;
    while n >= 2 && i <= n - 2
        invariant
            from <= i,
            i <= n,
            n == s@.len(),
            find_dots(s@, from as int) == find_dots(s@, i as int),
        decreases n - i,
    {
        if s.get_char(i) == '.' && s.get_char(i + 1) == '.' {
            return i;
        }
        i = i + 1;
    }
    n
}

proof fn lemma_num_of_bounds(s: Seq<char>)
    requires
        all_digits_s(s),
    ensures
        0 <= num_of(s),
        s.len() <= 1 ==> num_of(s) <= 9,
        s.len() <= 2 ==> num_of(s) <= 99,
        s.len() <= 3 ==> num_of(s) <= 999,
        s.len() <= 4 ==> num_of(s) <= 9999,
    decreases s.len(),
{
    if s.len() > 0 {
        assert(all_digits_s(s.drop_last()));
        lemma_num_of_bounds(s.drop_last());
        assert(is_digit_c(s.last()));
    }
}

fn all_digits_range(s: &str, a: usize, b: usize) -> (r: bool)
    requires
        a <= b <= s@.len(),
    ensures
        r == all_digits_s(s@.subrange(a as int, b as int)),
{
    let mut i = a;
    while i < b
        invariant
            a <= i <= b <= s@.len(),
            forall|k: int| a <= k < i ==> is_digit_c(#[trigger] s@[k]),
        decreases b - i,
    {
        let u = s.get_char(i) as u32;
        if u < 48 || u > 57 {
            proof {
                assert(!is_digit_c(s@.subrange(a as int, b as int)[i - a]));
            }
            return false;
        }
        i = i + 1;
    }
    proof {
        assert forall|k: int| 0 <= k < b - a implies is_digit_c(
            #[trigger] s@.subrange(a as int, b as int)[k],
        ) by {
            assert(s@.subrange(a as int, b as int)[k] == s@[a + k]);
        }
    }
    true
}

fn alpha3(s: &str, a: usize) -> (r: bool)
    requires
        a + 3 <= s@.len(),
    ensures
        r == all_alpha_s(s@.subrange(a as int, a + 3)),
{
    let n = s.unicode_len();
    let mut ok = true;
    let mut i: usize = 0;
    while i < 3
        invariant
            i <= 3,
            a + 3 <= s@.len(),
            n == s@.len(),
            ok == forall|k: int| 0 <= k < i ==> is_alpha_c(#[trigger] s@.subrange(a as int, a + 3)[k]),
        decreases 3 - i,
    {
        let u = s.get_char(a + i) as u32;
        let this = (65 <= u && u <= 90) || (97 <= u && u <= 122);
        proof {
            assert(s@.subrange(a as int, a + 3)[i as int] == s@[a + i]);
        }
        ok = ok && this;
        i = i + 1;
    }
    ok
}

fn chars_num(s: &str, a: usize, b: usize) -> (r: usize)
    requires
        a <= b <= s@.len(),
        b - a <= 4,
        all_digits_s(s@.subrange(a as int, b as int)),
    ensures
        r as int == num_of(s@.subrange(a as int, b as int)),
        r <= 9999,
{
    let ghost whole = s@.subrange(a as int, b as int);
    let mut acc: usize = 0;
    let mut i = a;
    proof {
        assert(s@.subrange(a as int, a as int) =~= whole.subrange(0, 0));
        assert(num_of(whole.subrange(0, 0)) == 0);
    }
    while i < b
        invariant
            a <= i <= b <= s@.len(),
            b - a <= 4,
            whole == s@.subrange(a as int, b as int),
            all_digits_s(whole),
            acc as int == num_of(whole.subrange(0, i - a)),
        decreases b - i,
    {
        proof {
            assert(all_digits_s(whole.subrange(0, i - a + 1)));
            lemma_num_of_bounds(whole.subrange(0, i - a));
            lemma_num_of_bounds(whole.subrange(0, i - a + 1));
            assert(whole.subrange(0, i - a + 1).drop_last() =~= whole.subrange(0, i - a));
            assert(whole.subrange(0, i - a + 1).last() == s@[i as int]);
            assert(whole[i - a] == s@[i as int]);
            assert(is_digit_c(s@[i as int]));
        }
        let u = s.get_char(i) as u32;
        let d = (u - 48) as usize;
        acc = acc * 10 + d;
        i = i + 1;
    }
    proof {
        assert(whole.subrange(0, b - a) =~= whole);
        lemma_num_of_bounds(whole);
    }
    acc
}

fn month_from_chars(c0: char, c1: char, c2: char) -> (r: Option<Month>)
    ensures
        r == month_from_3(c0, c1, c2),
{
    if c0 == 'J' && c1 == 'a' && c2 == 'n' {
        Some(Month::Jan)
    } else if c0 == 'F' && c1 == 'e' && c2 == 'b' {
        Some(Month::Feb)
    } else if c0 == 'M' && c1 == 'a' && c2 == 'r' {
        Some(Month::Mar)
    } else if c0 == 'A' && c1 == 'p' && c2 == 'r' {
        Some(Month::Apr)
    } else if c0 == 'M' && c1 == 'a' && c2 == 'y' {
        Some(Month::May)
    } else if c0 == 'J' && c1 == 'u' && c2 == 'n' {
        Some(Month::Jun)
    } else if c0 == 'J' && c1 == 'u' && c2 == 'l' {
        Some(Month::Jul)
    } else if c0 == 'A' && c1 == 'u' && c2 == 'g' {
        Some(Month::Aug)
    } else if c0 == 'S' && c1 == 'e' && c2 == 'p' {
        Some(Month::Sep)
    } else if c0 == 'O' && c1 == 'c' && c2 == 't' {
        Some(Month::Oct)
    } else if c0 == 'N' && c1 == 'o' && c2 == 'v' {
        Some(Month::Nov)
    } else if c0 == 'D' && c1 == 'e' && c2 == 'c' {
        Some(Month::Dec)
    } else {
        None
    }
}

impl Month {
    /// Parse a month from its 3-letter abbreviation; meant for text the
    /// grammar has already matched, so the name must be one of the
    /// twelve.
    pub fn from(s: &str) -> (m: Month)
        requires
            s@.len() == 3,
            month_from_3(s@[0], s@[1], s@[2]) is Some,
        ensures
            Some(m) == month_from_3(s@[0], s@[1], s@[2]),
    {
        let c0 = s.get_char(0);
        let c1 = s.get_char(1);
        let c2 = s.get_char(2);
        match month_from_chars(c0, c1, c2) {
            Some(m) => m,
            None => Month::Jan,
        }
    }
}

#[verifier::rlimit(100)]
fn parse_month_day(s: &str, start: usize, year: Option<u16>) -> (r: PdParse)
    requires
        start <= s@.len(),
    ensures
        pd_matches(r, parse_month_day_s(s@, start as int, year)),
        r matches PdParse::BadMonth(a, b) ==> a <= b <= s@.len(),
{
    let n = s.unicode_len();
    let d = find_char(s, '-', start);
    let ghost m = s@.subrange(start as int, d as int);
    if d - start != 3 {
        return PdParse::Syntax;
    }
    proof {
        assert(m[0] == s@[start as int]);
        assert(m[1] == s@[start as int + 1]);
        assert(m[2] == s@[start as int + 2]);
    }
    let c0 = s.get_char(start);
    let c1 = s.get_char(start + 1);
    let c2 = s.get_char(start + 2);
    let month = match month_from_chars(c0, c1, c2) {
        None => {
            if alpha3(s, start) {
                proof {
                    assert(s@.subrange(start as int, start as int + 3) =~= m);
                }
                return PdParse::BadMonth(start, d);
            } else {
                proof {
                    assert(s@.subrange(start as int, start as int + 3) =~= m);
                }
                return PdParse::Syntax;
            }
        },
        Some(month) => month,
    };
    if d == n {
        return PdParse::Parsed(PartialDate { year, month: Some(month), day: None });
    }
    let ghost c = s@.subrange(d as int + 1, s@.len() as int);
    let len = n - (d + 1);
    if len < 1 || len > 2 {
        return PdParse::Syntax;
    }
    if !all_digits_range(s, d + 1, n) {
        return PdParse::Syntax;
    }
    let day = chars_num(s, d + 1, n);
    proof {
        lemma_num_of_bounds(c);
    }
    PdParse::Parsed(PartialDate { year, month: Some(month), day: Some(day as u8) })
}

#[verifier::rlimit(100)]
fn parse_partial(s: &str) -> (r: PdParse)
    ensures
        pd_matches(r, parse_partial_s(s@)),
        r matches PdParse::BadMonth(a, b) ==> a <= b <= s@.len(),
{
    let n = s.unicode_len();
    let d1 = find_char(s, '-', 0);
    let ghost c0 = s@.subrange(0, d1 as int);
    if d1 == 0 {
        return PdParse::Syntax;
    }
    if all_digits_range(s, 0, d1) {
        if d1 == 4 {
            let year = chars_num(s, 0, d1);
            if d1 == n {
                PdParse::Parsed(PartialDate { year: Some(year as u16), month: None, day: None })
            } else {
                parse_month_day(s, d1 + 1, Some(year as u16))
            }
        } else if d1 <= 2 && d1 == n {
            let day = chars_num(s, 0, d1);
            proof {
                lemma_num_of_bounds(c0);
            }
            PdParse::Parsed(PartialDate { year: None, month: None, day: Some(day as u8) })
        } else {
            PdParse::Syntax
        }
    } else {
        parse_month_day(s, 0, None)
    }
}

proof fn lemma_find_dots_found(s: Seq<char>, i: int)
    requires
        0 <= i,
        find_dots(s, i) < s.len(),
    ensures
        find_dots(s, i) + 2 <= s.len(),
        i <= find_dots(s, i),
    decreases s.len() - i,
{
    if i + 2 > s.len() {
    } else if s[i] == '.' && s[i + 1] == '.' {
    } else {
        lemma_find_dots_found(s, i + 1);
    }
}

fn make_invalid_month(file: usize, a: usize, b: usize, name: &str) -> (e: Error)
    ensures
        e@ == invalid_month_error(file, a as int, b as int, name@),
{
    let mut text = String::from_str("'");
    text.append(name);
    text.append("' is not a valid month");
    let e = Error::new("Invalid Month").with_span(
        Loc { file, start: a, end: b },
        "provided here",
    ).with_text(text.as_str()).with_hint("Months are 'Jan', 'Feb', ..., 'Dec'");
    proof {
        assert(text@ =~= "'"@ + name@ + "' is not a valid month"@);
        assert(e@.items =~= invalid_month_error(file, a as int, b as int, name@).items);
    }
    e
}

fn make_parse_failure(file: usize, len: usize) -> (e: Error)
    ensures
        e@ == parse_failure_error(file, len as int),
{
    let e = Error::new("Parsing failure").with_span(
        Loc { file, start: 0, end: len },
        "provided here",
    ).with_text("expected EOF");
    proof {
        assert(e@.items =~= parse_failure_error(file, len as int).items);
    }
    e
}

impl PartialPeriod {
    /// Parse a period expression: `()`, `..`, `START..`, `..END`,
    /// `START..END`, or a single partial date; a fatal diagnostic names
    /// an ill-formed month or a malformed expression.
    #[verifier::rlimit(100)]
    pub fn parse(errs: &mut Record, file: usize, s: &str) -> (r: Option<PartialPeriod>)
        requires
            old(errs).wf(),
        ensures
            final(errs).wf(),
            match parse_period_s(s@) {
                PpOut::Parsed(pp) => r == Some(pp) && final(errs)@ == old(errs)@,
                PpOut::BadMonth(a, b) => r is None && final(errs)@ == old(errs)@.push(
                    invalid_month_error(file, a, b, s@.subrange(a, b)),
                ),
                PpOut::Syntax => r is None && final(errs)@ == old(errs)@.push(
                    parse_failure_error(file, s@.len() as int),
                ),
            },
    {
        let n = s.unicode_len();
        if n == 2 && s.get_char(0) == '(' && s.get_char(1) == ')' {
            return Some(PartialPeriod::Empty);
        }
        let p = find_dotdot(s, 0);
        proof {
            if (p as int) < s@.len() {
                lemma_find_dots_found(s@, 0);
            }
        }
        if p == n {
            match parse_partial(s) {
                PdParse::Parsed(pd) => Some(PartialPeriod::Between(pd, pd)),
                PdParse::BadMonth(a, b) => {
                    let name = s.substring_char(a, b);
                    make_invalid_month(file, a, b, name).register(errs);
                    None
                },
                PdParse::Syntax => {
                    make_parse_failure(file, n).register(errs);
                    None
                },
            }
        } else {
            if find_dotdot(s, p + 2) < n {
                make_parse_failure(file, n).register(errs);
                return None;
            }
            let left = s.substring_char(0, p);
            let right = s.substring_char(p + 2, n);
            if p == 0 {
                proof {
                    assert(left@.len() == 0);
                }
                if p + 2 == n {
                    proof {
                        assert(right@.len() == 0);
                    }
                    Some(PartialPeriod::Unbounded)
                } else {
                    match parse_partial(right) {
                        PdParse::Parsed(pd) => Some(PartialPeriod::Before(pd)),
                        PdParse::BadMonth(a, b) => {
                            let name = right.substring_char(a, b);
                            proof {
                                assert(right@.subrange(a as int, b as int) =~= s@.subrange(
                                    p + 2 + a,
                                    p + 2 + b,
                                ));
                            }
                            make_invalid_month(file, p + 2 + a, p + 2 + b, name).register(errs);
                            None
                        },
                        PdParse::Syntax => {
                            make_parse_failure(file, n).register(errs);
                            None
                        },
                    }
                }
            } else {
                match parse_partial(left) {
                    PdParse::Parsed(pd1) => {
                        if p + 2 == n {
                            proof {
                                assert(right@.len() == 0);
                            }
                            Some(PartialPeriod::After(pd1))
                        } else {
                            match parse_partial(right) {
                                PdParse::Parsed(pd2) => Some(PartialPeriod::Between(pd1, pd2)),
                                PdParse::BadMonth(a, b) => {
                                    let name = right.substring_char(a, b);
                                    proof {
                                        assert(right@.subrange(a as int, b as int) =~= s@.subrange(
                                            p + 2 + a,
                                            p + 2 + b,
                                        ));
                                    }
                                    make_invalid_month(file, p + 2 + a, p + 2 + b, name).register(
                                        errs,
                                    );
                                    None
                                },
                                PdParse::Syntax => {
                                    make_parse_failure(file, n).register(errs);
                                    None
                                },
                            }
                        }
                    },
                    PdParse::BadMonth(a, b) => {
                        let name = left.substring_char(a, b);
                        proof {
                            assert(left@.subrange(a as int, b as int) =~= s@.subrange(
                                a as int,
                                b as int,
                            ));
                        }
                        make_invalid_month(file, a, b, name).register(errs);
                        None
                    },
                    PdParse::Syntax => {
                        make_parse_failure(file, n).register(errs);
                        None
                    },
                }
            }
        }
    }
}

/// The month a date component resolves to: the written month, or the
/// first/last month for a starting/ending endpoint.
pub open spec fn resolved_month(pd: PartialDate, starting: bool) -> Month {
    match pd.month {
        Some(m) => m,
        None => if starting {
            Month::Jan
        } else {
            Month::Dec
        },
    }
}

/// The day a date component resolves to: the written day, or the
/// first/last day of the month for a starting/ending endpoint.
pub open spec fn resolved_day(pd: PartialDate, starting: bool) -> int {
    match pd.day {
        Some(d) => d as int,
        None => if starting {
            1
        } else {
            crate::date::month_len(
                match pd.year {
                    Some(y) => y as int,
                    None => 0,
                },
                resolved_month(pd, starting).num(),
            )
        },
    }
}

/// Whether the resolved components make a legal date.
pub open spec fn make_ok(pd: PartialDate, starting: bool) -> bool {
    &&& pd.year is Some
    &&& 1000 <= pd.year.unwrap() <= 9999
    &&& 1 <= resolved_day(pd, starting) <= crate::date::month_len(
        pd.year.unwrap() as int,
        resolved_month(pd, starting).num(),
    )
}

/// The date the resolved components make.
pub open spec fn made_date(pd: PartialDate, starting: bool) -> DateV {
    DateV {
        year: pd.year.unwrap() as int,
        month: resolved_month(pd, starting).num(),
        day: resolved_day(pd, starting),
    }
}

/// The error the resolved components draw, when they make no legal
/// date although the year is given.
pub open spec fn make_err(pd: PartialDate, starting: bool) -> crate::date::DateError {
    let y = pd.year.unwrap() as int;
    let m = resolved_month(pd, starting);
    let d = resolved_day(pd, starting);
    if !(1000 <= y <= 9999) {
        crate::date::DateError::UnsupportedYear(y as usize)
    } else if d == 0 || d > 31 {
        crate::date::DateError::InvalidDay(d as usize)
    } else if d >= 30 {
        crate::date::DateError::MonthTooShort(m, d as usize)
    } else {
        crate::date::DateError::NotBissextile(y as usize)
    }
}

/// The fatal diagnostic for a partial date with no year to take.
pub open spec fn unspecified_year_error(loc: Loc) -> ErrorV {
    ErrorV {
        fatal: true,
        label: "Unspecified year"@,
        items: seq![
            ItemV::Block(loc, "provided here"@),
            ItemV::Text("Impossible to guess year"@),
            ItemV::Hint("add YYYY- in front to indicate year of interest"@),
        ],
    }
}

/// The fatal diagnostic for resolved components that make no legal
/// date.
pub open spec fn invalid_date_error(loc: Loc, e: crate::date::DateError) -> ErrorV {
    ErrorV {
        fatal: true,
        label: "Invalid date"@,
        items: seq![
            ItemV::Block(loc, "provided here"@),
            ItemV::Text(crate::date::date_error_chars(e)),
            ItemV::Hint("choose a date that exists"@),
            ItemV::Hint(crate::date::fix_hint_chars(e)),
        ],
    }
}

impl PartialDate {
    /// Fill in the year when it is missing.
    pub fn default_year(self, year: u16) -> (r: Self)
        ensures
            r.year == if self.year is Some {
                self.year
            } else {
                Some(year)
            },
            r.month == self.month,
            r.day == self.day,
    {
        if self.year.is_none() {
            PartialDate { year: Some(year), ..self }
        } else {
            self
        }
    }

    /// Fill in the month when it is missing.
    pub fn default_month(self, month: Month) -> (r: Self)
        ensures
            r.month == if self.month is Some {
                self.month
            } else {
                Some(month)
            },
            r.year == self.year,
            r.day == self.day,
    {
        if self.month.is_none() {
            PartialDate { month: Some(month), ..self }
        } else {
            self
        }
    }

    /// Resolve the remaining missing components for a starting or
    /// ending endpoint and validate the date; a fatal diagnostic names
    /// a missing year or an illegal date.
    pub fn make(&self, errs: &mut Record, loc: Loc, starting: bool) -> (r: Option<Date>)
        requires
            old(errs).wf(),
        ensures
            final(errs).wf(),
            self.year is None ==> r is None && final(errs)@ == old(errs)@.push(
                unspecified_year_error(loc),
            ),
            self.year is Some && make_ok(*self, starting) ==> (r matches Some(d) && d@
                == made_date(*self, starting) && date_wf(d@) && final(errs)@ == old(errs)@),
            self.year is Some && !make_ok(*self, starting) ==> r is None && final(errs)@ == old(
                errs,
            )@.push(invalid_date_error(loc, make_err(*self, starting))),
    {
        let year = match self.year {
            None => {
                let e = Error::new("Unspecified year").with_span(loc, "provided here").with_text(
                    "Impossible to guess year",
                ).with_hint("add YYYY- in front to indicate year of interest");
                proof {
                    assert(e@.items =~= unspecified_year_error(loc).items);
                }
                e.register(errs);
                return None;
            },
            Some(y) => y,
        };
        let month = match self.month {
            Some(m) => m,
            None => if starting {
                Month::Jan
            } else {
                Month::Dec
            },
        };
        let day: usize = match self.day {
            Some(d) => d as usize,
            None => if starting {
                1
            } else {
                month.count(year) as usize
            },
        };
        match Date::from(year as usize, month, day) {
            Ok(date) => Some(date),
            Err(e) => {
                let err = Error::new("Invalid date").with_span(loc, "provided here").with_text(
                    e.text().as_str(),
                ).with_hint("choose a date that exists").with_hint(e.fix_hint().as_str());
                proof {
                    assert(err@.items =~= invalid_date_error(loc, make_err(*self, starting)).items);
                }
                err.register(errs);
                None
            },
        }
    }
}

/// A partial starting endpoint with context defaults applied: the
/// reference year, and the first month (or the reference month when a
/// bare day was written).
pub open spec fn started(pd: PartialDate, refv: DateV) -> PartialDate {
    let p1 = if pd.year is Some {
        pd
    } else {
        PartialDate { year: Some(refv.year as u16), ..pd }
    };
    if p1.month is Some {
        p1
    } else {
        PartialDate {
            month: Some(
                if pd.day is None {
                    Month::Jan
                } else {
                    crate::date::month_of_num(refv.month)
                },
            ),
            ..p1
        }
    }
}

/// A one-sided endpoint with only its month defaulted: the first/last
/// month for a starting/ending endpoint, or the reference month when a
/// bare day was written. The year is never guessed for a one-sided
/// period, so a missing year stays missing and is rejected downstream.
pub open spec fn month_defaulted(pd: PartialDate, refv: DateV, starting: bool) -> PartialDate {
    if pd.month is Some {
        pd
    } else {
        PartialDate {
            month: Some(
                if pd.day is None {
                    if starting {
                        Month::Jan
                    } else {
                        Month::Dec
                    }
                } else {
                    crate::date::month_of_num(refv.month)
                },
            ),
            ..pd
        }
    }
}

/// The ending endpoint of an explicit range, defaulted from the made
/// starting date and the starting endpoint's month.
pub open spec fn ended_after(b: PartialDate, a: PartialDate, da: DateV, refv: DateV) -> PartialDate {
    if b.year is Some {
        b
    } else {
        let p1 = PartialDate { year: Some(da.year as u16), ..b };
        if p1.month is Some {
            p1
        } else {
            PartialDate {
                month: Some(
                    match a.month {
                        Some(m) => m,
                        None => if b.day is None {
                            Month::Dec
                        } else {
                            crate::date::month_of_num(refv.month)
                        },
                    },
                ),
                ..p1
            }
        }
    }
}

/// The fatal diagnostic for an explicit range whose end precedes its
/// start.
pub open spec fn inverted_range_error(loc: Loc) -> ErrorV {
    ErrorV {
        fatal: true,
        label: "End before start of timeframe"@,
        items: seq![
            ItemV::Block(loc, "this timeframe"@),
            ItemV::Text("Timeframe is empty"@),
            ItemV::Hint("If this is intentionnal consider using '()' instead"@),
        ],
    }
}

/// The outcome of resolving a partial period at a reference date: the
/// concrete interval, or the one fatal diagnostic that prevents it. A
/// one-sided period must carry its own year: with no other endpoint to
/// anchor it, the year cannot be guessed and is rejected.
pub open spec fn pp_make_outcome(pp: PartialPeriod, refv: DateV, loc: Loc) -> (
    Option<IntervalV>,
    Option<ErrorV>,
) {
    match pp {
        PartialPeriod::Empty => (Option::Some(IntervalV::Empty), Option::<ErrorV>::None),
        PartialPeriod::Unbounded => (Option::Some(IntervalV::Unbounded), Option::<ErrorV>::None),
        PartialPeriod::After(pd) => {
            let q = month_defaulted(pd, refv, true);
            if q.year is None {
                (Option::<IntervalV>::None, Option::Some(unspecified_year_error(loc)))
            } else if make_ok(q, true) {
                (Option::Some(IntervalV::After(made_date(q, true))), Option::<ErrorV>::None)
            } else {
                (Option::<IntervalV>::None, Option::Some(invalid_date_error(loc, make_err(q, true))))
            }
        },
        PartialPeriod::Before(pd) => {
            let q = month_defaulted(pd, refv, false);
            if q.year is None {
                (Option::<IntervalV>::None, Option::Some(unspecified_year_error(loc)))
            } else if make_ok(q, false) {
                (Option::Some(IntervalV::Before(made_date(q, false))), Option::<ErrorV>::None)
            } else {
                (
                    Option::<IntervalV>::None,
                    Option::Some(invalid_date_error(loc, make_err(q, false))),
                )
            }
        },
        PartialPeriod::Between(a, b) => {
            let qa = started(a, refv);
            if !make_ok(qa, true) {
                (Option::<IntervalV>::None, Option::Some(invalid_date_error(loc, make_err(qa, true))))
            } else {
                let da = made_date(qa, true);
                let qb = ended_after(b, a, da, refv);
                if !make_ok(qb, false) {
                    (
                        Option::<IntervalV>::None,
                        Option::Some(invalid_date_error(loc, make_err(qb, false))),
                    )
                } else {
                    let db = made_date(qb, false);
                    if date_lt_v(db, da) {
                        (Option::<IntervalV>::None, Option::Some(inverted_range_error(loc)))
                    } else {
                        (
                            Option::Some(IntervalV::Between(da, db)),
                            Option::<ErrorV>::None,
                        )
                    }
                }
            }
        },
    }
}

impl PartialPeriod {
    /// Resolve the partial period at a reference date into a concrete
    /// interval, defaulting missing months and days; a fatal diagnostic
    /// names an illegal date, an inverted range, or the year of a
    /// one-sided period, which cannot be guessed and is never defaulted.
    #[verifier::rlimit(100)]
    pub fn make(self, errs: &mut Record, loc: Loc, reference: Date) -> (r: Option<Interval>)
        requires
            old(errs).wf(),
            date_wf(reference@),
        ensures
            final(errs).wf(),
            ({
                let o = pp_make_outcome(self, reference@, loc);
                &&& match r {
                    Some(iv) => o.0 == Option::Some(iv@) && interval_wf(iv@) && final(errs)@ == old(
                        errs,
                    )@,
                    None => o.0 is None && final(errs)@ == old(errs)@.push(o.1.unwrap()),
                }
            }),
    {
        match self {
            PartialPeriod::Empty => Some(Interval::Empty),
            PartialPeriod::Unbounded => Some(Interval::Unbounded),
            PartialPeriod::After(pd) => {
                let rm = reference.month();
                let q = pd.default_month(
                    if pd.day.is_none() {
                        Month::Jan
                    } else {
                        rm
                    },
                );
                proof {
                    lemma_month_of_num(rm, reference@.month);
                    assert(q == month_defaulted(pd, reference@, true));
                }
                match q.make(errs, loc, true) {
                    Some(d) => Some(Interval::After(d)),
                    None => None,
                }
            },
            PartialPeriod::Before(pd) => {
                let rm = reference.month();
                let q = pd.default_month(
                    if pd.day.is_none() {
                        Month::Dec
                    } else {
                        rm
                    },
                );
                proof {
                    lemma_month_of_num(rm, reference@.month);
                    assert(q == month_defaulted(pd, reference@, false));
                }
                match q.make(errs, loc, false) {
                    Some(d) => Some(Interval::Before(d)),
                    None => None,
                }
            },
            PartialPeriod::Between(a, b) => {
                let rm = reference.month();
                let qa = a.default_year(reference.year()).default_month(
                    if a.day.is_none() {
                        Month::Jan
                    } else {
                        rm
                    },
                );
                proof {
                    lemma_month_of_num(rm, reference@.month);
                    assert(qa == started(a, reference@));
                }
                let da = match qa.make(errs, loc, true) {
                    Some(d) => d,
                    None => {
                        return None;
                    },
                };
                let qb = if b.year.is_none() {
                    b.default_year(da.year()).default_month(
                        match a.month {
                            Some(m) => m,
                            None => if b.day.is_none() {
                                Month::Dec
                            } else {
                                rm
                            },
                        },
                    )
                } else {
                    b
                };
                proof {
                    assert(qb == ended_after(b, a, da@, reference@));
                }
                let db = match qb.make(errs, loc, false) {
                    Some(d) => d,
                    None => {
                        return None;
                    },
                };
                if db.lt(&da) {
                    let e = Error::new("End before start of timeframe").with_span(
                        loc,
                        "this timeframe",
                    ).with_text("Timeframe is empty").with_hint(
                        "If this is intentionnal consider using '()' instead",
                    );
                    proof {
                        assert(e@.items =~= inverted_range_error(loc).items);
                    }
                    e.register(errs);
                    None
                } else {
                    Some(Interval::Between(da, db))
                }
            },
        }
    }
}

proof fn lemma_month_of_num(m: Month, n: int)
    requires
        m.num() == n,
    ensures
        crate::date::month_of_num(n) == m,
{
}

/// The fatal diagnostic for a period that must be bounded but is empty
/// or unbounded.
pub open spec fn degenerate_period_error(loc: Loc, empty: bool) -> ErrorV {
    ErrorV {
        fatal: true,
        label: if empty {
            "Period cannot be empty"@
        } else {
            "Period cannot be unbounded"@
        },
        items: seq![
            ItemV::Block(loc, "provided here"@),
            ItemV::Text("Explicit periods must have a beginning and/or an end"@),
            ItemV::Hint("use START.. or ..END or START..END"@),
            ItemV::Hint("for a single day simply use `span Day`"@),
        ],
    }
}

/// The fatal diagnostic for a bounded period whose end precedes its
/// start.
pub open spec fn accidental_empty_error(loc: Loc) -> ErrorV {
    ErrorV {
        fatal: true,
        label: "Period is accidentally empty"@,
        items: seq![
            ItemV::Block(loc, "provided here"@),
            ItemV::Text("This period has its END smaller than START"@),
            ItemV::Hint("empty periods are forbidden here"@),
        ],
    }
}

/// The outcome of bounding an interval at a reference date: the
/// inclusive range, or the one fatal diagnostic that prevents it.
pub open spec fn bounded_outcome(iv: IntervalV, dv: DateV, loc: Loc) -> (
    Option<(DateV, DateV)>,
    Option<ErrorV>,
) {
    match iv {
        IntervalV::Empty => (
            Option::<(DateV, DateV)>::None,
            Option::Some(degenerate_period_error(loc, true)),
        ),
        IntervalV::Unbounded => (
            Option::<(DateV, DateV)>::None,
            Option::Some(degenerate_period_error(loc, false)),
        ),
        _ => {
            let p = match iv {
                IntervalV::Between(s, e) => (s, e),
                IntervalV::After(s) => (s, dv),
                IntervalV::Before(e) => (dv, e),
                _ => (dv, dv),
            };
            if date_lt_v(p.1, p.0) {
                (Option::<(DateV, DateV)>::None, Option::Some(accidental_empty_error(loc)))
            } else {
                (Option::Some(p), Option::<ErrorV>::None)
            }
        },
    }
}

impl Interval {
    /// Bound the interval at a reference date: an open side takes the
    /// reference as its endpoint; an empty, unbounded or inverted
    /// period draws a fatal diagnostic.
    pub fn bounded(self, errs: &mut Record, loc: Loc, date: Date) -> (r: Option<Between>)
        requires
            old(errs).wf(),
        ensures
            final(errs).wf(),
            ({
                let o = bounded_outcome(self@, date@, loc);
                &&& match r {
                    Some(b) => o.0 == Option::Some(b@) && final(errs)@ == old(errs)@,
                    None => o.0 is None && final(errs)@ == old(errs)@.push(o.1.unwrap()),
                }
            }),
    {
        let (start, end) = match self {
            Interval::Empty => {
                let e = Error::new("Period cannot be empty").with_span(loc, "provided here")
                    .with_text("Explicit periods must have a beginning and/or an end").with_hint(
                    "use START.. or ..END or START..END",
                ).with_hint("for a single day simply use `span Day`");
                proof {
                    assert(e@.items =~= degenerate_period_error(loc, true).items);
                }
                e.register(errs);
                return None;
            },
            Interval::Unbounded => {
                let e = Error::new("Period cannot be unbounded").with_span(loc, "provided here")
                    .with_text("Explicit periods must have a beginning and/or an end").with_hint(
                    "use START.. or ..END or START..END",
                ).with_hint("for a single day simply use `span Day`");
                proof {
                    assert(e@.items =~= degenerate_period_error(loc, false).items);
                }
                e.register(errs);
                return None;
            },
            Interval::Between(start, end) => (start, end),
            Interval::After(start) => (start, date),
            Interval::Before(end) => (date, end),
        };
        if end.lt(&start) {
            let e = Error::new("Period is accidentally empty").with_span(loc, "provided here")
                .with_text("This period has its END smaller than START").with_hint(
                "empty periods are forbidden here",
            );
            proof {
                assert(e@.items =~= accidental_empty_error(loc).items);
            }
            e.register(errs);
            return None;
        }
        Some(Between(start, end))
    }
}

} // verus!
