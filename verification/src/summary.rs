//! Calendar aggregation: per-period `Summary` buckets with per-category
//! running totals, and a `Calendar` of disjoint, contiguous, ordered
//! buckets with binary-search lookup and bulk registration of entries.

use crate::date::{
    date_index, date_le_v, date_lt_v, date_wf, next_v, prev_v, Date, DateV,
};
use crate::entry::{entry_wf, prorate_v, Amount, Category, Duration, Entry, EntryV};
use crate::period::{between_wf, date_max_v, date_min_v, Between};
use vstd::pervasive::VecAdditionalExecFns;
use vstd::prelude::*;

verus! {

/// Mathematical model of a summary bucket.
pub struct SummaryV {
    pub lo: DateV,
    pub hi: DateV,
    pub total: int,
    pub cats: Seq<int>,
}

/// Sum of a sequence of subtotals.
pub open spec fn sum_of(s: Seq<int>) -> int
    decreases s.len(),
{
    if s.len() == 0 {
        0
    } else {
        s[0] + sum_of(s.drop_first())
    }
}

/// A well-formed summary: a non-empty well-formed period, one subtotal
/// per category, and the cached total equal to their sum.
pub open spec fn summary_wf(s: SummaryV) -> bool {
    &&& date_wf(s.lo)
    &&& date_wf(s.hi)
    &&& date_le_v(s.lo, s.hi)
    &&& s.cats.len() == 8
    &&& s.total == sum_of(s.cats)
}

/// Whether an entry's validity period overlaps a bucket's period.
pub open spec fn overlaps(s: SummaryV, e: EntryV) -> bool {
    date_le_v(date_max_v(e.lo, s.lo), date_min_v(e.hi, s.hi))
}

/// The bucket after accumulating one entry: the value prorated to the
/// overlap is added to the entry's category and to the total; a bucket
/// the entry does not overlap is unchanged.
pub open spec fn summary_plus(s: SummaryV, e: EntryV) -> SummaryV {
    if overlaps(s, e) {
        let v = prorate_v(e, (s.lo, s.hi)).value;
        SummaryV {
            total: s.total + v,
            cats: s.cats.update(e.cat.num(), s.cats[e.cat.num()] + v),
            ..s
        }
    } else {
        s
    }
}

/// Whether accumulating `e` into `s` stays within the machine integers.
pub open spec fn summary_plus_fits(s: SummaryV, e: EntryV) -> bool {
    overlaps(s, e) ==> {
        let v = prorate_v(e, (s.lo, s.hi)).value;
        &&& isize::MIN <= s.total + v <= isize::MAX
        &&& isize::MIN <= s.cats[e.cat.num()] + v <= isize::MAX
    }
}

proof fn lemma_sum_update(s: Seq<int>, i: int, v: int)
    requires
        0 <= i < s.len(),
    ensures
        sum_of(s.update(i, v)) == sum_of(s) - s[i] + v,
    decreases s.len(),
{
    if i == 0 {
        assert(s.update(0, v).drop_first() =~= s.drop_first());
    } else {
        assert(s.update(i, v).drop_first() =~= s.drop_first().update(i - 1, v));
        lemma_sum_update(s.drop_first(), i - 1, v);
    }
}

fn copy_amounts(v: &Vec<Amount>) -> (r: Vec<Amount>)
    ensures
        r@ == v@,
{
    let mut r: Vec<Amount> = Vec::new();
    let mut i: usize = 0;
    while i < v.len()
        invariant
            i <= v.len(),
            r@ =~= v@.subrange(0, i as int),
        decreases v.len() - i,
    {
        r.push(v[i]);
        i = i + 1;
    }
    proof {
        assert(r@ =~= v@);
    }
    r
}

/// Aggregated per-category totals for one reporting bucket.
#[derive(Debug)]
pub struct Summary {
    /// Period of relevance that added entries are intersected with.
    period: Between,
    /// Cached total.
    total: Amount,
    /// Subtotals per expense kind.
    categories: Vec<Amount>,
}

impl View for Summary {
    type V = SummaryV;

    closed spec fn view(&self) -> SummaryV {
        SummaryV {
            lo: self.period.0@,
            hi: self.period.1@,
            total: self.total.0 as int,
            cats: self.categories@.map_values(|a: Amount| a.0 as int),
        }
    }
}

impl Summary {
    /// Initialize blank over a period.
    pub fn from_period(period: Between) -> (r: Summary)
        requires
            between_wf(period@),
            date_le_v(period.0@, period.1@),
        ensures
            r@.lo == period.0@,
            r@.hi == period.1@,
            r@.total == 0,
            r@.cats =~= Seq::new(8, |j: int| 0int),
            summary_wf(r@),
    {
        let mut categories: Vec<Amount> = Vec::new();
        let mut i: usize = 0;
        while i < 8
            invariant
                i <= 8,
                categories@.len() == i,
                forall|j: int| 0 <= j < i ==> categories@[j].0 == 0,
            decreases 8 - i,
        {
            categories.push(Amount(0));
            i = i + 1;
        }
        let r = Summary { period, total: Amount(0), categories };
        proof {
            assert(r@.cats =~= Seq::new(8, |j: int| 0int));
            reveal_with_fuel(sum_of, 10);
            assert(sum_of(r@.cats) == 0);
        }
        r
    }

    /// Initialize blank for a single day.
    pub fn from_date(date: Date) -> (r: Summary)
        requires
            date_wf(date@),
        ensures
            r@.lo == date@,
            r@.hi == date@,
            r@.total == 0,
            r@.cats =~= Seq::new(8, |j: int| 0int),
            summary_wf(r@),
    {
        Summary::from_period(Between(date, date))
    }

    /// Read the subtotal for an expense kind.
    pub fn query(&self, cat: Category) -> (r: Amount)
        requires
            summary_wf(self@),
        ensures
            r.0 == self@.cats[cat.num()],
    {
        self.categories[cat.number()]
    }

    /// Read all subtotals, in category order.
    pub fn amounts(&self) -> (r: &[Amount])
        ensures
            r@.len() == self@.cats.len(),
            forall|j: int| 0 <= j < r@.len() ==> r@[j].0 == self@.cats[j],
    {
        self.categories.as_slice()
    }

    /// The bucket's period.
    pub fn period(&self) -> (r: Between)
        ensures
            r.0@ == self@.lo,
            r.1@ == self@.hi,
    {
        self.period
    }

    /// The bucket's total.
    pub fn total(&self) -> (r: Amount)
        ensures
            r.0 == self@.total,
    {
        self.total
    }

    /// The bucket after accumulating one entry, prorated to the overlap
    /// with the bucket's period.
    pub fn plus_entry(&self, entry: &Entry) -> (r: Summary)
        requires
            summary_wf(self@),
            entry_wf(entry@),
            summary_plus_fits(self@, entry@),
        ensures
            r@ == summary_plus(self@, entry@),
            summary_wf(r@),
    {
        match entry.intersect_loss(self.period) {
            Some(piece) => {
                let add = piece.value();
                let idx = piece.category().number();
                let mut cats = copy_amounts(&self.categories);
                let cur = cats[idx];
                cats.set(idx, Amount(cur.0 + add.0));
                let r = Summary {
                    period: self.period,
                    total: Amount(self.total.0 + add.0),
                    categories: cats,
                };
                proof {
                    lemma_sum_update(self@.cats, idx as int, self@.cats[idx as int] + add.0);
                    assert(r@.cats =~= self@.cats.update(
                        entry@.cat.num(),
                        self@.cats[entry@.cat.num()] + prorate_v(entry@, (self@.lo, self@.hi)).value,
                    ));
                }
                r
            },
            None => {
                let r = Summary {
                    period: self.period,
                    total: self.total,
                    categories: copy_amounts(&self.categories),
                };
                proof {
                    assert(r@.cats =~= self@.cats);
                }
                r
            },
        }
    }

    /// Accumulate one entry in place.
    pub fn add_entry(&mut self, entry: &Entry)
        requires
            summary_wf(old(self)@),
            entry_wf(entry@),
            summary_plus_fits(old(self)@, entry@),
        ensures
            final(self)@ == summary_plus(old(self)@, entry@),
            summary_wf(final(self)@),
    {
        *self = self.plus_entry(entry);
    }
}

/// A well-formed calendar: every bucket well-formed, and each bucket's
/// period starting the day after the previous bucket ends, so buckets
/// are contiguous, disjoint and ordered.
pub open spec fn calendar_wf(c: Seq<SummaryV>) -> bool {
    &&& forall|i: int| 0 <= i < c.len() ==> summary_wf(#[trigger] c[i])
    &&& forall|i: int| 0 <= i < c.len() - 1 ==> next_v(#[trigger] c[i].hi) == c[i + 1].lo
}

/// Whether a bucket's period overlaps an inclusive date range.
pub open spec fn bucket_overlaps(s: SummaryV, p: (DateV, DateV)) -> bool {
    date_le_v(s.lo, p.1) && date_le_v(p.0, s.hi)
}

/// Law: in a well-formed calendar the bucket starts are strictly
/// increasing, and a bucket ends before any later bucket starts.
pub proof fn lemma_calendar_sorted(c: Seq<SummaryV>, i: int, j: int)
    requires
        calendar_wf(c),
        0 <= i <= j < c.len(),
    ensures
        date_index(c[i].lo) <= date_index(c[j].lo),
        i < j ==> date_index(c[i].hi) < date_index(c[j].lo),
        date_index(c[i].lo) <= date_index(c[i].hi),
    decreases j - i,
{
    crate::date::lemma_index_order(c[i].lo, c[i].hi);
    if i < j {
        lemma_calendar_sorted(c, i, j - 1);
        crate::date::lemma_index_order(c[j - 1].lo, c[j - 1].hi);
        let h = c[j - 1].hi;
        assert(h != crate::date::last_day()) by {
            if h == crate::date::last_day() {
                assert(next_v(h) == c[j].lo);
                assert(c[j].lo.year == 10000);
            }
        }
        crate::date::lemma_next_index(h);
    }
}

/// An ordered, disjoint, contiguous sequence of summary buckets.
#[derive(Debug)]
pub struct Calendar {
    items: Vec<Summary>,
}

impl View for Calendar {
    type V = Seq<SummaryV>;

    closed spec fn view(&self) -> Seq<SummaryV> {
        self.items@.map_values(|s: Summary| s@)
    }
}

/// The models of a sequence of entries.
pub open spec fn entry_models(s: Seq<Entry>) -> Seq<EntryV> {
    s.map_values(|e: Entry| e@)
}

/// Every bucket after accumulating one entry.
pub open spec fn register_one(c: Seq<SummaryV>, e: EntryV) -> Seq<SummaryV> {
    c.map(|i: int, s: SummaryV| summary_plus(s, e))
}

/// Every bucket after accumulating a sequence of entries, in order.
pub open spec fn calendar_register(c: Seq<SummaryV>, es: Seq<EntryV>) -> Seq<SummaryV>
    decreases es.len(),
{
    if es.len() == 0 {
        c
    } else {
        calendar_register(register_one(c, es[0]), es.subrange(1, es.len() as int))
    }
}

/// Whether registering the entries in order keeps every running total
/// within the machine integers.
pub open spec fn register_fits(c: Seq<SummaryV>, es: Seq<EntryV>) -> bool
    decreases es.len(),
{
    es.len() > 0 ==> {
        &&& forall|j: int| 0 <= j < c.len() ==> summary_plus_fits(#[trigger] c[j], es[0])
        &&& register_fits(register_one(c, es[0]), es.subrange(1, es.len() as int))
    }
}

proof fn lemma_register_one_wf(c: Seq<SummaryV>, e: EntryV)
    requires
        calendar_wf(c),
        entry_wf(e),
        forall|j: int| 0 <= j < c.len() ==> summary_plus_fits(#[trigger] c[j], e),
    ensures
        calendar_wf(register_one(c, e)),
    decreases c.len(),
{
    let r = register_one(c, e);
    assert forall|i: int| 0 <= i < r.len() implies summary_wf(#[trigger] r[i]) by {
        lemma_summary_plus_wf(c[i], e);
    }
}

proof fn lemma_summary_plus_wf(s: SummaryV, e: EntryV)
    requires
        summary_wf(s),
        entry_wf(e),
        summary_plus_fits(s, e),
    ensures
        summary_wf(summary_plus(s, e)),
        summary_plus(s, e).lo == s.lo,
        summary_plus(s, e).hi == s.hi,
{
    if overlaps(s, e) {
        let v = prorate_v(e, (s.lo, s.hi)).value;
        lemma_sum_update(s.cats, e.cat.num(), s.cats[e.cat.num()] + v);
    }
}

proof fn lemma_register_step(c: Seq<SummaryV>, es: Seq<EntryV>, i: int)
    requires
        register_fits(c, es),
        0 <= i < es.len(),
    ensures
        forall|j: int|
            0 <= j < calendar_register(c, es.subrange(0, i)).len() ==> summary_plus_fits(
                #[trigger] calendar_register(c, es.subrange(0, i))[j],
                es[i],
            ),
        calendar_register(c, es.subrange(0, i + 1)) == register_one(
            calendar_register(c, es.subrange(0, i)),
            es[i],
        ),
    decreases i,
{
    if i == 0 {
        assert(es.subrange(0, 0) =~= Seq::<EntryV>::empty());
        assert(calendar_register(c, es.subrange(0, 0)) == c);
        let one = es.subrange(0, 1);
        assert(one.len() == 1);
        assert(one[0] == es[0]);
        let t = one.subrange(1, 1);
        assert(t =~= Seq::<EntryV>::empty());
        assert(t.len() == 0);
        assert(calendar_register(c, one) == calendar_register(register_one(c, one[0]), t));
        assert(calendar_register(register_one(c, one[0]), t) == register_one(c, one[0]));
    } else {
        let c1 = register_one(c, es[0]);
        let tail = es.subrange(1, es.len() as int);
        lemma_register_step(c1, tail, i - 1);
        assert(tail.subrange(0, i - 1) =~= es.subrange(1, i));
        assert(tail.subrange(0, i) =~= es.subrange(1, i + 1));
        assert(tail[i - 1] == es[i]);
        lemma_register_prefix_shift(c, es, i);
        lemma_register_prefix_shift(c, es, i + 1);
    }
}

proof fn lemma_register_prefix_shift(c: Seq<SummaryV>, es: Seq<EntryV>, k: int)
    requires
        1 <= k <= es.len(),
    ensures
        calendar_register(c, es.subrange(0, k)) == calendar_register(
            register_one(c, es[0]),
            es.subrange(1, k),
        ),
{
    let p = es.subrange(0, k);
    assert(p[0] == es[0]);
    assert(p.subrange(1, k) =~= es.subrange(1, k));
}

fn spacing_buckets(period: Between, duration: Duration, count: usize) -> (items: Vec<Summary>)
    requires
        between_wf(period@),
        spacing_fits(duration, count as int, period.1@),
    ensures
        items@.len() > 0 <==> date_lt_v(period.0@, period.1@),
        items@.len() > 0 ==> items@[0]@.lo == period.0@,
        items@.len() > 0 ==> next_v(items@[items@.len() - 1]@.hi) == period.1@,
        forall|k: int|
            0 <= k < items@.len() ==> summary_wf((#[trigger] items@[k])@) && items@[k]@.total == 0
                && items@[k]@.cats =~= Seq::new(8, |j: int| 0int),
        forall|k: int|
            0 <= k < items@.len() - 1 ==> next_v((#[trigger] items@[k])@.hi) == items@[k + 1]@.lo,
        forall|k: int|
            0 <= k < items@.len() - 1 ==> spacing_rel(
                duration,
                count as int,
                (#[trigger] items@[k])@.lo,
                next_v(items@[k]@.hi),
            ),
        items@.len() > 0 ==> spacing_covers(
            duration,
            count as int,
            items@[items@.len() - 1]@.lo,
            period.1@,
        ),
{
        let mut items: Vec<Summary> = Vec::new();
        let mut start = period.0;
        while start.lt(&period.1)
            invariant
                date_wf(start@),
                between_wf(period@),
                spacing_fits(duration, count as int, period.1@),
                items@.len() == 0 ==> start == period.0,
                items@.len() > 0 ==> date_lt_v(period.0@, period.1@),
                items@.len() > 0 ==> items@[0]@.lo == period.0@,
                items@.len() > 0 ==> date_le_v(start@, period.1@),
                items@.len() > 0 ==> next_v(items@[items@.len() - 1]@.hi) == start@,
                items@.len() > 0 && date_lt_v(start@, period.1@) ==> spacing_rel(
                    duration,
                    count as int,
                    items@[items@.len() - 1]@.lo,
                    start@,
                ),
                items@.len() > 0 ==> date_lt_v(start@, period.1@) || spacing_covers(
                    duration,
                    count as int,
                    items@[items@.len() - 1]@.lo,
                    period.1@,
                ),
                forall|k: int|
                    0 <= k < items@.len() ==> summary_wf((#[trigger] items@[k])@)
                        && items@[k]@.total == 0 && items@[k]@.cats =~= Seq::new(8, |j: int| 0int),
                forall|k: int|
                    0 <= k < items@.len() - 1 ==> next_v((#[trigger] items@[k])@.hi)
                        == items@[k + 1]@.lo,
                forall|k: int|
                    0 <= k < items@.len() - 1 ==> spacing_rel(
                        duration,
                        count as int,
                        (#[trigger] items@[k])@.lo,
                        next_v(items@[k]@.hi),
                    ),
            decreases crate::date::max_index() - date_index(start@),
        {
            let end = spacing_step(start, period.1, duration, count);
            proof {
                if end@ == crate::date::first_day() {
                    crate::date::lemma_index_range(start@);
                }
                crate::date::lemma_prev_next(end@);
                crate::date::lemma_index_order(start@, prev_v(end@));
                crate::date::lemma_index_order(start@, end@);
                crate::date::lemma_index_order(end@, period.1@);
            }
            let hi = end.prev();
            items.push(Summary::from_period(Between(start, hi)));
            start = end;
        }
    proof {
        if items@.len() > 0 {
            crate::date::lemma_index_order(start@, period.1@);
        }
    }
    items
}

/// Whether the step function can yield the exclusive end boundary of a
/// bucket when handed the bucket's start.
pub open spec fn step_links<F: Fn(Date) -> Option<Date>>(step: F, lo: DateV, bnd: DateV) -> bool {
    exists|d: Date, e: Date|
        d@ == lo && e@ == bnd && #[trigger] step.ensures((d,), Option::Some(e))
}

/// Whether the step function can stall at a boundary: yield no date, a
/// non-increasing date, or a date outside the supported years.
pub open spec fn step_stalled<F: Fn(Date) -> Option<Date>>(step: F, bnd: DateV) -> bool {
    exists|d: Date|
        #![trigger d@]
        d@ == bnd && (step.ensures((d,), Option::<Date>::None) || exists|e: Date|
            (#[trigger] step.ensures((d,), Option::Some(e))) && (!date_wf(e@) || !date_lt_v(
                d@,
                e@,
            )))
}

impl Calendar {
    /// The buckets, in order.
    pub fn contents(&self) -> (r: &[Summary])
        ensures
            r@.len() == self@.len(),
            forall|j: int| 0 <= j < r@.len() ==> (#[trigger] r@[j])@ == self@[j],
    {
        self.items.as_slice()
    }

    /// Construct from a strictly increasing sequence of boundary dates:
    /// each consecutive pair bounds one bucket, the second date
    /// exclusive.
    pub fn from_iter(splits: &Vec<Date>) -> (r: Calendar)
        requires
            forall|i: int| 0 <= i < splits@.len() ==> date_wf((#[trigger] splits@[i])@),
            forall|i: int|
                0 <= i < splits@.len() - 1 ==> date_lt_v(
                    (#[trigger] splits@[i])@,
                    splits@[i + 1]@,
                ),
        ensures
            calendar_wf(r@),
            r@.len() == if splits@.len() == 0 {
                0int
            } else {
                splits@.len() - 1
            },
            forall|i: int|
                0 <= i < r@.len() ==> (#[trigger] r@[i]).lo == splits@[i]@ && r@[i].hi == prev_v(
                    splits@[i + 1]@,
                ) && r@[i].total == 0 && r@[i].cats =~= Seq::new(8, |j: int| 0int),
    {
        let mut items: Vec<Summary> = Vec::new();
        if splits.len() == 0 {
            return Calendar { items };
        }
        let mut i: usize = 0;
        while i < splits.len() - 1
            invariant
                splits@.len() > 0,
                i < splits@.len(),
                items@.len() == i,
                forall|k: int| 0 <= k < splits@.len() ==> date_wf((#[trigger] splits@[k])@),
                forall|k: int|
                    0 <= k < splits@.len() - 1 ==> date_lt_v(
                        (#[trigger] splits@[k])@,
                        splits@[k + 1]@,
                    ),
                forall|k: int|
                    0 <= k < i ==> (#[trigger] items@[k]@).lo == splits@[k]@ && items@[k]@.hi
                        == prev_v(splits@[k + 1]@) && items@[k]@.total == 0 && items@[k]@.cats
                        =~= Seq::new(8, |j: int| 0int) && summary_wf(items@[k]@),
            decreases splits@.len() - i,
        {
            let a = splits[i];
            let b = splits[i + 1];
            proof {
                crate::date::lemma_index_order(a@, b@);
                if b@ == crate::date::first_day() {
                    crate::date::lemma_index_range(a@);
                }
                crate::date::lemma_prev_next(b@);
                crate::date::lemma_index_order(a@, prev_v(b@));
            }
            let hi = b.prev();
            items.push(Summary::from_period(Between(a, hi)));
            i = i + 1;
        }
        let r = Calendar { items };
        proof {
            assert forall|k: int| 0 <= k < r@.len() - 1 implies next_v(
                #[trigger] r@[k].hi,
            ) == r@[k + 1].lo by {
                crate::date::lemma_index_order(splits@[k]@, splits@[k + 1]@);
                crate::date::lemma_prev_next(splits@[k + 1]@);
            }
        }
        r
    }

    /// Construct from a starting point and a step function: each bucket
    /// runs from a boundary to the day before the next boundary the
    /// step yields; iteration stops exactly when the step yields no
    /// date, a non-increasing date, or a date outside the supported
    /// years.
    pub fn from_step<F: Fn(Date) -> Option<Date>>(start: Date, step: F) -> (r: Calendar)
        requires
            date_wf(start@),
            forall|d: Date| date_wf(d@) ==> #[trigger] step.requires((d,)),
        ensures
            calendar_wf(r@),
            r@.len() > 0 ==> r@[0].lo == start@,
            forall|i: int|
                0 <= i < r@.len() ==> (#[trigger] r@[i]).total == 0 && r@[i].cats =~= Seq::new(
                    8,
                    |j: int| 0int,
                ),
            forall|i: int|
                0 <= i < r@.len() ==> step_links(step, (#[trigger] r@[i]).lo, next_v(r@[i].hi)),
            step_stalled(
                step,
                if r@.len() > 0 {
                    next_v(r@[r@.len() - 1].hi)
                } else {
                    start@
                },
            ),
    {
        let mut items: Vec<Summary> = Vec::new();
        let mut cur = start;
        loop
            invariant_except_break
                date_wf(cur@),
                forall|d: Date| date_wf(d@) ==> #[trigger] step.requires((d,)),
                items@.len() > 0 ==> items@[0]@.lo == start@,
                items@.len() == 0 ==> cur == start,
                forall|k: int|
                    0 <= k < items@.len() ==> summary_wf((#[trigger] items@[k])@)
                        && items@[k]@.total == 0 && items@[k]@.cats =~= Seq::new(8, |j: int| 0int),
                forall|k: int|
                    0 <= k < items@.len() - 1 ==> next_v((#[trigger] items@[k])@.hi)
                        == items@[k + 1]@.lo,
                items@.len() > 0 ==> next_v(items@[items@.len() - 1]@.hi) == cur@,
                forall|k: int|
                    0 <= k < items@.len() ==> step_links(
                        step,
                        (#[trigger] items@[k])@.lo,
                        next_v(items@[k]@.hi),
                    ),
            ensures
                items@.len() > 0 ==> items@[0]@.lo == start@,
                items@.len() == 0 ==> cur == start,
                forall|k: int|
                    0 <= k < items@.len() ==> summary_wf((#[trigger] items@[k])@)
                        && items@[k]@.total == 0 && items@[k]@.cats =~= Seq::new(8, |j: int| 0int),
                forall|k: int|
                    0 <= k < items@.len() - 1 ==> next_v((#[trigger] items@[k])@.hi)
                        == items@[k + 1]@.lo,
                items@.len() > 0 ==> next_v(items@[items@.len() - 1]@.hi) == cur@,
                forall|k: int|
                    0 <= k < items@.len() ==> step_links(
                        step,
                        (#[trigger] items@[k])@.lo,
                        next_v(items@[k]@.hi),
                    ),
                step_stalled(step, cur@),
            decreases crate::date::max_index() - date_index(cur@),
        {
            proof {
                crate::date::lemma_index_range(cur@);
            }
            let next = match step(cur) {
                Some(d) => d,
                None => {
                    proof {
                        assert(step.ensures((cur,), Option::<Date>::None));
                        assert(step_stalled(step, cur@));
                    }
                    break ;
                },
            };
            let end = match Date::from(next.year() as usize, next.month(), next.day() as usize) {
                Ok(d) => d,
                Err(_) => {
                    proof {
                        assert(step.ensures((cur,), Option::Some(next)));
                        assert(!date_wf(next@));
                        assert(step_stalled(step, cur@));
                    }
                    break ;
                },
            };
            proof {
                assert(end@ == next@);
            }
            if !cur.lt(&end) {
                proof {
                    assert(step.ensures((cur,), Option::Some(next)));
                    assert(!date_lt_v(cur@, next@));
                    assert(step_stalled(step, cur@));
                }
                break ;
            }
            proof {
                crate::date::lemma_index_order(cur@, end@);
                if end@ == crate::date::first_day() {
                    crate::date::lemma_index_range(cur@);
                }
                crate::date::lemma_prev_next(end@);
                crate::date::lemma_index_order(cur@, prev_v(end@));
                assert(step.ensures((cur,), Option::Some(next)));
                assert(step_links(step, cur@, end@));
            }
            let hi = end.prev();
            items.push(Summary::from_period(Between(cur, hi)));
            cur = end;
        }
        Calendar { items }
    }
    /// Construct from duration-and-count spacing over a bounding period:
    /// buckets of `count` periods of `duration` tile the period, the
    /// final date exclusive, the last bucket truncated to fit.
    #[verifier::rlimit(100)]
    pub fn from_spacing(period: Between, duration: Duration, count: usize) -> (r: Calendar)
        requires
            between_wf(period@),
            spacing_fits(duration, count as int, period.1@),
        ensures
            calendar_wf(r@),
            r@.len() > 0 <==> date_lt_v(period.0@, period.1@),
            r@.len() > 0 ==> r@[0].lo == period.0@ && r@[r@.len() - 1].hi == prev_v(period.1@),
            forall|i: int|
                0 <= i < r@.len() ==> (#[trigger] r@[i]).total == 0 && r@[i].cats =~= Seq::new(
                    8,
                    |j: int| 0int,
                ),
            forall|i: int|
                0 <= i < r@.len() - 1 ==> spacing_rel(
                    duration,
                    count as int,
                    (#[trigger] r@[i]).lo,
                    next_v(r@[i].hi),
                ),
            r@.len() > 0 ==> spacing_covers(
                duration,
                count as int,
                r@[r@.len() - 1].lo,
                period.1@,
            ),
    {
        let items = spacing_buckets(period, duration, count);
        Calendar { items }
    }

    /// Binary search for the last bucket in `start..end` whose start is
    /// not after `target`, clamped to `start` when all of them are.
    pub fn dichotomy_aux(&self, target: Date, start: usize, end: usize) -> (r: usize)
        requires
            calendar_wf(self@),
            start < end <= self@.len(),
        ensures
            dichotomy_post(self@, target@, start as int, end as int, r as int),
        decreases end - start,
    {
        if start + 1 >= end {
            return start;
        }
        let mid = start + (end - start) / 2;
        if target.lt(&self.items[mid].period.0) {
            let r = self.dichotomy_aux(target, start, mid);
            proof {
                if r + 1 < end && r + 1 >= mid {
                    lemma_calendar_sorted(self@, mid as int, r as int + 1);
                    crate::date::lemma_index_order(self@[mid as int].lo, self@[r as int + 1].lo);
                }
            }
            r
        } else {
            let r = self.dichotomy_aux(target, mid, end);
            proof {
                if r > start && r <= mid {
                    lemma_calendar_sorted(self@, r as int, mid as int);
                    crate::date::lemma_index_order(self@[r as int].lo, self@[mid as int].lo);
                }
            }
            r
        }
    }

    /// Indices of the first and last buckets overlapping a period, or
    /// `None` when no bucket overlaps it.
    pub fn dichotomy_idx(&self, period: Between) -> (r: Option<(usize, usize)>)
        requires
            calendar_wf(self@),
            between_wf(period@),
            date_le_v(period.0@, period.1@),
        ensures
            r matches Some((s, e)) ==> s <= e < self@.len() && (forall|j: int|
                0 <= j < self@.len() ==> (bucket_overlaps(#[trigger] self@[j], period@) <==> s <= j
                    <= e)),
            r is None ==> forall|j: int|
                0 <= j < self@.len() ==> !bucket_overlaps(#[trigger] self@[j], period@),
    {
        if self.items.len() == 0 {
            return None;
        }
        let s = self.dichotomy_aux(period.0, 0, self.items.len());
        let e = self.dichotomy_aux(period.1, 0, self.items.len());
        let ghost c = self@;
        let ghost len = self@.len() as int;
        proof {
            lemma_le_total(c, period@);
            if s > e {
                lemma_calendar_sorted(c, e as int + 1, s as int);
                crate::date::lemma_index_order(c[e as int + 1].lo, c[s as int].lo);
                crate::date::lemma_index_order(c[s as int].lo, period.0@);
                crate::date::lemma_index_order(period.1@, c[e as int + 1].lo);
                crate::date::lemma_index_order(period.0@, period.1@);
            }
        }
        if s <= e && self.items[e].period.0.le(&period.1) && period.0.le(&self.items[e].period.1) {
            proof {
                lemma_dichotomy_overlap(c, period@, s as int, e as int);
            }
            Some((s, e))
        } else {
            proof {
                assert forall|j: int| 0 <= j < len implies !bucket_overlaps(
                    #[trigger] c[j],
                    period@,
                ) by {
                    lemma_no_overlap(c, period@, s as int, e as int, j);
                }
            }
            None
        }
    }

    /// The overlapping buckets themselves, or `None` when no bucket
    /// overlaps the period.
    pub fn dichotomy(&self, period: Between) -> (r: Option<&[Summary]>)
        requires
            calendar_wf(self@),
            between_wf(period@),
            date_le_v(period.0@, period.1@),
        ensures
            r matches Some(part) ==> part@.len() > 0 && exists|s: int, e: int|
                #![trigger self@[s], self@[e]]
                0 <= s <= e < self@.len() && part@.len() == e - s + 1 && (forall|j: int|
                    0 <= j < self@.len() ==> (bucket_overlaps(#[trigger] self@[j], period@) <==> s
                        <= j <= e)) && (forall|k: int|
                    0 <= k < part@.len() ==> (#[trigger] part@[k])@ == self@[s + k]),
            r is None ==> forall|j: int|
                0 <= j < self@.len() ==> !bucket_overlaps(#[trigger] self@[j], period@),
    {
        let n = self.items.len();
        match self.dichotomy_idx(period) {
            Some((start, end)) => {
                proof {
                    assert(end < n);
                }
                let part = vstd::slice::slice_subrange(self.items.as_slice(), start, end + 1);
                proof {
                    let ghost s = start as int;
                    let ghost e = end as int;
                    assert(forall|k: int|
                        0 <= k < part@.len() ==> (#[trigger] part@[k])@ == self@[s + k]);
                    assert(bucket_overlaps(self@[s], period@));
                    assert(bucket_overlaps(self@[e], period@));
                    assert(0 <= s <= e < self@.len() && part@.len() == e - s + 1 && (forall|j: int|
                        0 <= j < self@.len() ==> (bucket_overlaps(#[trigger] self@[j], period@)
                            <==> s <= j <= e)) && (forall|k: int|
                        0 <= k < part@.len() ==> (#[trigger] part@[k])@ == self@[s + k]));
                }
                Some(part)
            },
            None => None,
        }
    }

    /// Accumulate every entry into every bucket its period overlaps,
    /// each bucket prorating the entry to its own sub-period.
    pub fn register(&mut self, entries: &[Entry])
        requires
            calendar_wf(old(self)@),
            forall|i: int| 0 <= i < entries@.len() ==> entry_wf((#[trigger] entries@[i])@),
            register_fits(old(self)@, entry_models(entries@)),
        ensures
            final(self)@ == calendar_register(old(self)@, entry_models(entries@)),
            calendar_wf(final(self)@),
    {
        let ghost ms = entry_models(entries@);
        let ghost orig = self@;
        let mut i: usize = 0;
        proof {
            assert(ms.subrange(0, 0) =~= Seq::<EntryV>::empty());
        }
        while i < entries.len()
            invariant
                entries@.len() == ms.len(),
                forall|k: int| 0 <= k < entries@.len() ==> entry_wf((#[trigger] entries@[k])@),
                forall|k: int| 0 <= k < ms.len() ==> ms[k] == (#[trigger] entries@[k])@,
                register_fits(orig, ms),
                i <= entries@.len(),
                calendar_wf(self@),
                self@ == calendar_register(orig, ms.subrange(0, i as int)),
            decreases entries@.len() - i,
        {
            let item = vstd::slice::slice_index_get(entries, i);
            let ghost before = self@;
            proof {
                lemma_register_step(orig, ms, i as int);
                assert(forall|j: int|
                    0 <= j < before.len() ==> summary_plus_fits(#[trigger] before[j], ms[i as int]));
            }
            let n = self.items.len();
            match self.dichotomy_idx(item.period()) {
                Some((s, e)) => {
                    let mut j = s;
                    while j <= e
                        invariant
                            calendar_wf(before),
                            entry_wf(item@),
                            s <= j <= e + 1,
                            e < n,
                            n == before.len(),
                            self@.len() == before.len(),
                            forall|k: int|
                                0 <= k < before.len() ==> summary_plus_fits(
                                    #[trigger] before[k],
                                    item@,
                                ),
                            forall|k: int|
                                0 <= k < before.len() ==> (bucket_overlaps(
                                    #[trigger] before[k],
                                    (item@.lo, item@.hi),
                                ) <==> s <= k <= e),
                            forall|k: int|
                                s <= k < j ==> self@[k] == summary_plus(
                                    #[trigger] before[k],
                                    item@,
                                ),
                            forall|k: int|
                                0 <= k < before.len() && !(s <= k < j) ==> self@[k]
                                    == #[trigger] before[k],
                        decreases e + 1 - j,
                    {
                        proof {
                            assert(self@[j as int] == before[j as int]);
                            assert(summary_wf(before[j as int]));
                        }
                        let updated = self.items[j].plus_entry(item);
                        self.items.set(j, updated);
                        j = j + 1;
                    }
                    proof {
                        lemma_overlap_agrees(item@, before);
                        assert forall|k: int| 0 <= k < before.len() implies self@[k]
                            == summary_plus(#[trigger] before[k], item@) by {
                            if !(s <= k <= e) {
                                assert(!bucket_overlaps(before[k], (item@.lo, item@.hi)));
                            }
                        }
                        assert(self@ =~= register_one(before, item@));
                    }
                },
                None => {
                    proof {
                        lemma_overlap_agrees(item@, before);
                        assert forall|k: int| 0 <= k < before.len() implies summary_plus(
                            #[trigger] before[k],
                            item@,
                        ) == before[k] by {
                            assert(!bucket_overlaps(before[k], (item@.lo, item@.hi)));
                        }
                        assert(self@ =~= register_one(before, item@));
                    }
                },
            }
            i = i + 1;
            proof {
                lemma_register_step(orig, ms, i as int - 1);
                lemma_register_one_wf_frame(before, item@);
            }
        }
        proof {
            assert(ms.subrange(0, ms.len() as int) =~= ms);
        }
    }
}

fn spacing_step(start: Date, bound: Date, duration: Duration, count: usize) -> (end: Date)
    requires
        date_wf(start@),
        date_wf(bound@),
        date_lt_v(start@, bound@),
        spacing_fits(duration, count as int, bound@),
    ensures
        date_wf(end@),
        date_lt_v(start@, end@),
        date_le_v(end@, bound@),
        date_lt_v(end@, bound@) ==> spacing_rel(duration, count as int, start@, end@),
        spacing_covers(duration, count as int, start@, end@),
        date_index(end@) > date_index(start@),
        end@ != crate::date::first_day(),
{
    proof {
        crate::date::lemma_index_range(start@);
        crate::date::lemma_index_range(bound@);
        crate::date::lemma_index_order(start@, bound@);
    }
    let next = match duration {
        Duration::Day => start.jump_day(count as isize),
        Duration::Week => start.jump_day(7 * (count as isize)),
        Duration::Month => start.jump_month(count as isize),
        Duration::Year => start.jump_year(count as isize),
    };
    proof {
        crate::date::lemma_index_order(start@, next@);
    }
    let end = bound.earlier(next);
    proof {
        crate::date::lemma_index_order(start@, end@);
        crate::date::lemma_index_order(next@, bound@);
        crate::date::lemma_index_order(end@, bound@);
        crate::date::lemma_index_order(end@, next@);
    }
    end
}

/// Whether the binary search's answer is sound for `target` between
/// `start` and `end`: the answer's bucket starts at or before `target`
/// (unless clamped to `start`), and the following bucket starts after.
pub open spec fn dichotomy_post(
    c: Seq<SummaryV>,
    target: DateV,
    start: int,
    end: int,
    r: int,
) -> bool {
    &&& start <= r < end
    &&& r > start ==> date_le_v(c[r].lo, target)
    &&& r + 1 < end ==> date_lt_v(target, c[r + 1].lo)
}

/// How one bucket boundary follows from the previous bucket's start
/// under duration-and-count spacing.
pub open spec fn spacing_rel(duration: Duration, count: int, lo: DateV, bnd: DateV) -> bool {
    match duration {
        Duration::Day => date_index(bnd) == date_index(lo) + count,
        Duration::Week => date_index(bnd) == date_index(lo) + 7 * count,
        Duration::Month => bnd == crate::date::jump_month_v(lo, count),
        Duration::Year => bnd == crate::date::jump_year_v(lo, count),
    }
}

/// Whether one spacing step from `lo` reaches `hi` or beyond: the last
/// bucket of a spaced calendar is never shorter than the spacing only
/// because trailing days were merged away.
pub open spec fn spacing_covers(duration: Duration, count: int, lo: DateV, hi: DateV) -> bool {
    match duration {
        Duration::Day => date_index(hi) <= date_index(lo) + count,
        Duration::Week => date_index(hi) <= date_index(lo) + 7 * count,
        Duration::Month => date_le_v(hi, crate::date::jump_month_v(lo, count)),
        Duration::Year => date_le_v(hi, crate::date::jump_year_v(lo, count)),
    }
}

/// Whether spacing jumps from anywhere at or before `hi` stay within
/// the supported years.
pub open spec fn spacing_fits(duration: Duration, count: int, hi: DateV) -> bool {
    &&& 1 <= count
    &&& match duration {
        Duration::Day => date_index(hi) + count <= crate::date::max_index(),
        Duration::Week => date_index(hi) + 7 * count <= crate::date::max_index(),
        Duration::Month => hi.year * 12 + hi.month + count <= 119999,
        Duration::Year => hi.year + count <= 9999,
    }
}

proof fn lemma_le_total(c: Seq<SummaryV>, p: (DateV, DateV))
    requires
        calendar_wf(c),
        date_wf(p.0),
        date_wf(p.1),
    ensures
        forall|j: int|
            0 <= j < c.len() ==> (date_le_v((#[trigger] c[j]).lo, p.1) || date_le_v(
                p.1,
                c[j].lo,
            )) && (date_le_v(p.0, c[j].hi) || date_le_v(c[j].hi, p.0)),
{
    assert forall|j: int|
        0 <= j < c.len() implies (date_le_v((#[trigger] c[j]).lo, p.1) || date_le_v(p.1, c[j].lo))
        && (date_le_v(p.0, c[j].hi) || date_le_v(c[j].hi, p.0)) by {
        crate::date::lemma_index_order(c[j].lo, p.1);
        crate::date::lemma_index_order(p.1, c[j].lo);
        crate::date::lemma_index_order(p.0, c[j].hi);
        crate::date::lemma_index_order(c[j].hi, p.0);
    }
}

proof fn lemma_dichotomy_overlap(c: Seq<SummaryV>, p: (DateV, DateV), s: int, e: int)
    requires
        calendar_wf(c),
        date_wf(p.0),
        date_wf(p.1),
        date_le_v(p.0, p.1),
        0 <= s <= e < c.len(),
        dichotomy_post(c, p.0, 0, c.len() as int, s),
        dichotomy_post(c, p.1, 0, c.len() as int, e),
        date_le_v(c[e].lo, p.1),
        date_le_v(p.0, c[e].hi),
    ensures
        forall|j: int|
            0 <= j < c.len() ==> (bucket_overlaps(#[trigger] c[j], p) <==> s <= j <= e),
{
    assert forall|j: int| 0 <= j < c.len() implies (bucket_overlaps(#[trigger] c[j], p) <==> s <= j
        <= e) by {
        crate::date::lemma_index_order(p.0, p.1);
        lemma_calendar_sorted(c, 0, j);
        crate::date::lemma_index_order(c[j].lo, c[j].hi);
        crate::date::lemma_index_order(c[j].lo, p.1);
        crate::date::lemma_index_order(p.0, c[j].hi);
        crate::date::lemma_index_order(c[e].lo, p.1);
        crate::date::lemma_index_order(p.0, c[e].hi);
        if j < s {
            // the bucket ends before the period starts
            lemma_calendar_sorted(c, j, s);
            crate::date::lemma_index_order(c[s].lo, p.0);
            assert(s > 0);
            assert(date_le_v(c[s].lo, p.0));
            crate::date::lemma_index_order(p.0, c[s].lo);
        } else if j > e {
            // the bucket starts after the period ends
            lemma_calendar_sorted(c, e + 1, j);
            crate::date::lemma_index_order(c[e + 1].lo, c[j].lo);
        } else {
            // the bucket lies in the overlapping range
            lemma_calendar_sorted(c, s, j);
            lemma_calendar_sorted(c, j, e);
            crate::date::lemma_index_order(c[j].lo, c[e].lo);
            crate::date::lemma_index_order(c[e].lo, p.1);
            if j > s {
                // p.0 is at or before the end of bucket s, which ends
                // before bucket j starts
                if s + 1 < c.len() as int {
                    crate::date::lemma_index_order(p.0, c[s + 1].lo);
                    lemma_calendar_sorted(c, s + 1, j);
                    crate::date::lemma_index_order(c[s + 1].lo, c[j].lo);
                    crate::date::lemma_index_order(c[j].lo, c[j].hi);
                    crate::date::lemma_index_order(p.0, c[j].hi);
                }
            }
        }
    }
}

proof fn lemma_no_overlap(c: Seq<SummaryV>, p: (DateV, DateV), s: int, e: int, j: int)
    requires
        calendar_wf(c),
        date_wf(p.0),
        date_wf(p.1),
        date_le_v(p.0, p.1),
        0 <= s <= e < c.len(),
        dichotomy_post(c, p.0, 0, c.len() as int, s),
        dichotomy_post(c, p.1, 0, c.len() as int, e),
        !(date_le_v(c[e].lo, p.1) && date_le_v(p.0, c[e].hi)),
        0 <= j < c.len(),
    ensures
        !bucket_overlaps(c[j], p),
{
    crate::date::lemma_index_order(p.0, p.1);
    lemma_calendar_sorted(c, 0, j);
    crate::date::lemma_index_order(c[j].lo, c[j].hi);
    crate::date::lemma_index_order(c[j].lo, p.1);
    crate::date::lemma_index_order(p.0, c[j].hi);
    crate::date::lemma_index_order(c[e].lo, p.1);
    crate::date::lemma_index_order(p.0, c[e].hi);
    if !date_le_v(c[e].lo, p.1) {
        // even the answer for p.1 starts after p.1, so e is clamped at 0
        // and every bucket starts after the period
        assert(e == 0);
        lemma_calendar_sorted(c, 0, j);
        crate::date::lemma_index_order(c[0].lo, c[j].lo);
    } else {
        // the period ends before bucket e starts or after it ends; here
        // p.0 is past the end of bucket e, and no later bucket can hold
        // the period either
        if j <= e {
            lemma_calendar_sorted(c, j, e);
            if j < e {
                crate::date::lemma_index_order(c[j].hi, c[e].lo);
                crate::date::lemma_index_order(c[e].lo, c[e].hi);
            }
            crate::date::lemma_index_order(c[j].hi, c[e].hi);
        } else {
            lemma_calendar_sorted(c, e + 1, j);
            crate::date::lemma_index_order(c[e + 1].lo, c[j].lo);
        }
    }
}

proof fn lemma_overlap_agrees(e: EntryV, c: Seq<SummaryV>)
    requires
        entry_wf(e),
        calendar_wf(c),
    ensures
        forall|k: int|
            0 <= k < c.len() ==> (bucket_overlaps(#[trigger] c[k], (e.lo, e.hi)) <==> overlaps(
                c[k],
                e,
            )),
{
    assert forall|k: int|
        0 <= k < c.len() implies (bucket_overlaps(#[trigger] c[k], (e.lo, e.hi)) <==> overlaps(
        c[k],
        e,
    )) by {
        crate::date::lemma_index_order(e.lo, e.hi);
        crate::date::lemma_index_order(c[k].lo, c[k].hi);
        crate::date::lemma_index_order(c[k].lo, e.hi);
        crate::date::lemma_index_order(e.lo, c[k].hi);
        crate::date::lemma_index_order(e.lo, c[k].lo);
        crate::date::lemma_index_order(e.hi, c[k].hi);
    }
}

proof fn lemma_register_one_wf_frame(c: Seq<SummaryV>, e: EntryV)
    requires
        calendar_wf(c),
        entry_wf(e),
        forall|j: int| 0 <= j < c.len() ==> summary_plus_fits(#[trigger] c[j], e),
    ensures
        calendar_wf(register_one(c, e)),
        forall|j: int|
            0 <= j < c.len() ==> (#[trigger] register_one(c, e)[j]).lo == c[j].lo && register_one(
                c,
                e,
            )[j].hi == c[j].hi,
{
    lemma_register_one_wf(c, e);
}

/// Law: looking up a bucket's own start date finds that bucket: any
/// answer the binary search can give for `c[i].lo` over the whole
/// calendar is `i` itself.
pub proof fn lemma_dichotomy_self(c: Seq<SummaryV>, i: int, r: int)
    requires
        calendar_wf(c),
        0 <= i < c.len(),
        dichotomy_post(c, c[i].lo, 0, c.len() as int, r),
    ensures
        r == i,
{
    if r < i {
        lemma_calendar_sorted(c, r + 1, i);
        crate::date::lemma_index_order(c[r + 1].lo, c[i].lo);
        crate::date::lemma_index_order(c[i].lo, c[r + 1].lo);
    }
    if r > i {
        lemma_calendar_sorted(c, i, r);
        crate::date::lemma_index_order(c[r].lo, c[i].lo);
        crate::date::lemma_index_order(c[i].lo, c[r].lo);
    }
}

} // verus!
