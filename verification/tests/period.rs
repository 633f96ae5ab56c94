use billig::date::{Date, Month};
use billig::period::{Between, Interval, PartialPeriod};
use billig::record::{Loc, Record};

fn dt(y: usize, m: Month, d: usize) -> Date {
    Date::from(y, m, d).unwrap()
}

fn pp(start: Date, end: Date, text: &str) {
    assert_eq!(Between(start, end).text(), text);
}

#[test]
fn period_fmt() {
    pp(dt(2020, Month::Jan, 15), dt(2021, Month::Mar, 17), "2020-Jan-15..2021-Mar-17");
    pp(dt(2020, Month::Jan, 15), dt(2020, Month::Mar, 17), "2020-Jan-15..Mar-17");
    pp(dt(2020, Month::Jan, 15), dt(2020, Month::Jan, 17), "2020-Jan-15..17");
    pp(dt(2020, Month::Jan, 15), dt(2020, Month::Jan, 15), "2020-Jan-15");
    pp(dt(2020, Month::Jan, 1), dt(2020, Month::Jan, 31), "2020-Jan");
    pp(dt(2020, Month::Jan, 1), dt(2020, Month::Jan, 15), "2020-Jan-1..15");
    pp(dt(2020, Month::Jan, 15), dt(2020, Month::Jan, 31), "2020-Jan-15..31");
    pp(dt(2020, Month::Jan, 1), dt(2020, Month::Feb, 15), "2020-Jan..Feb-15");
    pp(dt(2020, Month::Jan, 1), dt(2020, Month::Feb, 29), "2020-Jan..Feb");
    pp(dt(2020, Month::Jan, 1), dt(2021, Month::Mar, 17), "2020..2021-Mar-17");
    pp(dt(2020, Month::Feb, 3), dt(2021, Month::Dec, 31), "2020-Feb-3..2021");
    pp(dt(2020, Month::Jan, 1), dt(2021, Month::Mar, 31), "2020..2021-Mar");
    pp(dt(2020, Month::Jan, 1), dt(2020, Month::Dec, 31), "2020");
    pp(dt(2020, Month::Jan, 1), dt(2023, Month::Dec, 31), "2020..2023");
    pp(dt(2020, Month::Jan, 3), dt(2023, Month::Feb, 28), "2020-Jan-3..2023-Feb");
}

fn pp2(start: Date, end: Date, text: &str) {
    let b = Between(start, end);
    let rendered = b.text();
    assert_eq!(rendered.as_str(), text);
}

#[test]
fn period_period_fmt() {
    pp2(dt(2020, Month::Jan, 15), dt(2021, Month::Mar, 17), "2020-Jan-15..2021-Mar-17");
    pp2(dt(2020, Month::Jan, 15), dt(2020, Month::Mar, 17), "2020-Jan-15..Mar-17");
    pp2(dt(2020, Month::Jan, 15), dt(2020, Month::Jan, 17), "2020-Jan-15..17");
    pp2(dt(2020, Month::Jan, 15), dt(2020, Month::Jan, 15), "2020-Jan-15");
    pp2(dt(2020, Month::Jan, 1), dt(2020, Month::Jan, 31), "2020-Jan");
    pp2(dt(2020, Month::Jan, 1), dt(2020, Month::Jan, 15), "2020-Jan-1..15");
    pp2(dt(2020, Month::Jan, 15), dt(2020, Month::Jan, 31), "2020-Jan-15..31");
    pp2(dt(2020, Month::Jan, 1), dt(2020, Month::Feb, 15), "2020-Jan..Feb-15");
    pp2(dt(2020, Month::Jan, 1), dt(2020, Month::Feb, 29), "2020-Jan..Feb");
    pp2(dt(2020, Month::Jan, 1), dt(2021, Month::Mar, 17), "2020..2021-Mar-17");
    pp2(dt(2020, Month::Feb, 3), dt(2021, Month::Dec, 31), "2020-Feb-3..2021");
    pp2(dt(2020, Month::Jan, 1), dt(2021, Month::Mar, 31), "2020..2021-Mar");
    pp2(dt(2020, Month::Jan, 1), dt(2023, Month::Dec, 31), "2020..2023");
    pp2(dt(2020, Month::Jan, 3), dt(2023, Month::Feb, 28), "2020-Jan-3..2023-Feb");
    pp2(dt(2021, Month::Mar, 17), dt(2020, Month::Jan, 15), "()");
}

fn loc() -> Loc {
    Loc { file: 0, start: 0, end: 0 }
}

fn ps_ok(s: &str, expected: &str) {
    let mut errs = Record::new();
    let parsed = PartialPeriod::parse(&mut errs, 0, s);
    match parsed {
        Some(pp) => match pp.make(&mut errs, loc(), dt(2021, Month::Feb, 1)) {
            Some(iv) => {
                assert_eq!(iv.into_between().text().as_str(), expected);
            },
            None => panic!("{} rejected instead of accepted: {}", s, errs.render()),
        },
        None => panic!("{} rejected instead of accepted: {}", s, errs.render()),
    }
}

fn ps_fail(s: &str, expected: &str) {
    let mut errs = Record::new();
    let made = match PartialPeriod::parse(&mut errs, 0, s) {
        Some(pp) => pp.make(&mut errs, loc(), dt(2021, Month::Feb, 1)),
        None => None,
    };
    match made {
        Some(iv) => panic!(
            "{} accepted as {} instead of rejected",
            s,
            iv.into_between().text()
        ),
        None => {
            let rendered = errs.render();
            if !rendered.contains(expected) {
                panic!("{} rejected for a different reason: {}", s, rendered);
            }
        },
    }
}

#[test]
fn period_parse() {
    ps_ok("2020-Jan-15..2021-Mar-17", "2020-Jan-15..2021-Mar-17");
    ps_ok("2020-Jan-15..Mar-17", "2020-Jan-15..Mar-17");
    ps_ok("2020-Jan-15..17", "2020-Jan-15..17");
    ps_ok("2020-Jan-15", "2020-Jan-15");
    ps_ok("2020-Jan", "2020-Jan");
    ps_ok("2020-Jan-1..15", "2020-Jan-1..15");
    ps_ok("2020-Jan-15..31", "2020-Jan-15..31");
    ps_ok("2020-Jan..Feb-15", "2020-Jan..Feb-15");
    ps_ok("2020-Jan..Feb", "2020-Jan..Feb");
    ps_ok("2020..2021-Mar-17", "2020..2021-Mar-17");
    ps_ok("2020-Feb-3..2021", "2020-Feb-3..2021");
    ps_ok("2020..2021-Mar", "2020..2021-Mar");
    ps_ok("2020", "2020");
    ps_ok("2020..2023", "2020..2023");
    ps_ok("2020-Jan-3..2023-Feb", "2020-Jan-3..2023-Feb");
    ps_ok("2020-Jan-10..", "2020-Jan-10..");
    ps_ok("..2020", "..2020");
    ps_ok("2020..", "2020..");
    ps_ok("2020..Mar", "2020-Jan..Mar");
    ps_ok("2020-Jan..15", "2020-Jan-1..15");
    ps_ok("2020-Jan-15..2020", "2020-Jan-15..Dec");
    ps_ok("2020..2020", "2020");
    ps_ok("..", "..");
    ps_fail("..Feb-15", "Impossible to guess year");
    ps_fail("..1", "Impossible to guess year");
    ps_fail("Mar..", "Impossible to guess year");
    ps_fail("..Mar", "Impossible to guess year");
    ps_fail("15..", "Impossible to guess year");
    ps_fail("..15", "Impossible to guess year");
    ps_ok("17..21", "2021-Feb-17..21");
    ps_ok("17..Mar-1", "2021-Feb-17..Mar-1");
    ps_ok("Mar-13..17", "2021-Mar-13..17");
    ps_ok("Mar-13..2021", "2021-Mar-13..Dec");
    ps_ok("Mar-13..Oct", "2021-Mar-13..Oct");
    ps_ok("15", "2021-Feb-15");
    ps_ok("Jan", "2021-Jan");
    ps_ok("Jan-15", "2021-Jan-15");
    ps_ok("()", "()");
    ps_fail("..0", "Impossible to guess year");
    ps_fail("..45", "Impossible to guess year");
    ps_fail("Bef..", "not a valid month");
    ps_fail("1..3..5", "expected EOF");
    ps_fail("2020202", "expected EOF");
    ps_fail("0000", "outside of the supported range");
    ps_fail("Jan-20...", "expected EOF");
    ps_fail("20..15", "Timeframe is empty");
    ps_fail("2021-Feb-17..0", "not in the range");
    ps_fail("17..45", "not in the range");
}

#[test]
fn period_period_parse() {
    ps_ok("2020-Jan-15..2021-Mar-17", "2020-Jan-15..2021-Mar-17");
    ps_ok("2020-Jan-15..Mar-17", "2020-Jan-15..Mar-17");
    ps_ok("2020-Jan-15..17", "2020-Jan-15..17");
    ps_ok("2020-Jan-15", "2020-Jan-15");
    ps_ok("2020-Jan", "2020-Jan");
    ps_ok("2020-Jan-1..15", "2020-Jan-1..15");
    ps_ok("2020-Jan-15..31", "2020-Jan-15..31");
    ps_ok("2020-Jan..Feb-15", "2020-Jan..Feb-15");
    ps_ok("2020-Jan..Feb", "2020-Jan..Feb");
    ps_ok("2020..2021-Mar-17", "2020..2021-Mar-17");
    ps_ok("2020-Feb-3..2021", "2020-Feb-3..2021");
    ps_ok("2020..2021-Mar", "2020..2021-Mar");
    ps_ok("2020..2023", "2020..2023");
    ps_ok("2020-Jan-3..2023-Feb", "2020-Jan-3..2023-Feb");
    ps_ok("2020-Jan-10..", "2020-Jan-10..");
    ps_ok("..2020", "..2020");
    ps_ok("2020..", "2020..");
    ps_ok("2020..Mar", "2020-Jan..Mar");
    ps_ok("2020-Jan..15", "2020-Jan-1..15");
    ps_ok("2020-Jan-15..2020", "2020-Jan-15..Dec");
    ps_ok("2020..2020", "2020");
    ps_fail("..Feb-15", "Impossible to guess year");
    ps_ok("..2021-Feb-15", "..2021-Feb-15");
    ps_fail("..1", "Impossible to guess year");
    ps_ok("..2021-Feb-1", "..2021-Feb-1");
    ps_fail("Mar..", "Impossible to guess year");
    ps_ok("2021-Mar..", "2021-Mar..");
    ps_fail("..Mar", "Impossible to guess year");
    ps_ok("..2021-Mar", "..2021-Mar");
    ps_fail("15..", "Impossible to guess year");
    ps_ok("2021-Feb-15..", "2021-Feb-15..");
    ps_fail("..15", "Impossible to guess year");
    ps_ok("17..21", "2021-Feb-17..21");
    ps_ok("2021-Feb-17..21", "2021-Feb-17..21");
    ps_ok("17..Mar-1", "2021-Feb-17..Mar-1");
    ps_ok("2021-Feb-17..Mar-1", "2021-Feb-17..Mar-1");
    ps_ok("Mar-13..17", "2021-Mar-13..17");
}

#[test]
fn interval_algebra() {
    let a = Interval::Between(dt(2020, Month::Jan, 1), dt(2020, Month::Jun, 30));
    let b = Interval::Between(dt(2020, Month::Mar, 1), dt(2020, Month::Sep, 30));
    let c = Interval::After(dt(2020, Month::Feb, 1));
    let d = Interval::Before(dt(2020, Month::Apr, 30));
    // commutativity on samples
    assert_eq!(a.intersect(b), b.intersect(a));
    assert_eq!(a.unite(b), b.unite(a));
    assert_eq!(c.intersect(d), d.intersect(c));
    assert_eq!(c.unite(d), d.unite(c));
    // idempotence with self
    assert_eq!(a.intersect(a), a);
    // absorbing elements
    assert_eq!(a.intersect(Interval::Empty), Interval::Empty);
    assert_eq!(Interval::Empty.intersect(a), Interval::Empty);
    assert_eq!(a.unite(Interval::Unbounded), Interval::Unbounded);
    assert_eq!(Interval::Unbounded.unite(a), Interval::Unbounded);
    // exact values
    assert_eq!(
        a.intersect(b),
        Interval::Between(dt(2020, Month::Mar, 1), dt(2020, Month::Jun, 30))
    );
    assert_eq!(
        a.unite(b),
        Interval::Between(dt(2020, Month::Jan, 1), dt(2020, Month::Sep, 30))
    );
    // disjoint ranges normalize to Empty
    let e = Interval::Between(dt(2021, Month::Jan, 1), dt(2021, Month::Dec, 31));
    assert_eq!(a.intersect(e), Interval::Empty);
}

#[test]
fn interval_between_round_trip() {
    let b = Between(dt(2020, Month::Jan, 1), dt(2020, Month::Jun, 30));
    assert_eq!(
        b.into_interval(),
        Interval::Between(dt(2020, Month::Jan, 1), dt(2020, Month::Jun, 30))
    );
    assert_eq!(b.into_interval().into_between(), b);
    assert_eq!(
        Interval::After(dt(2020, Month::Jan, 1)).into_between().into_interval(),
        Interval::After(dt(2020, Month::Jan, 1))
    );
    assert_eq!(
        Interval::Before(dt(2020, Month::Jun, 30)).into_between().into_interval(),
        Interval::Before(dt(2020, Month::Jun, 30))
    );
    assert_eq!(Interval::Unbounded.into_between().into_interval(), Interval::Unbounded);
    assert_eq!(Interval::Empty.into_between().into_interval(), Interval::Empty);
}

#[test]
fn bounded_periods() {
    let mut errs = Record::new();
    let reference = dt(2021, Month::Feb, 1);
    let b = Interval::After(dt(2020, Month::Jan, 1)).bounded(&mut errs, loc(), reference);
    assert_eq!(b, Some(Between(dt(2020, Month::Jan, 1), reference)));
    assert_eq!(errs.len(), 0);
    let e = Interval::Empty.bounded(&mut errs, loc(), reference);
    assert!(e.is_none());
    assert!(errs.render().contains("Period cannot be empty"));
    let u = Interval::Unbounded.bounded(&mut errs, loc(), reference);
    assert!(u.is_none());
    assert!(errs.render().contains("Period cannot be"));
    let inv = Interval::Between(dt(2021, Month::Jun, 1), dt(2021, Month::Jan, 1))
        .bounded(&mut errs, loc(), reference);
    assert!(inv.is_none());
    assert!(errs.render().contains("accidentally empty"));
}
