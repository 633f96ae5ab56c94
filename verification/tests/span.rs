use billig::date::{Date, Month};
use billig::entry::{Amount, Category, Duration, Entry, Span, Tag, Window};
use billig::period::Between;

fn dt(y: usize, m: Month, d: usize) -> Date {
    Date::from(y, m, d).unwrap()
}

fn check(date: Date, span: Span, start: Date, end: Date) {
    assert_eq!(span.period(date), Between(start, end));
}

#[test]
fn day_jumps() {
    check(
        dt(2020, Month::May, 8),
        Span::from(Duration::Day, Window::Current, 3),
        dt(2020, Month::May, 8),
        dt(2020, Month::May, 10),
    );
    check(
        dt(2020, Month::Sep, 1),
        Span::from(Duration::Day, Window::Precedent, 5),
        dt(2020, Month::Aug, 27),
        dt(2020, Month::Aug, 31),
    );
    check(
        dt(2020, Month::Dec, 30),
        Span::from(Duration::Day, Window::Anterior, 2),
        dt(2020, Month::Dec, 29),
        dt(2020, Month::Dec, 30),
    );
    check(
        dt(2020, Month::Jan, 1),
        Span::from(Duration::Day, Window::Posterior, 50),
        dt(2020, Month::Jan, 1),
        dt(2020, Month::Feb, 19),
    );
    check(
        dt(2020, Month::Feb, 28),
        Span::from(Duration::Day, Window::Successor, 3),
        dt(2020, Month::Feb, 29),
        dt(2020, Month::Mar, 2),
    );
}

#[test]
fn week_jumps() {
    check(
        dt(2020, Month::Mar, 12),
        Span::from(Duration::Week, Window::Current, 2),
        dt(2020, Month::Mar, 9),
        dt(2020, Month::Mar, 22),
    );
    check(
        dt(2020, Month::Sep, 8),
        Span::from(Duration::Week, Window::Precedent, 3),
        dt(2020, Month::Aug, 17),
        dt(2020, Month::Sep, 6),
    );
    check(
        dt(2020, Month::Aug, 9),
        Span::from(Duration::Week, Window::Successor, 6),
        dt(2020, Month::Aug, 10),
        dt(2020, Month::Sep, 20),
    );
    check(
        dt(2020, Month::May, 23),
        Span::from(Duration::Week, Window::Anterior, 4),
        dt(2020, Month::Apr, 26),
        dt(2020, Month::May, 23),
    );
    check(
        dt(2020, Month::Dec, 30),
        Span::from(Duration::Week, Window::Posterior, 1),
        dt(2020, Month::Dec, 30),
        dt(2021, Month::Jan, 5),
    );
}

#[test]
fn month_jumps() {
    check(
        dt(2020, Month::May, 31),
        Span::from(Duration::Month, Window::Current, 5),
        dt(2020, Month::May, 1),
        dt(2020, Month::Sep, 30),
    );
    check(
        dt(2020, Month::Feb, 29),
        Span::from(Duration::Month, Window::Current, 2),
        dt(2020, Month::Feb, 1),
        dt(2020, Month::Mar, 31),
    );
    check(
        dt(2020, Month::Feb, 29),
        Span::from(Duration::Month, Window::Posterior, 12),
        dt(2020, Month::Feb, 29),
        dt(2021, Month::Feb, 28),
    );
    check(
        dt(2020, Month::Feb, 28),
        Span::from(Duration::Month, Window::Posterior, 1),
        dt(2020, Month::Feb, 28),
        dt(2020, Month::Mar, 27),
    );
    check(
        dt(2020, Month::Aug, 15),
        Span::from(Duration::Month, Window::Successor, 3),
        dt(2020, Month::Sep, 1),
        dt(2020, Month::Nov, 30),
    );
    check(
        dt(2020, Month::Jan, 31),
        Span::from(Duration::Month, Window::Successor, 4),
        dt(2020, Month::Feb, 1),
        dt(2020, Month::May, 31),
    );
    check(
        dt(2020, Month::Nov, 30),
        Span::from(Duration::Month, Window::Precedent, 4),
        dt(2020, Month::Jul, 1),
        dt(2020, Month::Oct, 31),
    );
    check(
        dt(2020, Month::Dec, 1),
        Span::from(Duration::Month, Window::Precedent, 2),
        dt(2020, Month::Oct, 1),
        dt(2020, Month::Nov, 30),
    );
    check(
        dt(2020, Month::Mar, 12),
        Span::from(Duration::Month, Window::Anterior, 24),
        dt(2018, Month::Mar, 13),
        dt(2020, Month::Mar, 12),
    );
    check(
        dt(2020, Month::Mar, 1),
        Span::from(Duration::Month, Window::Anterior, 2),
        dt(2020, Month::Jan, 2),
        dt(2020, Month::Mar, 1),
    );
    check(
        dt(2020, Month::Feb, 29),
        Span::from(Duration::Month, Window::Anterior, 1),
        dt(2020, Month::Jan, 30),
        dt(2020, Month::Feb, 29),
    );
}

#[test]
fn year_jumps() {
    check(
        dt(2020, Month::Jan, 15),
        Span::from(Duration::Year, Window::Current, 5),
        dt(2020, Month::Jan, 1),
        dt(2024, Month::Dec, 31),
    );
    check(
        dt(2020, Month::Feb, 29),
        Span::from(Duration::Year, Window::Posterior, 2),
        dt(2020, Month::Feb, 29),
        dt(2022, Month::Feb, 28),
    );
    check(
        dt(2020, Month::Mar, 1),
        Span::from(Duration::Year, Window::Posterior, 1),
        dt(2020, Month::Mar, 1),
        dt(2021, Month::Feb, 28),
    );
    check(
        dt(2018, Month::Oct, 30),
        Span::from(Duration::Year, Window::Successor, 3),
        dt(2019, Month::Jan, 1),
        dt(2021, Month::Dec, 31),
    );
    check(
        dt(2020, Month::Dec, 31),
        Span::from(Duration::Year, Window::Precedent, 10),
        dt(2010, Month::Jan, 1),
        dt(2019, Month::Dec, 31),
    );
    check(
        dt(2020, Month::Dec, 31),
        Span::from(Duration::Year, Window::Anterior, 10),
        dt(2011, Month::Jan, 1),
        dt(2020, Month::Dec, 31),
    );
}

fn check_fields(date: Date, span: Span, start: Date, end: Date) {
    let Between(a, b) = span.period(date);
    assert_eq!((a, b), (start, end));
}

#[test]
fn entry_day_jumps() {
    check_fields(
        dt(2020, Month::May, 8),
        Span { duration: Duration::Day, window: Window::Current, count: 3 },
        dt(2020, Month::May, 8),
        dt(2020, Month::May, 10),
    );
    check_fields(
        dt(2020, Month::Sep, 1),
        Span { duration: Duration::Day, window: Window::Precedent, count: 5 },
        dt(2020, Month::Aug, 27),
        dt(2020, Month::Aug, 31),
    );
    check_fields(
        dt(2020, Month::Dec, 30),
        Span { duration: Duration::Day, window: Window::Anterior, count: 2 },
        dt(2020, Month::Dec, 29),
        dt(2020, Month::Dec, 30),
    );
    check_fields(
        dt(2020, Month::Jan, 1),
        Span { duration: Duration::Day, window: Window::Posterior, count: 50 },
        dt(2020, Month::Jan, 1),
        dt(2020, Month::Feb, 19),
    );
    check_fields(
        dt(2020, Month::Feb, 28),
        Span { duration: Duration::Day, window: Window::Successor, count: 3 },
        dt(2020, Month::Feb, 29),
        dt(2020, Month::Mar, 2),
    );
}

#[test]
fn entry_week_jumps() {
    check_fields(
        dt(2020, Month::Mar, 12),
        Span { duration: Duration::Week, window: Window::Current, count: 2 },
        dt(2020, Month::Mar, 9),
        dt(2020, Month::Mar, 22),
    );
    check_fields(
        dt(2020, Month::Sep, 8),
        Span { duration: Duration::Week, window: Window::Precedent, count: 3 },
        dt(2020, Month::Aug, 17),
        dt(2020, Month::Sep, 6),
    );
    check_fields(
        dt(2020, Month::Aug, 9),
        Span { duration: Duration::Week, window: Window::Successor, count: 6 },
        dt(2020, Month::Aug, 10),
        dt(2020, Month::Sep, 20),
    );
    check_fields(
        dt(2020, Month::May, 23),
        Span { duration: Duration::Week, window: Window::Anterior, count: 4 },
        dt(2020, Month::Apr, 26),
        dt(2020, Month::May, 23),
    );
    check_fields(
        dt(2020, Month::Dec, 30),
        Span { duration: Duration::Week, window: Window::Posterior, count: 1 },
        dt(2020, Month::Dec, 30),
        dt(2021, Month::Jan, 5),
    );
}

#[test]
fn entry_month_jumps() {
    check_fields(
        dt(2020, Month::May, 31),
        Span { duration: Duration::Month, window: Window::Current, count: 5 },
        dt(2020, Month::May, 1),
        dt(2020, Month::Sep, 30),
    );
    check_fields(
        dt(2020, Month::Feb, 29),
        Span { duration: Duration::Month, window: Window::Posterior, count: 12 },
        dt(2020, Month::Feb, 29),
        dt(2021, Month::Feb, 28),
    );
    check_fields(
        dt(2020, Month::Feb, 28),
        Span { duration: Duration::Month, window: Window::Posterior, count: 1 },
        dt(2020, Month::Feb, 28),
        dt(2020, Month::Mar, 27),
    );
    check_fields(
        dt(2020, Month::Mar, 12),
        Span { duration: Duration::Month, window: Window::Anterior, count: 24 },
        dt(2018, Month::Mar, 13),
        dt(2020, Month::Mar, 12),
    );
    check_fields(
        dt(2020, Month::Jan, 15),
        Span { duration: Duration::Month, window: Window::Current, count: 13 },
        dt(2020, Month::Jan, 1),
        dt(2021, Month::Jan, 31),
    );
}

#[test]
fn entry_year_jumps() {
    check_fields(
        dt(2020, Month::Jan, 15),
        Span { duration: Duration::Year, window: Window::Current, count: 5 },
        dt(2020, Month::Jan, 1),
        dt(2024, Month::Dec, 31),
    );
    check_fields(
        dt(2020, Month::Feb, 29),
        Span { duration: Duration::Year, window: Window::Posterior, count: 2 },
        dt(2020, Month::Feb, 29),
        dt(2022, Month::Feb, 28),
    );
    check_fields(
        dt(2020, Month::Mar, 1),
        Span { duration: Duration::Year, window: Window::Posterior, count: 1 },
        dt(2020, Month::Mar, 1),
        dt(2021, Month::Feb, 28),
    );
    check_fields(
        dt(2018, Month::Oct, 30),
        Span { duration: Duration::Year, window: Window::Successor, count: 3 },
        dt(2019, Month::Jan, 1),
        dt(2021, Month::Dec, 31),
    );
    check_fields(
        dt(2020, Month::Dec, 31),
        Span { duration: Duration::Year, window: Window::Precedent, count: 10 },
        dt(2010, Month::Jan, 1),
        dt(2019, Month::Dec, 31),
    );
    check_fields(
        dt(2020, Month::Dec, 31),
        Span { duration: Duration::Year, window: Window::Anterior, count: 10 },
        dt(2011, Month::Jan, 1),
        dt(2020, Month::Dec, 31),
    );
}

#[test]
fn count_categories() {
    for i in 0..Category::COUNT {
        assert!(Category::from_usize(i).is_some());
    }
    assert!(Category::from_usize(Category::COUNT).is_none());
}

fn bogus(val: isize, start: Date, end: Date) -> Entry {
    Entry::from(Amount(val), Category::Food, Between(start, end), Tag::new())
}

#[test]
fn intersections() {
    assert_eq!(
        bogus(365, dt(2021, Month::Jan, 1), dt(2021, Month::Dec, 31))
            .intersect(Between(dt(2021, Month::Feb, 1), dt(2021, Month::Feb, 15)))
            .unwrap()
            .value(),
        Amount(15)
    );
    assert_eq!(
        bogus(365, dt(2021, Month::Jan, 1), dt(2021, Month::Dec, 31))
            .intersect(Between(dt(2020, Month::Sep, 15), dt(2021, Month::Jan, 15)))
            .unwrap()
            .value(),
        Amount(15)
    );
    let entry = bogus(1763, dt(2020, Month::Mar, 13), dt(2020, Month::Sep, 27));
    let sections = vec![
        dt(2020, Month::Mar, 13),
        dt(2020, Month::Apr, 5),
        dt(2020, Month::Jun, 30),
        dt(2020, Month::Sep, 28),
    ];
    let mut sum = Amount(0);
    for w in sections.windows(2) {
        let piece = entry.clone().intersect(Between(w[0], w[1].prev())).unwrap();
        sum = sum.plus(piece.value());
    }
    assert_eq!(entry.value(), sum);
}

#[test]
fn amount_text() {
    assert_eq!(Amount(50000).text(), "500.00\u{20ac}");
    assert_eq!(Amount(-1234).text(), "-12.34\u{20ac}");
    assert_eq!(Amount(7).text(), "0.07\u{20ac}");
    assert_eq!(Amount(0).text(), "0.00\u{20ac}");
}

#[test]
fn category_signs() {
    assert!(Category::Salary.sign());
    assert!(!Category::Home.sign());
    assert_eq!(Duration::Month.text_frequency(), "Monthly");
}
