use billig::date::{is_leap, Date, DateError, Month, Weekday};

fn dt(y: usize, m: Month, d: usize) -> Date {
    Date::from(y, m, d).unwrap()
}

fn ok(y: usize, m: Month, d: usize) {
    let date = Date::from(y, m, d).unwrap();
    assert_eq!(date.year() as usize, y);
    assert_eq!(date.month(), m);
    assert_eq!(date.day() as usize, d);
}

fn short(y: usize, m: Month, d: usize) {
    assert_eq!(Date::from(y, m, d), Err(DateError::MonthTooShort(m, d)));
}

fn nbiss(y: usize, m: Month, d: usize) {
    assert_eq!(Date::from(y, m, d), Err(DateError::NotBissextile(y)));
}

fn invalid(y: usize, m: Month, d: usize) {
    assert_eq!(Date::from(y, m, d), Err(DateError::InvalidDay(d)));
}

fn day(d: Date, w: Weekday) {
    assert_eq!(d.weekday(), w);
}

#[test]
fn bissextile_check() {
    assert!(is_leap(2004));
    assert!(!is_leap(2100));
    assert!(is_leap(2000));
    assert!(!is_leap(2001));
    assert!(!is_leap(2010));
    assert!(is_leap(2012));
}

#[test]
fn long_months() {
    ok(2020, Month::Jan, 31);
    ok(2020, Month::Mar, 31);
    short(2020, Month::Apr, 31);
    ok(2020, Month::May, 31);
    short(2020, Month::Jun, 31);
    ok(2020, Month::Jul, 31);
    ok(2020, Month::Aug, 31);
    short(2020, Month::Sep, 31);
    ok(2020, Month::Oct, 31);
    short(2020, Month::Nov, 31);
    ok(2020, Month::Dec, 31);
}

#[test]
fn normal_days() {
    invalid(2020, Month::Dec, 45);
    invalid(2020, Month::Jan, 32);
    invalid(2020, Month::Jan, 0);
    ok(2020, Month::Mar, 20);
    ok(2020, Month::Apr, 10);
}

#[test]
fn february() {
    short(2020, Month::Feb, 31);
    short(2020, Month::Feb, 30);
    ok(2020, Month::Feb, 29);
    ok(2020, Month::Feb, 28);
    short(2021, Month::Feb, 31);
    short(2021, Month::Feb, 30);
    nbiss(2021, Month::Feb, 29);
    ok(2021, Month::Feb, 28);
}

#[test]
fn weekday_references() {
    // across a week
    day(dt(2000, Month::Jan, 1), Weekday::Sat);
    day(dt(2000, Month::Jan, 2), Weekday::Sun);
    day(dt(2000, Month::Jan, 3), Weekday::Mon);
    day(dt(2000, Month::Jan, 4), Weekday::Tue);
    day(dt(2000, Month::Jan, 5), Weekday::Wed);
    day(dt(2000, Month::Jan, 6), Weekday::Thu);
    day(dt(2000, Month::Jan, 7), Weekday::Fri);
    day(dt(2000, Month::Jan, 8), Weekday::Sat);
    // across months
    day(dt(2000, Month::Feb, 1), Weekday::Tue);
    day(dt(2000, Month::Mar, 1), Weekday::Wed);
    day(dt(2000, Month::Apr, 1), Weekday::Sat);
    day(dt(2000, Month::May, 1), Weekday::Mon);
    day(dt(2000, Month::Jun, 1), Weekday::Thu);
    day(dt(2000, Month::Jul, 1), Weekday::Sat);
    day(dt(2000, Month::Aug, 1), Weekday::Tue);
    day(dt(2000, Month::Sep, 1), Weekday::Fri);
    day(dt(2000, Month::Oct, 1), Weekday::Sun);
    day(dt(2000, Month::Nov, 1), Weekday::Wed);
    day(dt(2000, Month::Dec, 1), Weekday::Fri);
    // across years
    day(dt(2000, Month::Dec, 31), Weekday::Sun);
    day(dt(2001, Month::Dec, 31), Weekday::Mon);
    day(dt(2002, Month::Dec, 31), Weekday::Tue);
    day(dt(2003, Month::Dec, 31), Weekday::Wed);
    day(dt(2004, Month::Dec, 31), Weekday::Fri);
    day(dt(2005, Month::Dec, 31), Weekday::Sat);
    day(dt(2006, Month::Dec, 31), Weekday::Sun);
    day(dt(2007, Month::Dec, 31), Weekday::Mon);
    day(dt(2008, Month::Dec, 31), Weekday::Wed);
    day(dt(2009, Month::Dec, 31), Weekday::Thu);
    day(dt(2010, Month::Dec, 31), Weekday::Fri);
    // across centuries
    day(dt(2000, Month::Jul, 14), Weekday::Fri);
    day(dt(2100, Month::Jul, 14), Weekday::Wed);
    day(dt(2200, Month::Jul, 14), Weekday::Mon);
    day(dt(2300, Month::Jul, 14), Weekday::Sat);
    day(dt(2400, Month::Jul, 14), Weekday::Fri);
    day(dt(2500, Month::Jul, 14), Weekday::Wed);
}

#[test]
fn weekday_consistent() {
    let mut d = Date::from(2000, Month::Jan, 1).unwrap();
    let end = Date::from(3000, Month::Dec, 31).unwrap();
    while d < end {
        let ds = d.next();
        let w = d.weekday().next();
        let ws = ds.weekday();
        if w != ws {
            panic!(
                "date {}, successor {}, expected {} == {}",
                d.text(),
                ds.text(),
                w.name(),
                ws.name()
            );
        }
        d = ds;
    }
}

#[test]
fn index_consistent() {
    let mut d = Date::from(2000, Month::Jan, 1).unwrap();
    let end = Date::from(3000, Month::Dec, 31).unwrap();
    while d < end {
        let ds = d.next();
        let n = d.index() + 1;
        let ns = ds.index();
        if n != ns {
            panic!(
                "date {}, successor {}, expected {} == {}",
                d.text(),
                ds.text(),
                n,
                ns
            );
        }
        d = ds;
    }
}

fn jday(d1: Date, d2: Date) {
    assert_eq!(d1.jump_day(1), d2);
    assert_eq!(d2.jump_day(-1), d1);
}

#[test]
fn jump_day() {
    jday(dt(2020, Month::Jan, 1), dt(2020, Month::Jan, 2));
    jday(dt(2020, Month::Jan, 15), dt(2020, Month::Jan, 16));
    jday(dt(2020, Month::Jan, 30), dt(2020, Month::Jan, 31));
    jday(dt(2020, Month::Jan, 31), dt(2020, Month::Feb, 1));
    jday(dt(2020, Month::Feb, 28), dt(2020, Month::Feb, 29));
    jday(dt(2021, Month::Feb, 28), dt(2021, Month::Mar, 1));
    jday(dt(2020, Month::Apr, 30), dt(2020, Month::May, 1));
    jday(dt(2020, Month::Dec, 30), dt(2020, Month::Dec, 31));
    jday(dt(2020, Month::Dec, 31), dt(2021, Month::Jan, 1));
}

#[test]
fn big_jump_day() {
    assert_eq!(dt(2000, Month::Jan, 1).jump_day(365242), dt(2999, Month::Dec, 31));
}

fn jmonth_both(d1: Date, n: isize, d2: Date) {
    assert_eq!(d1.jump_month(n), d2);
    assert_eq!(d2.jump_month(-n), d1);
}

#[test]
fn jump_month() {
    jmonth_both(dt(2020, Month::Jan, 1), 2, dt(2020, Month::Mar, 1));
    jmonth_both(dt(2020, Month::Dec, 1), 1, dt(2021, Month::Jan, 1));
    jmonth_both(dt(2020, Month::Dec, 30), 1, dt(2021, Month::Jan, 30));
    assert_eq!(dt(2020, Month::Mar, 31).jump_month(1), dt(2020, Month::Apr, 30));
    assert_eq!(dt(2019, Month::Dec, 31).jump_month(2), dt(2020, Month::Feb, 29));
    assert_eq!(dt(2021, Month::Jan, 31).jump_month(1), dt(2021, Month::Feb, 28));
    assert_eq!(dt(2021, Month::Mar, 1).jump_month(-1), dt(2021, Month::Feb, 1));
    assert_eq!(dt(2021, Month::Mar, 28).jump_month(-1), dt(2021, Month::Feb, 28));
    jmonth_both(dt(2020, Month::Jan, 15), 25, dt(2022, Month::Feb, 15));
}

#[test]
fn jump_year() {
    assert_eq!(dt(2020, Month::Jan, 1).jump_year(1), dt(2021, Month::Jan, 1));
    assert_eq!(dt(2021, Month::Jan, 1).jump_year(-1), dt(2020, Month::Jan, 1));
    assert_eq!(dt(2020, Month::Feb, 28).jump_year(5), dt(2025, Month::Feb, 28));
    assert_eq!(dt(2025, Month::Feb, 28).jump_year(-5), dt(2020, Month::Feb, 28));
    assert_eq!(dt(2020, Month::Feb, 29).jump_year(5), dt(2025, Month::Feb, 28));
    assert_eq!(dt(2020, Month::Feb, 29).jump_year(-1), dt(2019, Month::Feb, 28));
}

#[test]
fn time_boundaries() {
    assert_eq!(dt(2020, Month::Mar, 26).start_of_month(), dt(2020, Month::Mar, 1));
    assert_eq!(dt(2020, Month::Feb, 12).end_of_month(), dt(2020, Month::Feb, 29));
    assert_eq!(dt(2020, Month::Dec, 31).start_of_year(), dt(2020, Month::Jan, 1));
    assert_eq!(dt(2020, Month::Dec, 5).end_of_year(), dt(2020, Month::Dec, 31));
    for i in 1..15 {
        day(dt(2020, Month::Jan, i).start_of_week(), Weekday::Mon);
        day(dt(2020, Month::Jan, i).end_of_week(), Weekday::Sun);
    }
    day(dt(2000, Month::Jan, 5), Weekday::Wed);
    assert_eq!(dt(2000, Month::Jan, 5).start_of_week(), dt(2000, Month::Jan, 3));
    assert_eq!(dt(2000, Month::Jan, 5).end_of_week(), dt(2000, Month::Jan, 9));
}

#[test]
fn date_text() {
    assert_eq!(dt(2021, Month::Mar, 5).text(), "2021-Mar-05");
    assert_eq!(dt(2020, Month::Dec, 31).text(), "2020-Dec-31");
}

#[test]
fn fix_hints() {
    assert_eq!(
        DateError::UnsupportedYear(12000).fix_hint(),
        "year should be between 1000 and 9999 inclusive"
    );
    assert_eq!(
        DateError::NotBissextile(2021).fix_hint(),
        "did you mean 2021-Feb-28 or 2021-Mar-01 ?"
    );
    assert_eq!(
        DateError::MonthTooShort(Month::Apr, 31).fix_hint(),
        "Apr is only 30 days long"
    );
    assert_eq!(
        DateError::MonthTooShort(Month::Feb, 30).fix_hint(),
        "Feb is only 29 days long"
    );
    assert_eq!(DateError::InvalidDay(45).fix_hint(), "45 is not in the range 1 ..= 31");
}

#[test]
fn month_names() {
    assert_eq!(Month::from("Jan"), Month::Jan);
    assert_eq!(Month::from("Sep"), Month::Sep);
    assert_eq!(Month::Jan.next(), Month::Feb);
    assert_eq!(Month::Dec.next(), Month::Jan);
    assert_eq!(Month::Jan.prev(), Month::Dec);
    assert_eq!(Weekday::Sun.next(), Weekday::Mon);
    assert_eq!(Weekday::Mon.prev(), Weekday::Sun);
    assert_eq!(Month::Feb.count(2020), 29);
    assert_eq!(Month::Feb.count(2021), 28);
    assert_eq!(Month::Nov.count(2021), 30);
}

#[test]
fn cap_days() {
    assert_eq!(dt(2020, Month::Mar, 28).cap_day(29), dt(2020, Month::Mar, 28));
    assert_eq!(dt(2020, Month::Mar, 31).cap_day(29), dt(2020, Month::Mar, 28));
    assert_eq!(dt(2020, Month::Mar, 15).cap_day(1), dt(2020, Month::Feb, 29));
}
