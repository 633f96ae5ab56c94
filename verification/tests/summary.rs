use billig::date::{Date, Month};
use billig::entry::{Amount, Category, Duration, Entry, Tag};
use billig::period::Between;
use billig::summary::{Calendar, Summary};

fn dt(y: usize, m: Month, d: usize) -> Date {
    Date::from(y, m, d).unwrap()
}

fn query(cal: &Calendar, date: Date) -> (usize, Between) {
    let len = cal.contents().len();
    let idx = cal.dichotomy_aux(date, 0, len);
    (idx, cal.contents()[idx].period())
}

#[test]
fn dichotomies() {
    let cal = Calendar::from_spacing(
        Between(dt(2020, Month::Jan, 1), dt(2020, Month::Dec, 31)),
        Duration::Week,
        1,
    );
    // middle
    let (_, start) = query(&cal, dt(2020, Month::Feb, 5));
    assert!(start.0 <= dt(2020, Month::Feb, 5) && dt(2020, Month::Feb, 5) <= start.1);
    let (_, start) = query(&cal, dt(2020, Month::Mar, 7));
    assert!(start.0 <= dt(2020, Month::Mar, 7) && dt(2020, Month::Mar, 7) <= start.1);
    let (_, start) = query(&cal, dt(2020, Month::Feb, 4));
    assert!(start.0 <= dt(2020, Month::Feb, 4) && dt(2020, Month::Feb, 4) <= start.1);
    let (_, start) = query(&cal, dt(2020, Month::Nov, 15));
    assert!(start.0 <= dt(2020, Month::Nov, 15) && dt(2020, Month::Nov, 15) <= start.1);
    let (_, start) = query(&cal, dt(2020, Month::Jan, 7));
    assert!(start.0 <= dt(2020, Month::Jan, 7) && dt(2020, Month::Jan, 7) <= start.1);
    // extremities
    let (idx, _) = query(&cal, dt(2020, Month::Jan, 1));
    assert_eq!(idx, 0);
    let (idx, _) = query(&cal, dt(2019, Month::Dec, 31));
    assert_eq!(idx, 0);
    let (idx, _) = query(&cal, dt(2020, Month::Dec, 31));
    assert_eq!(idx, cal.contents().len() - 1);
    let (idx, _) = query(&cal, dt(2021, Month::Jan, 1));
    assert_eq!(idx, cal.contents().len() - 1);
    // period
    let ans = cal.dichotomy(Between(dt(2019, Month::Jun, 10), dt(2019, Month::Jun, 15)));
    assert!(ans.is_none());
    let ans = cal.dichotomy(Between(dt(2021, Month::Jun, 10), dt(2021, Month::Jun, 15)));
    assert!(ans.is_none());
    let ans = cal.dichotomy(Between(dt(2019, Month::Jun, 10), dt(2021, Month::Jun, 15)));
    assert_eq!(ans.unwrap().len(), cal.contents().len());
    let ans = cal.dichotomy(Between(dt(2020, Month::Jan, 20), dt(2020, Month::Mar, 18))).unwrap();
    assert!(ans[0].period().0 <= dt(2020, Month::Jan, 20));
    assert!(ans[0].period().1 >= dt(2020, Month::Jan, 20));
    assert!(ans[ans.len() - 1].period().0 <= dt(2020, Month::Mar, 18));
    assert!(ans[ans.len() - 1].period().1 >= dt(2020, Month::Mar, 18));
}

#[test]
fn calendar_structure() {
    let cal = Calendar::from_spacing(
        Between(dt(2020, Month::Jan, 1), dt(2021, Month::Jan, 1)),
        Duration::Month,
        1,
    );
    let buckets = cal.contents();
    assert_eq!(buckets.len(), 12);
    assert_eq!(buckets[0].period(), Between(dt(2020, Month::Jan, 1), dt(2020, Month::Jan, 31)));
    assert_eq!(buckets[1].period(), Between(dt(2020, Month::Feb, 1), dt(2020, Month::Feb, 29)));
    assert_eq!(buckets[11].period(), Between(dt(2020, Month::Dec, 1), dt(2020, Month::Dec, 31)));
    // consecutive buckets are contiguous and non-overlapping
    for i in 0..buckets.len() - 1 {
        assert_eq!(buckets[i].period().1.next(), buckets[i + 1].period().0);
    }
    // each bucket's own start date finds that bucket
    for i in 0..buckets.len() {
        assert_eq!(cal.dichotomy_aux(buckets[i].period().0, 0, buckets.len()), i);
    }
}

#[test]
fn from_iter_boundaries() {
    let splits = vec![
        dt(2020, Month::Jan, 1),
        dt(2020, Month::Jan, 11),
        dt(2020, Month::Jan, 21),
        dt(2020, Month::Feb, 1),
    ];
    let cal = Calendar::from_iter(&splits);
    let buckets = cal.contents();
    assert_eq!(buckets.len(), 3);
    assert_eq!(buckets[0].period(), Between(dt(2020, Month::Jan, 1), dt(2020, Month::Jan, 10)));
    assert_eq!(buckets[1].period(), Between(dt(2020, Month::Jan, 11), dt(2020, Month::Jan, 20)));
    assert_eq!(buckets[2].period(), Between(dt(2020, Month::Jan, 21), dt(2020, Month::Jan, 31)));
}

#[test]
fn from_step_increments() {
    let cal = Calendar::from_step(dt(2020, Month::Jan, 1), |d: Date| {
        if d < dt(2020, Month::Jan, 31) {
            Some(d.jump_day(10))
        } else {
            None
        }
    });
    let buckets = cal.contents();
    assert_eq!(buckets.len(), 3);
    assert_eq!(buckets[0].period(), Between(dt(2020, Month::Jan, 1), dt(2020, Month::Jan, 10)));
    assert_eq!(buckets[2].period(), Between(dt(2020, Month::Jan, 21), dt(2020, Month::Jan, 30)));
}

#[test]
fn register_accumulates() {
    let mut cal = Calendar::from_spacing(
        Between(dt(2021, Month::Jan, 1), dt(2022, Month::Jan, 1)),
        Duration::Month,
        1,
    );
    // 365 cents spread over the year: one cent per day
    let rent = Entry::from(
        Amount(365),
        Category::Home,
        Between(dt(2021, Month::Jan, 1), dt(2021, Month::Dec, 31)),
        Tag(String::from("rent")),
    );
    // one concentrated purchase inside March
    let buy = Entry::from(
        Amount(500),
        Category::Tech,
        Between(dt(2021, Month::Mar, 10), dt(2021, Month::Mar, 11)),
        Tag(String::from("gadget")),
    );
    let entries = vec![rent, buy];
    cal.register(&entries);
    let buckets = cal.contents();
    assert_eq!(buckets.len(), 12);
    assert_eq!(buckets[0].query(Category::Home), Amount(31));
    assert_eq!(buckets[1].query(Category::Home), Amount(28));
    assert_eq!(buckets[2].query(Category::Home), Amount(31));
    assert_eq!(buckets[2].query(Category::Tech), Amount(500));
    assert_eq!(buckets[2].total(), Amount(531));
    assert_eq!(buckets[3].query(Category::Tech), Amount(0));
    // the prorated pieces of the year-long entry sum back to its value
    let mut total = 0isize;
    for b in buckets {
        total += b.query(Category::Home).0;
    }
    assert_eq!(total, 365);
}

#[test]
fn summary_blank() {
    let s = Summary::from_date(dt(2021, Month::Mar, 5));
    assert_eq!(s.total(), Amount(0));
    assert_eq!(s.amounts().len(), 8);
    for a in s.amounts() {
        assert_eq!(*a, Amount(0));
    }
    assert_eq!(s.period(), Between(dt(2021, Month::Mar, 5), dt(2021, Month::Mar, 5)));
}

#[test]
fn prorate_partition() {
    // any partition of the period into contiguous pieces sums back to
    // the whole value, even when single pieces are rounded down
    let entry = Entry::from(
        Amount(1000),
        Category::Food,
        Between(dt(2021, Month::Jan, 1), dt(2021, Month::Jan, 31)),
        Tag::new(),
    );
    let cuts = vec![
        dt(2021, Month::Jan, 1),
        dt(2021, Month::Jan, 4),
        dt(2021, Month::Jan, 17),
        dt(2021, Month::Jan, 18),
        dt(2021, Month::Feb, 1),
    ];
    let mut sum = 0isize;
    for w in cuts.windows(2) {
        let piece = entry.intersect_loss(Between(w[0], w[1].prev())).unwrap();
        sum += piece.value().0;
    }
    assert_eq!(sum, 1000);
    // no overlap is a legitimate empty result, not an error
    assert!(entry
        .intersect_loss(Between(dt(2021, Month::Feb, 1), dt(2021, Month::Feb, 28)))
        .is_none());
}
