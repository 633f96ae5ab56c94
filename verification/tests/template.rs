use billig::date::{Date, Month};
use billig::entry::{Amount, Category, Duration, Span, Window};
use billig::period::Between;
use billig::record::{Loc, Record};
use billig::record::Error;
use billig::template::{
    instanciate, AmountTemplate, AmountTemplateItem, Arg, AstItem, Instance, Once, TagTemplate,
    TagTemplateItem, Template,
};

fn dt(y: usize, m: Month, d: usize) -> Date {
    Date::from(y, m, d).unwrap()
}

fn loc(n: usize) -> Loc {
    Loc { file: 0, start: n, end: n + 1 }
}

fn rent_template() -> Template {
    let mut value = AmountTemplate::new(true);
    value.push(AmountTemplateItem::Arg(String::from("amount")));
    let mut tag = TagTemplate::new();
    tag.push(TagTemplateItem::Raw(String::from("Rent ")));
    tag.push(TagTemplateItem::Month);
    Template::new(
        vec![],
        vec![(String::from("amount"), Arg::Amount(Amount(50000)))],
        value,
        Category::Home,
        Span { duration: Duration::Month, window: Window::Current, count: 1 },
        tag,
        loc(1),
    )
}

#[test]
fn rent_scenario() {
    let mut errs = Record::new();
    let ast = vec![
        AstItem::Template(String::from("rent"), rent_template()),
        AstItem::Instance(
            dt(2021, Month::Mar, 5),
            Instance::new(String::from("rent"), vec![], vec![], loc(2)),
        ),
    ];
    let entries = instanciate(&mut errs, ast);
    assert_eq!(errs.count_errors(), 0);
    assert_eq!(errs.count_warnings(), 0);
    assert_eq!(entries.len(), 1);
    let e = &entries[0];
    assert_eq!(e.value(), Amount(50000));
    assert_eq!(e.category(), Category::Home);
    assert_eq!(e.period(), Between(dt(2021, Month::Mar, 1), dt(2021, Month::Mar, 31)));
    match e.tag() {
        Some(t) => assert_eq!(t.0, "Rent Mar"),
        None => panic!("expected a tag"),
    }
}

#[test]
fn undeclared_template() {
    let mut errs = Record::new();
    let ast = vec![
        AstItem::Instance(
            dt(2021, Month::Mar, 5),
            Instance::new(String::from("rentt"), vec![], vec![], loc(2)),
        ),
    ];
    let entries = instanciate(&mut errs, ast);
    assert_eq!(entries.len(), 0);
    assert_eq!(errs.count_errors(), 1);
    assert_eq!(errs.count_warnings(), 0);
    assert!(errs.is_fatal());
    assert!(errs.render().contains("Undeclared template"));
    assert!(errs.render().contains("'rentt' is not declared"));
}

fn two_positional_template() -> Template {
    let mut value = AmountTemplate::new(true);
    value.push(AmountTemplateItem::Arg(String::from("a")));
    value.push(AmountTemplateItem::Arg(String::from("b")));
    let mut tag = TagTemplate::new();
    tag.push(TagTemplateItem::Raw(String::from("pair")));
    Template::new(
        vec![String::from("a"), String::from("b")],
        vec![],
        value,
        Category::Food,
        Span { duration: Duration::Day, window: Window::Current, count: 1 },
        tag,
        loc(1),
    )
}

#[test]
fn argcount_mismatch() {
    let mut errs = Record::new();
    let ast = vec![
        AstItem::Template(String::from("pair"), two_positional_template()),
        AstItem::Instance(
            dt(2021, Month::Mar, 5),
            Instance::new(
                String::from("pair"),
                vec![Arg::Amount(Amount(100))],
                vec![],
                loc(2),
            ),
        ),
    ];
    let entries = instanciate(&mut errs, ast);
    assert_eq!(entries.len(), 0);
    assert_eq!(errs.count_errors(), 1);
    let rendered = errs.render();
    assert!(rendered.contains("Argcount mismatch"));
    assert!(rendered.contains("instanciation provides 1 arguments"));
    assert!(rendered.contains("template expects 2 arguments"));
}

#[test]
fn missing_argument() {
    let mut errs = Record::new();
    let mut value = AmountTemplate::new(true);
    value.push(AmountTemplateItem::Arg(String::from("absent")));
    let templ = Template::new(
        vec![],
        vec![],
        value,
        Category::Food,
        Span { duration: Duration::Day, window: Window::Current, count: 1 },
        TagTemplate::new(),
        loc(1),
    );
    let ast = vec![
        AstItem::Template(String::from("broken"), templ),
        AstItem::Instance(
            dt(2021, Month::Mar, 5),
            Instance::new(String::from("broken"), vec![], vec![], loc(2)),
        ),
    ];
    let entries = instanciate(&mut errs, ast);
    assert_eq!(entries.len(), 0);
    assert_eq!(errs.count_errors(), 1);
    assert!(errs.render().contains("Missing argument"));
    assert!(errs.render().contains("'absent' is not provided"));
}

#[test]
fn tag_summed_as_amount() {
    let mut errs = Record::new();
    let mut value = AmountTemplate::new(true);
    value.push(AmountTemplateItem::Arg(String::from("label")));
    let templ = Template::new(
        vec![],
        vec![(String::from("label"), Arg::Tag(String::from("text")))],
        value,
        Category::Food,
        Span { duration: Duration::Day, window: Window::Current, count: 1 },
        TagTemplate::new(),
        loc(1),
    );
    let ast = vec![
        AstItem::Template(String::from("broken"), templ),
        AstItem::Instance(
            dt(2021, Month::Mar, 5),
            Instance::new(String::from("broken"), vec![], vec![], loc(2)),
        ),
    ];
    let entries = instanciate(&mut errs, ast);
    assert_eq!(entries.len(), 0);
    assert_eq!(errs.count_errors(), 1);
    assert!(errs.render().contains("Type mismatch"));
    assert!(errs.render().contains("Cannot treat tag as a monetary value"));
}

#[test]
fn unused_argument_warns() {
    let mut errs = Record::new();
    let mut value = AmountTemplate::new(true);
    value.push(AmountTemplateItem::Cst(Amount(100)));
    let templ = Template::new(
        vec![],
        vec![],
        value,
        Category::Food,
        Span { duration: Duration::Day, window: Window::Current, count: 1 },
        TagTemplate::new(),
        loc(1),
    );
    let ast = vec![
        AstItem::Template(String::from("plain"), templ),
        AstItem::Instance(
            dt(2021, Month::Mar, 5),
            Instance::new(
                String::from("plain"),
                vec![],
                vec![(String::from("extra"), Arg::Tag(String::from("spare")))],
                loc(2),
            ),
        ),
    ];
    let entries = instanciate(&mut errs, ast);
    assert_eq!(entries.len(), 1);
    assert_eq!(errs.count_errors(), 0);
    assert_eq!(errs.count_warnings(), 1);
    assert!(!errs.is_fatal());
    assert!(errs.render().contains("Unused argument"));
    assert!(errs.render().contains("'extra' is provided but not used"));
}

#[test]
fn needless_amount_warns() {
    let mut errs = Record::new();
    let mut value = AmountTemplate::new(true);
    value.push(AmountTemplateItem::Cst(Amount(100)));
    let mut tag = TagTemplate::new();
    tag.push(TagTemplateItem::Arg(String::from("note")));
    let templ = Template::new(
        vec![],
        vec![(String::from("note"), Arg::Amount(Amount(1234)))],
        value,
        Category::Food,
        Span { duration: Duration::Day, window: Window::Current, count: 1 },
        tag,
        loc(1),
    );
    let ast = vec![
        AstItem::Template(String::from("noted"), templ),
        AstItem::Instance(
            dt(2021, Month::Mar, 5),
            Instance::new(String::from("noted"), vec![], vec![], loc(2)),
        ),
    ];
    let entries = instanciate(&mut errs, ast);
    assert_eq!(entries.len(), 1);
    assert_eq!(errs.count_warnings(), 1);
    assert!(errs.render().contains("Needless amount"));
    assert!(errs.render().contains("used only in tag field"));
    match entries[0].tag() {
        Some(t) => assert_eq!(t.0, "12.34\u{20ac}"),
        None => panic!("expected a tag"),
    }
}

#[test]
fn amount_negated_without_sign() {
    let mut errs = Record::new();
    let mut value = AmountTemplate::new(false);
    value.push(AmountTemplateItem::Cst(Amount(2000)));
    value.push(AmountTemplateItem::Cst(Amount(500)));
    let mut tag = TagTemplate::new();
    tag.push(TagTemplateItem::Raw(String::from("expense on ")));
    tag.push(TagTemplateItem::Date);
    tag.push(TagTemplateItem::Raw(String::from(", a ")));
    tag.push(TagTemplateItem::Weekday);
    let templ = Template::new(
        vec![],
        vec![],
        value,
        Category::Movement,
        Span { duration: Duration::Day, window: Window::Current, count: 1 },
        tag,
        loc(1),
    );
    let ast = vec![
        AstItem::Template(String::from("trip"), templ),
        AstItem::Instance(
            dt(2021, Month::Mar, 5),
            Instance::new(String::from("trip"), vec![], vec![], loc(2)),
        ),
    ];
    let entries = instanciate(&mut errs, ast);
    assert_eq!(entries.len(), 1);
    assert_eq!(entries[0].value(), Amount(-2500));
    match entries[0].tag() {
        Some(t) => assert_eq!(t.0, "expense on 2021-Mar-05, a Fri"),
        None => panic!("expected a tag"),
    }
}

#[test]
fn positional_binding_and_overrides() {
    let mut errs = Record::new();
    let mut value = AmountTemplate::new(true);
    value.push(AmountTemplateItem::Arg(String::from("a")));
    value.push(AmountTemplateItem::Arg(String::from("extra")));
    let mut tag = TagTemplate::new();
    tag.push(TagTemplateItem::Raw(String::from("sum")));
    let templ = Template::new(
        vec![String::from("a")],
        vec![(String::from("extra"), Arg::Amount(Amount(1)))],
        value,
        Category::Fun,
        Span { duration: Duration::Day, window: Window::Current, count: 1 },
        tag,
        loc(1),
    );
    let ast = vec![
        AstItem::Template(String::from("addup"), templ),
        AstItem::Instance(
            dt(2021, Month::Mar, 5),
            Instance::new(
                String::from("addup"),
                vec![Arg::Amount(Amount(10))],
                vec![(String::from("extra"), Arg::Amount(Amount(200)))],
                loc(2),
            ),
        ),
    ];
    let entries = instanciate(&mut errs, ast);
    assert_eq!(errs.count_errors(), 0);
    assert_eq!(entries.len(), 1);
    // the instance's named argument overrides the template default
    assert_eq!(entries[0].value(), Amount(210));
}

#[test]
fn later_template_wins() {
    let mut errs = Record::new();
    let mut v1 = AmountTemplate::new(true);
    v1.push(AmountTemplateItem::Cst(Amount(1)));
    let mut v2 = AmountTemplate::new(true);
    v2.push(AmountTemplateItem::Cst(Amount(2)));
    let t1 = Template::new(
        vec![],
        vec![],
        v1,
        Category::Food,
        Span { duration: Duration::Day, window: Window::Current, count: 1 },
        TagTemplate::new(),
        loc(1),
    );
    let t2 = Template::new(
        vec![],
        vec![],
        v2,
        Category::Food,
        Span { duration: Duration::Day, window: Window::Current, count: 1 },
        TagTemplate::new(),
        loc(3),
    );
    let ast = vec![
        AstItem::Template(String::from("meal"), t1),
        AstItem::Template(String::from("meal"), t2),
        AstItem::Instance(
            dt(2021, Month::Mar, 5),
            Instance::new(String::from("meal"), vec![], vec![], loc(4)),
        ),
    ];
    let entries = instanciate(&mut errs, ast);
    assert_eq!(entries.len(), 1);
    assert_eq!(entries[0].value(), Amount(2));
}

#[test]
fn record_rendering() {
    let mut errs = Record::new();
    let ast = vec![
        AstItem::Instance(
            dt(2021, Month::Mar, 5),
            Instance::new(String::from("ghost"), vec![], vec![], loc(2)),
        ),
    ];
    instanciate(&mut errs, ast);
    let rendered = errs.render();
    assert!(rendered.contains("--> Error"));
    assert!(rendered.contains("Fatal: "));
    assert!(rendered.contains("1 error emitted"));
}

#[test]
fn once_fields() {
    let mut errs = Record::new();
    // duplicate definition: fatal once, and never reported missing
    let mut field: Once<Amount> = Once::new("val", "42.69", loc(1));
    field.try_set(Amount(100), &mut errs);
    assert_eq!(errs.count_errors(), 0);
    field.try_set(Amount(200), &mut errs);
    assert_eq!(errs.count_errors(), 1);
    assert!(errs.render().contains("Duplicate field definition"));
    assert!(field.try_get(&mut errs).is_none());
    assert_eq!(errs.count_errors(), 1);
    // missing definition
    let missing: Once<Amount> = Once::new("span", "Week<Post> 2", loc(2));
    assert!(missing.try_get(&mut errs).is_none());
    assert_eq!(errs.count_errors(), 2);
    assert!(errs.render().contains("Missing field definition"));
    assert!(errs.render().contains("'span' may not be omitted"));
    // a field set exactly once yields its value silently
    let mut good: Once<Amount> = Once::new("val", "42.69", loc(3));
    good.try_set(Amount(7), &mut errs);
    assert_eq!(good.try_get(&mut errs), Some(Amount(7)));
    assert_eq!(errs.count_errors(), 2);
}

#[test]
fn record_truncation() {
    let mut errs = Record::new();
    for i in 0..12 {
        Error::new("boom").with_span(loc(i), "here").register(&mut errs);
    }
    // one warning drowned out by the fatal class
    Error::new("meh").nonfatal().register(&mut errs);
    let rendered = errs.render();
    assert!(rendered.contains("And 2 more."));
    assert!(rendered.contains("12 errors emitted"));
    assert!(!rendered.contains("meh"));
    assert_eq!(errs.count_errors(), 12);
    assert_eq!(errs.count_warnings(), 1);
}
