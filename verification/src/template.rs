//! Template instantiation: binding instance arguments against template
//! parameters, expanding amount and tag templates with minimal type
//! checking, and emitting structured, located diagnostics.

use crate::date::{date_chars, date_index, date_wf, month_chars, weekday_chars, weekday_num, Date, DateV};
use crate::entry::{
    amount_chars, entry_wf, span_fits, span_period_v, Amount, Category, Entry, EntryV, Span, Tag,
};
use crate::fmtnum::{dec_chars, usize_string};
use crate::record::{Error, ErrorV, ItemV, Loc, Record};
use vstd::prelude::*;

verus! {

/// A single argument to a template or an instantiation.
#[derive(Debug, Clone, PartialEq)]
pub enum Arg {
    Amount(Amount),
    Tag(String),
}

/// Mathematical model of an argument.
pub enum ArgV {
    Amount(int),
    Tag(Seq<char>),
}

impl View for Arg {
    type V = ArgV;

    open spec fn view(&self) -> ArgV {
        match self {
            Arg::Amount(a) => ArgV::Amount(a.0 as int),
            Arg::Tag(s) => ArgV::Tag(s@),
        }
    }
}

/// An amount argument leaves room for negation.
pub open spec fn arg_wf(a: ArgV) -> bool {
    match a {
        ArgV::Amount(v) => v > isize::MIN,
        ArgV::Tag(_) => true,
    }
}

/// Possible contents of a tag field expansion.
#[derive(Debug, Clone, PartialEq)]
pub enum TagTemplateItem {
    /// current day number
    Day,
    /// current month name
    Month,
    /// current year number
    Year,
    /// YYYY-Mmm-DD
    Date,
    /// name of day of week
    Weekday,
    /// a string literal
    Raw(String),
    /// the name of an argument
    Arg(String),
}

/// Mathematical model of a tag template item.
pub enum TagItemV {
    Day,
    Month,
    Year,
    Date,
    Weekday,
    Raw(Seq<char>),
    Arg(Seq<char>),
}

impl View for TagTemplateItem {
    type V = TagItemV;

    open spec fn view(&self) -> TagItemV {
        match self {
            TagTemplateItem::Day => TagItemV::Day,
            TagTemplateItem::Month => TagItemV::Month,
            TagTemplateItem::Year => TagItemV::Year,
            TagTemplateItem::Date => TagItemV::Date,
            TagTemplateItem::Weekday => TagItemV::Weekday,
            TagTemplateItem::Raw(s) => TagItemV::Raw(s@),
            TagTemplateItem::Arg(s) => TagItemV::Arg(s@),
        }
    }
}

/// Describes a field that expands to a tag: a concatenation.
#[derive(Debug, Clone, PartialEq)]
pub struct TagTemplate(pub Vec<TagTemplateItem>);

impl View for TagTemplate {
    type V = Seq<TagItemV>;

    open spec fn view(&self) -> Seq<TagItemV> {
        self.0@.map_values(|i: TagTemplateItem| i@)
    }
}

impl TagTemplate {
    /// An empty concatenation.
    pub fn new() -> (r: TagTemplate)
        ensures
            r@ == Seq::<TagItemV>::empty(),
    {
        let r = TagTemplate(Vec::new());
        proof {
            assert(r@ =~= Seq::<TagItemV>::empty());
        }
        r
    }

    /// Add an item to the tag concatenation.
    pub fn push(&mut self, item: TagTemplateItem)
        ensures
            final(self)@ == old(self)@.push(item@),
    {
        self.0.push(item);
        proof {
            assert(self@ =~= old(self)@.push(self.0@.last()@));
        }
    }
}

/// Possible contents of an amount field expansion.
#[derive(Debug, Clone, PartialEq)]
pub enum AmountTemplateItem {
    /// a numeric constant
    Cst(Amount),
    /// the name of an argument
    Arg(String),
}

/// Mathematical model of an amount template item.
pub enum AmountItemV {
    Cst(int),
    Arg(Seq<char>),
}

impl View for AmountTemplateItem {
    type V = AmountItemV;

    open spec fn view(&self) -> AmountItemV {
        match self {
            AmountTemplateItem::Cst(a) => AmountItemV::Cst(a.0 as int),
            AmountTemplateItem::Arg(s) => AmountItemV::Arg(s@),
        }
    }
}

/// Describes a field that expands to an amount: a summation, negated
/// when the sign flag is unset.
#[derive(Debug, Clone, PartialEq)]
pub struct AmountTemplate {
    /// if unset, take the opposite of the sum
    pub sign: bool,
    pub sum: Vec<AmountTemplateItem>,
}

/// Mathematical model of an amount template.
pub struct AmountTemplateV {
    pub sign: bool,
    pub sum: Seq<AmountItemV>,
}

impl View for AmountTemplate {
    type V = AmountTemplateV;

    open spec fn view(&self) -> AmountTemplateV {
        AmountTemplateV {
            sign: self.sign,
            sum: self.sum@.map_values(|i: AmountTemplateItem| i@),
        }
    }
}

impl AmountTemplate {
    /// An empty summation with the given sign.
    pub fn new(sign: bool) -> (r: AmountTemplate)
        ensures
            r@.sign == sign,
            r@.sum == Seq::<AmountItemV>::empty(),
    {
        let r = AmountTemplate { sign, sum: Vec::new() };
        proof {
            assert(r@.sum =~= Seq::<AmountItemV>::empty());
        }
        r
    }

    /// Add an item to the summation.
    pub fn push(&mut self, item: AmountTemplateItem)
        ensures
            final(self)@.sign == old(self)@.sign,
            final(self)@.sum == old(self)@.sum.push(item@),
    {
        self.sum.push(item);
        proof {
            assert(self@.sum =~= old(self)@.sum.push(self.sum@.last()@));
        }
    }
}

/// Parameters to a template expansion: the name of the template, the
/// actual arguments, and where the instantiation stands in the source.
#[derive(Debug, Clone, PartialEq)]
pub struct Instance {
    pub label: String,
    pub pos: Vec<Arg>,
    pub named: Vec<(String, Arg)>,
    pub loc: Loc,
}

/// Mathematical model of an instance.
pub struct InstanceV {
    pub label: Seq<char>,
    pub pos: Seq<ArgV>,
    pub named: Seq<(Seq<char>, ArgV)>,
    pub loc: Loc,
}

/// The models of a sequence of named arguments.
pub open spec fn named_models(s: Seq<(String, Arg)>) -> Seq<(Seq<char>, ArgV)> {
    s.map_values(|p: (String, Arg)| (p.0@, p.1@))
}

impl View for Instance {
    type V = InstanceV;

    open spec fn view(&self) -> InstanceV {
        InstanceV {
            label: self.label@,
            pos: self.pos@.map_values(|a: Arg| a@),
            named: named_models(self.named@),
            loc: self.loc,
        }
    }
}

impl Instance {
    /// Aggregate the parts of an instantiation.
    pub fn new(label: String, pos: Vec<Arg>, named: Vec<(String, Arg)>, loc: Loc) -> (r: Instance)
        ensures
            r@.label == label@,
            r@.pos == pos@.map_values(|a: Arg| a@),
            r@.named == named_models(named@),
            r@.loc == loc,
    {
        Instance { label, pos, named, loc }
    }
}

/// A description of a template: parameter lists, the amount and tag
/// field templates, the fixed category and span, and where the template
/// stands in the source.
#[derive(Debug, Clone, PartialEq)]
pub struct Template {
    pub positional: Vec<String>,
    pub named: Vec<(String, Arg)>,
    pub value: AmountTemplate,
    pub cat: Category,
    pub span: Span,
    pub tag: TagTemplate,
    pub loc: Loc,
}

/// Mathematical model of a template.
pub struct TemplateV {
    pub positional: Seq<Seq<char>>,
    pub named: Seq<(Seq<char>, ArgV)>,
    pub value: AmountTemplateV,
    pub cat: Category,
    pub span: Span,
    pub tag: Seq<TagItemV>,
    pub loc: Loc,
}

impl View for Template {
    type V = TemplateV;

    open spec fn view(&self) -> TemplateV {
        TemplateV {
            positional: self.positional@.map_values(|s: String| s@),
            named: named_models(self.named@),
            value: self.value@,
            cat: self.cat,
            span: self.span,
            tag: self.tag@,
            loc: self.loc,
        }
    }
}

impl Template {
    /// Aggregate the parts of a template definition.
    pub fn new(
        positional: Vec<String>,
        named: Vec<(String, Arg)>,
        value: AmountTemplate,
        cat: Category,
        span: Span,
        tag: TagTemplate,
        loc: Loc,
    ) -> (r: Template)
        ensures
            r@.positional == positional@.map_values(|s: String| s@),
            r@.named == named_models(named@),
            r@.value == value@,
            r@.cat == cat,
            r@.span == span,
            r@.tag == tag@,
            r@.loc == loc,
    {
        Template { positional, named, value, cat, span, tag, loc }
    }
}

/// Each item of a parsed source file: an explicit entry, a template
/// definition, or a template expansion with its reference date.
#[derive(Debug, Clone)]
pub enum AstItem {
    Entry(Entry),
    Template(String, Template),
    Instance(Date, Instance),
}

/// Mathematical model of an item.
pub enum AstItemV {
    Entry(EntryV),
    Template(Seq<char>, TemplateV),
    Instance(DateV, InstanceV),
}

impl View for AstItem {
    type V = AstItemV;

    open spec fn view(&self) -> AstItemV {
        match self {
            AstItem::Entry(e) => AstItemV::Entry(e@),
            AstItem::Template(name, t) => AstItemV::Template(name@, t@),
            AstItem::Instance(d, i) => AstItemV::Instance(d@, i@),
        }
    }
}

/// Insert a binding, overriding an earlier binding of the same name and
/// otherwise appending.
pub open spec fn insert_pair<V>(s: Seq<(Seq<char>, V)>, name: Seq<char>, val: V) -> Seq<
    (Seq<char>, V),
>
    decreases s.len(),
{
    if s.len() == 0 {
        seq![(name, val)]
    } else if s[0].0 == name {
        seq![(name, val)] + s.drop_first()
    } else {
        seq![s[0]] + insert_pair(s.drop_first(), name, val)
    }
}

/// Look a name up in a binding table; first match (names are unique).
pub open spec fn find_pair<V>(s: Seq<(Seq<char>, V)>, name: Seq<char>) -> Option<V>
    decreases s.len(),
{
    if s.len() == 0 {
        Option::None
    } else if s[0].0 == name {
        Option::Some(s[0].1)
    } else {
        find_pair(s.drop_first(), name)
    }
}

fn insert_arg(args: &mut Vec<(String, Arg)>, name: String, val: Arg)
    ensures
        named_models(final(args)@) == insert_pair(named_models(old(args)@), name@, val@),
{
    let mut i: usize = 0;
    while i < args.len()
        invariant
            i <= args@.len(),
            forall|k: int| 0 <= k < i ==> (#[trigger] args@[k]).0@ != name@,
            args@ == old(args)@,
        decreases args@.len() - i,
    {
        if args[i].0 == name {
            args.set(i, (name, val));
            proof {
                lemma_insert_pair_at(named_models(old(args)@), name@, val@, i as int);
                assert(named_models(args@) =~= named_models(old(args)@).update(
                    i as int,
                    (name@, val@),
                ));
            }
            return ;
        }
        i = i + 1;
    }
    args.push((name, val));
    proof {
        lemma_insert_pair_missing(named_models(old(args)@), name@, val@);
        assert(named_models(args@) =~= named_models(old(args)@).push((name@, val@)));
    }
}

proof fn lemma_insert_pair_at<V>(s: Seq<(Seq<char>, V)>, name: Seq<char>, val: V, i: int)
    requires
        0 <= i < s.len(),
        s[i].0 == name,
        forall|k: int| 0 <= k < i ==> (#[trigger] s[k]).0 != name,
    ensures
        insert_pair(s, name, val) == s.update(i, (name, val)),
    decreases s.len(),
{
    if i == 0 {
        assert(seq![(name, val)] + s.drop_first() =~= s.update(0, (name, val)));
    } else {
        lemma_insert_pair_at(s.drop_first(), name, val, i - 1);
        assert(s.drop_first().update(i - 1, (name, val)) =~= s.update(i, (name, val)).drop_first());
        assert(seq![s[0]] + s.update(i, (name, val)).drop_first() =~= s.update(i, (name, val)));
    }
}

proof fn lemma_insert_pair_missing<V>(s: Seq<(Seq<char>, V)>, name: Seq<char>, val: V)
    requires
        forall|k: int| 0 <= k < s.len() ==> (#[trigger] s[k]).0 != name,
    ensures
        insert_pair(s, name, val) == s.push((name, val)),
    decreases s.len(),
{
    if s.len() == 0 {
        assert(seq![(name, val)] =~= s.push((name, val)));
    } else {
        lemma_insert_pair_missing(s.drop_first(), name, val);
        assert(seq![s[0]] + s.drop_first().push((name, val)) =~= s.push((name, val)));
    }
}

fn find_arg<'a>(args: &'a Vec<(String, Arg)>, name: &String) -> (r: Option<&'a Arg>)
    ensures
        match r {
            Some(a) => find_pair(named_models(args@), name@) == Option::Some(a@),
            None => find_pair(named_models(args@), name@) is None,
        },
{
    let mut i: usize = 0;
    while i < args.len()
        invariant
            i <= args@.len(),
            forall|k: int| 0 <= k < i ==> (#[trigger] args@[k]).0@ != name@,
        decreases args@.len() - i,
    {
        if args[i].0 == *name {
            let r = &args[i].1;
            proof {
                lemma_find_pair_at(named_models(args@), name@, i as int);
            }
            return Some(r);
        }
        i = i + 1;
    }
    proof {
        lemma_find_pair_missing(named_models(args@), name@);
    }
    None
}

proof fn lemma_find_pair_at<V>(s: Seq<(Seq<char>, V)>, name: Seq<char>, i: int)
    requires
        0 <= i < s.len(),
        s[i].0 == name,
        forall|k: int| 0 <= k < i ==> (#[trigger] s[k]).0 != name,
    ensures
        find_pair(s, name) == Option::Some(s[i].1),
    decreases s.len(),
{
    if i > 0 {
        lemma_find_pair_at(s.drop_first(), name, i - 1);
    }
}

proof fn lemma_find_pair_missing<V>(s: Seq<(Seq<char>, V)>, name: Seq<char>)
    requires
        forall|k: int| 0 <= k < s.len() ==> (#[trigger] s[k]).0 != name,
    ensures
        find_pair(s, name) is None,
    decreases s.len(),
{
    if s.len() > 0 {
        lemma_find_pair_missing(s.drop_first(), name);
    }
}

/// The message locating an instantiation.
pub open spec fn in_instanciation_chars(label: Seq<char>) -> Seq<char> {
    "in instanciation of '"@ + label + "'"@
}

/// The fatal diagnostic for an undeclared template name.
pub open spec fn undeclared_error(i: InstanceV) -> ErrorV {
    ErrorV {
        fatal: true,
        label: "Undeclared template"@,
        items: seq![
            ItemV::Block(i.loc, "attempt to instanciate "@ + i.label),
            ItemV::Text("'"@ + i.label + "' is not declared"@),
            ItemV::Hint("Maybe a typo ?"@),
        ],
    }
}

/// The fatal diagnostic for a positional-argument count mismatch,
/// naming both counts and both locations.
pub open spec fn argcount_error(t: TemplateV, i: InstanceV) -> ErrorV {
    ErrorV {
        fatal: true,
        label: "Argcount mismatch"@,
        items: seq![
            ItemV::Block(
                i.loc,
                "instanciation provides "@ + dec_chars(i.pos.len()) + " arguments"@,
            ),
            ItemV::Block(t.loc, "template expects "@ + dec_chars(t.positional.len()) + " arguments"@),
            ItemV::Text("Fix the count mismatch"@),
            ItemV::Hint(
                if i.pos.len() > t.positional.len() {
                    "remove "@ + dec_chars((i.pos.len() - t.positional.len()) as nat)
                        + " arguments from instanciation"@
                } else {
                    "provide the "@ + dec_chars((t.positional.len() - i.pos.len()) as nat)
                        + " missing arguments"@
                },
            ),
        ],
    }
}

/// The fatal diagnostic for an argument referenced but not bound.
pub open spec fn missing_arg_error(iloc: Loc, tloc: Loc, label: Seq<char>, a: Seq<char>) -> ErrorV {
    ErrorV {
        fatal: true,
        label: "Missing argument"@,
        items: seq![
            ItemV::Block(iloc, in_instanciation_chars(label)),
            ItemV::Text("Argument '"@ + a + "' is not provided"@),
            ItemV::Block(tloc, "defined here"@),
            ItemV::Hint("remove argument from template body"@),
            ItemV::Hint("or provide a default value: '"@ + a + "=0'"@),
        ],
    }
}

/// The fatal diagnostic for a tag argument summed as an amount.
pub open spec fn type_mismatch_error(iloc: Loc, tloc: Loc, label: Seq<char>) -> ErrorV {
    ErrorV {
        fatal: true,
        label: "Type mismatch"@,
        items: seq![
            ItemV::Block(iloc, in_instanciation_chars(label)),
            ItemV::Text("Cannot treat tag as a monetary value"@),
            ItemV::Block(tloc, "defined here"@),
            ItemV::Hint("make it a value"@),
            ItemV::Hint("or remove from amount calculation"@),
        ],
    }
}

/// The fatal diagnostic for an amount that leaves the machine range.
pub open spec fn overflow_error(iloc: Loc, label: Seq<char>) -> ErrorV {
    ErrorV {
        fatal: true,
        label: "Amount overflow"@,
        items: seq![
            ItemV::Block(iloc, in_instanciation_chars(label)),
            ItemV::Text("The instantiated amount exceeds the supported range"@),
            ItemV::Hint("split the entry or lower the amounts"@),
        ],
    }
}

/// The fatal diagnostic for a span that leaves the supported years.
pub open spec fn range_error(iloc: Loc, label: Seq<char>) -> ErrorV {
    ErrorV {
        fatal: true,
        label: "Unsupported date range"@,
        items: seq![
            ItemV::Block(iloc, in_instanciation_chars(label)),
            ItemV::Text("The span does not fit in the supported years"@),
            ItemV::Hint("move the date away from the boundary years"@),
        ],
    }
}

/// The non-fatal diagnostic for an argument provided but never used.
pub open spec fn unused_warning(iloc: Loc, tloc: Loc, label: Seq<char>, a: Seq<char>) -> ErrorV {
    ErrorV {
        fatal: false,
        label: "Unused argument"@,
        items: seq![
            ItemV::Block(iloc, in_instanciation_chars(label)),
            ItemV::Text("Argument '"@ + a + "' is provided but not used"@),
            ItemV::Block(tloc, "defined here"@),
            ItemV::Hint("remove argument or use in template"@),
        ],
    }
}

/// The non-fatal diagnostic for an amount-typed argument used only in
/// the tag expansion.
pub open spec fn needless_warning(
    iloc: Loc,
    tloc: Loc,
    label: Seq<char>,
    a: Seq<char>,
    v: int,
) -> ErrorV {
    ErrorV {
        fatal: false,
        label: "Needless amount"@,
        items: seq![
            ItemV::Block(iloc, in_instanciation_chars(label)),
            ItemV::Text("Argument '"@ + a + "' has type amount but could be a string"@),
            ItemV::Block(tloc, "defined here"@),
            ItemV::Hint("argument is used only in tag field"@),
            ItemV::Hint("change to string '\""@ + amount_chars(v) + "\"' or use in val field"@),
        ],
    }
}

fn in_instanciation_msg(label: &String) -> (r: String)
    ensures
        r@ == in_instanciation_chars(label@),
{
    let mut r = String::from_str("in instanciation of '");
    r.append(label.as_str());
    r.append("'");
    proof {
        assert(r@ =~= in_instanciation_chars(label@));
    }
    r
}

fn make_missing_arg(iloc: Loc, tloc: Loc, label: &String, a: &String) -> (e: Error)
    ensures
        e@ == missing_arg_error(iloc, tloc, label@, a@),
{
    let mut text = String::from_str("Argument '");
    text.append(a.as_str());
    text.append("' is not provided");
    let mut hint = String::from_str("or provide a default value: '");
    hint.append(a.as_str());
    hint.append("=0'");
    let e = Error::new("Missing argument").with_span(iloc, in_instanciation_msg(label).as_str())
        .with_text(text.as_str()).with_span(tloc, "defined here").with_hint(
        "remove argument from template body",
    ).with_hint(hint.as_str());
    proof {
        assert(text@ =~= "Argument '"@ + a@ + "' is not provided"@);
        assert(hint@ =~= "or provide a default value: '"@ + a@ + "=0'"@);
        assert(e@.items =~= missing_arg_error(iloc, tloc, label@, a@).items);
    }
    e
}

fn make_type_mismatch(iloc: Loc, tloc: Loc, label: &String) -> (e: Error)
    ensures
        e@ == type_mismatch_error(iloc, tloc, label@),
{
    let e = Error::new("Type mismatch").with_span(iloc, in_instanciation_msg(label).as_str())
        .with_text("Cannot treat tag as a monetary value").with_span(tloc, "defined here")
        .with_hint("make it a value").with_hint("or remove from amount calculation");
    proof {
        assert(e@.items =~= type_mismatch_error(iloc, tloc, label@).items);
    }
    e
}

fn make_overflow(iloc: Loc, label: &String) -> (e: Error)
    ensures
        e@ == overflow_error(iloc, label@),
{
    let e = Error::new("Amount overflow").with_span(iloc, in_instanciation_msg(label).as_str())
        .with_text("The instantiated amount exceeds the supported range").with_hint(
        "split the entry or lower the amounts",
    );
    proof {
        assert(e@.items =~= overflow_error(iloc, label@).items);
    }
    e
}

fn make_range_error(iloc: Loc, label: &String) -> (e: Error)
    ensures
        e@ == range_error(iloc, label@),
{
    let e = Error::new("Unsupported date range").with_span(
        iloc,
        in_instanciation_msg(label).as_str(),
    ).with_text("The span does not fit in the supported years").with_hint(
        "move the date away from the boundary years",
    );
    proof {
        assert(e@.items =~= range_error(iloc, label@).items);
    }
    e
}

/// Outcome of expanding an amount template against bound arguments.
pub enum AmountOutcome {
    /// total in cents, and the argument names that were referenced
    Done(int, Seq<Seq<char>>),
    /// an argument was referenced but is not bound
    Missing(Seq<char>),
    /// a tag argument was summed as an amount
    Mismatch,
    /// a running total left the machine range
    Overflow,
}

/// Left-to-right expansion of the remaining summation items, from a
/// running total and the names referenced so far.
pub open spec fn expand_amount_from(
    items: Seq<AmountItemV>,
    args: Seq<(Seq<char>, ArgV)>,
    acc: int,
    used: Seq<Seq<char>>,
) -> AmountOutcome
    decreases items.len(),
{
    if items.len() == 0 {
        AmountOutcome::Done(acc, used)
    } else {
        match items[0] {
            AmountItemV::Cst(n) => if isize::MIN <= acc + n <= isize::MAX {
                expand_amount_from(items.drop_first(), args, acc + n, used)
            } else {
                AmountOutcome::Overflow
            },
            AmountItemV::Arg(a) => match find_pair(args, a) {
                Option::None => AmountOutcome::Missing(a),
                Option::Some(ArgV::Amount(v)) => if isize::MIN <= acc + v <= isize::MAX {
                    expand_amount_from(items.drop_first(), args, acc + v, used.push(a))
                } else {
                    AmountOutcome::Overflow
                },
                Option::Some(ArgV::Tag(_)) => AmountOutcome::Mismatch,
            },
        }
    }
}

/// Expansion of an amount template: the summation of its items, negated
/// when the sign flag is unset.
pub open spec fn expand_amount(t: AmountTemplateV, args: Seq<(Seq<char>, ArgV)>) -> AmountOutcome {
    match expand_amount_from(t.sum, args, 0, Seq::<Seq<char>>::empty()) {
        AmountOutcome::Done(s, u) => if t.sign {
            AmountOutcome::Done(s, u)
        } else if s == isize::MIN {
            AmountOutcome::Overflow
        } else {
            AmountOutcome::Done(-s, u)
        },
        o => o,
    }
}

/// Expand the amount field of a template: sum constants and resolved
/// argument values, negating if the sign flag is unset; report a fatal
/// diagnostic on a missing argument, a tag summed as an amount, or an
/// amount out of range.
fn instantiate_amount(
    errs: &mut Record,
    label: &String,
    loc_inst: Loc,
    loc_templ: Loc,
    templ: &AmountTemplate,
    args: &Vec<(String, Arg)>,
) -> (r: Option<(Amount, Vec<String>)>)
    requires
        old(errs).wf(),
    ensures
        final(errs).wf(),
        match expand_amount(templ@, named_models(args@)) {
            AmountOutcome::Done(v, u) => r matches Some(p) && p.0.0 as int == v
                && p.1@.map_values(|s: String| s@) == u && final(errs)@ == old(errs)@,
            AmountOutcome::Missing(a) => r is None && final(errs)@ == old(errs)@.push(
                missing_arg_error(loc_inst, loc_templ, label@, a),
            ),
            AmountOutcome::Mismatch => r is None && final(errs)@ == old(errs)@.push(
                type_mismatch_error(loc_inst, loc_templ, label@),
            ),
            AmountOutcome::Overflow => r is None && final(errs)@ == old(errs)@.push(
                overflow_error(loc_inst, label@),
            ),
        },
{
    let ghost argsm = named_models(args@);
    let mut acc: isize = 0;
    let mut used: Vec<String> = Vec::new();
    let mut i: usize = 0;
    proof {
        assert(templ@.sum.subrange(0, templ@.sum.len() as int) =~= templ@.sum);
        assert(used@.map_values(|s: String| s@) =~= Seq::<Seq<char>>::empty());
    }
    while i < templ.sum.len()
        invariant
            old(errs).wf(),
            errs.wf(),
            errs@ == old(errs)@,
            i <= templ@.sum.len(),
            templ@.sum.len() == templ.sum@.len(),
            forall|k: int|
                0 <= k < templ.sum@.len() ==> templ@.sum[k] == (#[trigger] templ.sum@[k])@,
            argsm == named_models(args@),
            expand_amount_from(templ@.sum, argsm, 0, Seq::<Seq<char>>::empty())
                == expand_amount_from(
                templ@.sum.subrange(i as int, templ@.sum.len() as int),
                argsm,
                acc as int,
                used@.map_values(|s: String| s@),
            ),
        decreases templ@.sum.len() - i,
    {
        let ghost rest = templ@.sum.subrange(i as int, templ@.sum.len() as int);
        proof {
            assert(rest[0] == templ@.sum[i as int]);
            assert(rest.drop_first() =~= templ@.sum.subrange(
                i as int + 1,
                templ@.sum.len() as int,
            ));
        }
        let n: isize = match &templ.sum[i] {
            AmountTemplateItem::Cst(a) => a.0,
            AmountTemplateItem::Arg(a) => {
                match find_arg(args, a) {
                    None => {
                        make_missing_arg(loc_inst, loc_templ, label, a).register(errs);
                        return None;
                    },
                    Some(Arg::Tag(_)) => {
                        make_type_mismatch(loc_inst, loc_templ, label).register(errs);
                        return None;
                    },
                    Some(Arg::Amount(v)) => {
                        let v = *v;
                        let ghost u0 = used@;
                        used.push(clone_string(a));
                        proof {
                            assert(used@.map_values(|s: String| s@) =~= u0.map_values(
                                |s: String| s@,
                            ).push(a@));
                        }
                        v.0
                    },
                }
            },
        };
        let overflow = if n >= 0 {
            acc > isize::MAX - n
        } else {
            acc < isize::MIN - n
        };
        if overflow {
            make_overflow(loc_inst, label).register(errs);
            return None;
        }
        acc = acc + n;
        i = i + 1;
    }
    proof {
        assert(templ@.sum.subrange(templ@.sum.len() as int, templ@.sum.len() as int) =~= Seq::<
            AmountItemV,
        >::empty());
    }
    if templ.sign {
        Some((Amount(acc), used))
    } else if acc == isize::MIN {
        make_overflow(loc_inst, label).register(errs);
        None
    } else {
        Some((Amount(-acc), used))
    }
}

fn clone_string(s: &String) -> (r: String)
    ensures
        r@ == s@,
{
    s.clone()
}

/// Outcome of expanding a tag template against bound arguments.
pub enum TagOutcome {
    /// the concatenated label, and the argument names referenced
    Done(Seq<char>, Seq<Seq<char>>),
    /// an argument was referenced but is not bound
    Missing(Seq<char>),
}

/// Left-to-right expansion of the remaining tag items, from the text
/// and referenced names so far: literals are copied, date placeholders
/// render the reference date, arguments are rendered by their type.
pub open spec fn expand_tag_from(
    items: Seq<TagItemV>,
    args: Seq<(Seq<char>, ArgV)>,
    date: DateV,
    acc: Seq<char>,
    used: Seq<Seq<char>>,
) -> TagOutcome
    decreases items.len(),
{
    if items.len() == 0 {
        TagOutcome::Done(acc, used)
    } else {
        let rest = items.drop_first();
        match items[0] {
            TagItemV::Day => expand_tag_from(
                rest,
                args,
                date,
                acc + dec_chars(date.day as nat),
                used,
            ),
            TagItemV::Month => expand_tag_from(rest, args, date, acc + month_chars(date.month), used),
            TagItemV::Year => expand_tag_from(
                rest,
                args,
                date,
                acc + dec_chars(date.year as nat),
                used,
            ),
            TagItemV::Date => expand_tag_from(rest, args, date, acc + date_chars(date), used),
            TagItemV::Weekday => expand_tag_from(
                rest,
                args,
                date,
                acc + weekday_chars(weekday_num(date)),
                used,
            ),
            TagItemV::Raw(s) => expand_tag_from(rest, args, date, acc + s, used),
            TagItemV::Arg(a) => match find_pair(args, a) {
                Option::None => TagOutcome::Missing(a),
                Option::Some(ArgV::Amount(v)) => expand_tag_from(
                    rest,
                    args,
                    date,
                    acc + amount_chars(v),
                    used.push(a),
                ),
                Option::Some(ArgV::Tag(t)) => expand_tag_from(
                    rest,
                    args,
                    date,
                    acc + t,
                    used.push(a),
                ),
            },
        }
    }
}

/// Expansion of a tag template at a reference date.
pub open spec fn expand_tag(
    items: Seq<TagItemV>,
    args: Seq<(Seq<char>, ArgV)>,
    date: DateV,
) -> TagOutcome {
    expand_tag_from(items, args, date, Seq::<char>::empty(), Seq::<Seq<char>>::empty())
}

/// Expand the tag field of a template: concatenate literal fragments,
/// date-derived placeholders and resolved argument values; report a
/// fatal diagnostic on a missing argument.
fn instanciate_tag(
    errs: &mut Record,
    label: &String,
    loc_inst: Loc,
    loc_templ: Loc,
    templ: &TagTemplate,
    args: &Vec<(String, Arg)>,
    date: Date,
) -> (r: Option<(Tag, Vec<String>)>)
    requires
        old(errs).wf(),
        date_wf(date@),
        forall|k: int| 0 <= k < named_models(args@).len() ==> arg_wf(
            (#[trigger] named_models(args@)[k]).1,
        ),
    ensures
        final(errs).wf(),
        match expand_tag(templ@, named_models(args@), date@) {
            TagOutcome::Done(t, u) => r matches Some(p) && p.0.0@ == t && p.1@.map_values(
                |s: String| s@,
            ) == u && final(errs)@ == old(errs)@,
            TagOutcome::Missing(a) => r is None && final(errs)@ == old(errs)@.push(
                missing_arg_error(loc_inst, loc_templ, label@, a),
            ),
        },
{
    let ghost argsm = named_models(args@);
    let mut acc = String::new();
    let mut used: Vec<String> = Vec::new();
    let mut i: usize = 0;
    proof {
        assert(templ@.subrange(0, templ@.len() as int) =~= templ@);
        assert(used@.map_values(|s: String| s@) =~= Seq::<Seq<char>>::empty());
        assert(acc@ =~= Seq::<char>::empty());
    }
    while i < templ.0.len()
        invariant
            old(errs).wf(),
            errs.wf(),
            errs@ == old(errs)@,
            date_wf(date@),
            i <= templ@.len(),
            templ@.len() == templ.0@.len(),
            forall|k: int| 0 <= k < templ.0@.len() ==> templ@[k] == (#[trigger] templ.0@[k])@,
            argsm == named_models(args@),
            forall|k: int| 0 <= k < argsm.len() ==> arg_wf((#[trigger] argsm[k]).1),
            expand_tag_from(templ@, argsm, date@, Seq::<char>::empty(), Seq::<Seq<char>>::empty())
                == expand_tag_from(
                templ@.subrange(i as int, templ@.len() as int),
                argsm,
                date@,
                acc@,
                used@.map_values(|s: String| s@),
            ),
        decreases templ@.len() - i,
    {
        let ghost rest = templ@.subrange(i as int, templ@.len() as int);
        proof {
            assert(rest[0] == templ@[i as int]);
            assert(rest.drop_first() =~= templ@.subrange(i as int + 1, templ@.len() as int));
        }
        match &templ.0[i] {
            TagTemplateItem::Day => {
                acc.append(usize_string(date.day() as usize).as_str());
            },
            TagTemplateItem::Month => {
                acc.append(date.month().name());
            },
            TagTemplateItem::Year => {
                acc.append(usize_string(date.year() as usize).as_str());
            },
            TagTemplateItem::Date => {
                acc.append(date.text().as_str());
            },
            TagTemplateItem::Weekday => {
                acc.append(date.weekday().name());
            },
            TagTemplateItem::Raw(s) => {
                acc.append(s.as_str());
            },
            TagTemplateItem::Arg(a) => {
                match find_arg(args, a) {
                    None => {
                        make_missing_arg(loc_inst, loc_templ, label, a).register(errs);
                        return None;
                    },
                    Some(Arg::Amount(v)) => {
                        let v = *v;
                        proof {
                            lemma_found_arg_wf(argsm, a@);
                        }
                        acc.append(v.text().as_str());
                        let ghost u0 = used@;
                        used.push(clone_string(a));
                        proof {
                            assert(used@.map_values(|s: String| s@) =~= u0.map_values(
                                |s: String| s@,
                            ).push(a@));
                        }
                    },
                    Some(Arg::Tag(t)) => {
                        let text = clone_string(t);
                        acc.append(text.as_str());
                        let ghost u0 = used@;
                        used.push(clone_string(a));
                        proof {
                            assert(used@.map_values(|s: String| s@) =~= u0.map_values(
                                |s: String| s@,
                            ).push(a@));
                        }
                    },
                }
            },
        }
        i = i + 1;
    }
    proof {
        assert(templ@.subrange(templ@.len() as int, templ@.len() as int) =~= Seq::<
            TagItemV,
        >::empty());
    }
    Some((Tag(acc), used))
}

proof fn lemma_found_arg_wf(args: Seq<(Seq<char>, ArgV)>, name: Seq<char>)
    requires
        forall|k: int| 0 <= k < args.len() ==> arg_wf((#[trigger] args[k]).1),
        find_pair(args, name) is Some,
    ensures
        arg_wf(find_pair(args, name).unwrap()),
    decreases args.len(),
{
    if args.len() > 0 && args[0].0 != name {
        lemma_found_arg_wf(args.drop_first(), name);
    }
}

/// The positional parameter names of a template paired with the
/// positional arguments of an instance, in order.
pub open spec fn zip_params(names: Seq<Seq<char>>, vals: Seq<ArgV>) -> Seq<(Seq<char>, ArgV)> {
    Seq::new(names.len(), |k: int| (names[k], vals[k]))
}

/// A sequence of bindings inserted in order, each overriding an earlier
/// binding of the same name.
pub open spec fn insert_all(s: Seq<(Seq<char>, ArgV)>, pairs: Seq<(Seq<char>, ArgV)>) -> Seq<
    (Seq<char>, ArgV),
>
    decreases pairs.len(),
{
    if pairs.len() == 0 {
        s
    } else {
        insert_all(insert_pair(s, pairs[0].0, pairs[0].1), pairs.drop_first())
    }
}

/// The argument table of an instantiation: positional parameters bound
/// in order, then the template's named defaults, then the instance's
/// named arguments overriding them.
pub open spec fn bindings_v(t: TemplateV, i: InstanceV) -> Seq<(Seq<char>, ArgV)> {
    insert_all(
        insert_all(
            insert_all(Seq::<(Seq<char>, ArgV)>::empty(), zip_params(t.positional, i.pos)),
            t.named,
        ),
        i.named,
    )
}

fn copy_arg(a: &Arg) -> (r: Arg)
    ensures
        r@ == a@,
{
    match a {
        Arg::Amount(x) => Arg::Amount(*x),
        Arg::Tag(s) => Arg::Tag(clone_string(s)),
    }
}

fn make_argcount(templ: &Template, inst: &Instance) -> (e: Error)
    ensures
        e@ == argcount_error(templ@, inst@),
{
    let len_inst = inst.pos.len();
    let len_templ = templ.positional.len();
    let mut m1 = String::from_str("instanciation provides ");
    m1.append(usize_string(len_inst).as_str());
    m1.append(" arguments");
    let mut m2 = String::from_str("template expects ");
    m2.append(usize_string(len_templ).as_str());
    m2.append(" arguments");
    let hint = if len_inst > len_templ {
        let mut h = String::from_str("remove ");
        h.append(usize_string(len_inst - len_templ).as_str());
        h.append(" arguments from instanciation");
        h
    } else {
        let mut h = String::from_str("provide the ");
        h.append(usize_string(len_templ - len_inst).as_str());
        h.append(" missing arguments");
        h
    };
    let e = Error::new("Argcount mismatch").with_span(inst.loc, m1.as_str()).with_span(
        templ.loc,
        m2.as_str(),
    ).with_text("Fix the count mismatch").with_hint(hint.as_str());
    proof {
        assert(m1@ =~= "instanciation provides "@ + dec_chars(inst@.pos.len()) + " arguments"@);
        assert(m2@ =~= "template expects "@ + dec_chars(templ@.positional.len()) + " arguments"@);
        if inst@.pos.len() > templ@.positional.len() {
            assert(hint@ =~= "remove "@ + dec_chars(
                (inst@.pos.len() - templ@.positional.len()) as nat,
            ) + " arguments from instanciation"@);
        } else {
            assert(hint@ =~= "provide the "@ + dec_chars(
                (templ@.positional.len() - inst@.pos.len()) as nat,
            ) + " missing arguments"@);
        }
        assert(e@.items =~= argcount_error(templ@, inst@).items);
    }
    e
}

/// Build the argument table of an instantiation: the positional lists
/// must match in length exactly (a fatal mismatch diagnostic names both
/// counts); named parameters come from the template's defaults, then the
/// instance's named arguments override them.
fn build_arguments(errs: &mut Record, inst: &Instance, templ: &Template) -> (r: Option<
    Vec<(String, Arg)>,
>)
    requires
        old(errs).wf(),
    ensures
        final(errs).wf(),
        inst@.pos.len() != templ@.positional.len() ==> r is None && final(errs)@ == old(
            errs,
        )@.push(argcount_error(templ@, inst@)),
        inst@.pos.len() == templ@.positional.len() ==> (r matches Some(v) && named_models(v@)
            == bindings_v(templ@, inst@) && final(errs)@ == old(errs)@),
{
    if inst.pos.len() != templ.positional.len() {
        make_argcount(templ, inst).register(errs);
        return None;
    }
    let mut args: Vec<(String, Arg)> = Vec::new();
    let ghost zipped = zip_params(templ@.positional, inst@.pos);
    let mut i: usize = 0;
    proof {
        assert(named_models(args@) =~= Seq::<(Seq<char>, ArgV)>::empty());
        assert(zipped.subrange(0, zipped.len() as int) =~= zipped);
    }
    while i < templ.positional.len()
        invariant
            i <= zipped.len(),
            zipped == zip_params(templ@.positional, inst@.pos),
            zipped.len() == templ@.positional.len() == inst@.pos.len(),
            templ@.positional.len() == templ.positional@.len(),
            inst@.pos.len() == inst.pos@.len(),
            forall|k: int|
                0 <= k < templ.positional@.len() ==> templ@.positional[k]
                    == (#[trigger] templ.positional@[k])@,
            forall|k: int| 0 <= k < inst.pos@.len() ==> inst@.pos[k] == (#[trigger] inst.pos@[k])@,
            insert_all(Seq::<(Seq<char>, ArgV)>::empty(), zipped) == insert_all(
                named_models(args@),
                zipped.subrange(i as int, zipped.len() as int),
            ),
        decreases zipped.len() - i,
    {
        let ghost rest = zipped.subrange(i as int, zipped.len() as int);
        proof {
            assert(rest[0] == zipped[i as int]);
            assert(rest.drop_first() =~= zipped.subrange(i as int + 1, zipped.len() as int));
        }
        insert_arg(&mut args, clone_string(&templ.positional[i]), copy_arg(&inst.pos[i]));
        i = i + 1;
    }
    proof {
        assert(zipped.subrange(zipped.len() as int, zipped.len() as int) =~= Seq::<
            (Seq<char>, ArgV),
        >::empty());
    }
    let ghost stage1 = named_models(args@);
    let mut i: usize = 0;
    proof {
        assert(templ@.named.subrange(0, templ@.named.len() as int) =~= templ@.named);
    }
    while i < templ.named.len()
        invariant
            i <= templ@.named.len(),
            templ@.named.len() == templ.named@.len(),
            forall|k: int|
                0 <= k < templ.named@.len() ==> templ@.named[k] == ((
                #[trigger] templ.named@[k]).0@, templ.named@[k].1@),
            insert_all(stage1, templ@.named) == insert_all(
                named_models(args@),
                templ@.named.subrange(i as int, templ@.named.len() as int),
            ),
        decreases templ@.named.len() - i,
    {
        let ghost rest = templ@.named.subrange(i as int, templ@.named.len() as int);
        proof {
            assert(rest[0] == templ@.named[i as int]);
            assert(rest.drop_first() =~= templ@.named.subrange(
                i as int + 1,
                templ@.named.len() as int,
            ));
        }
        insert_arg(&mut args, clone_string(&templ.named[i].0), copy_arg(&templ.named[i].1));
        i = i + 1;
    }
    proof {
        assert(templ@.named.subrange(templ@.named.len() as int, templ@.named.len() as int) =~= Seq::<
            (Seq<char>, ArgV),
        >::empty());
    }
    let ghost stage2 = named_models(args@);
    let mut i: usize = 0;
    proof {
        assert(inst@.named.subrange(0, inst@.named.len() as int) =~= inst@.named);
    }
    while i < inst.named.len()
        invariant
            i <= inst@.named.len(),
            inst@.named.len() == inst.named@.len(),
            forall|k: int|
                0 <= k < inst.named@.len() ==> inst@.named[k] == ((#[trigger] inst.named@[k]).0@,
                inst.named@[k].1@),
            insert_all(stage2, inst@.named) == insert_all(
                named_models(args@),
                inst@.named.subrange(i as int, inst@.named.len() as int),
            ),
        decreases inst@.named.len() - i,
    {
        let ghost rest = inst@.named.subrange(i as int, inst@.named.len() as int);
        proof {
            assert(rest[0] == inst@.named[i as int]);
            assert(rest.drop_first() =~= inst@.named.subrange(
                i as int + 1,
                inst@.named.len() as int,
            ));
        }
        insert_arg(&mut args, clone_string(&inst.named[i].0), copy_arg(&inst.named[i].1));
        i = i + 1;
    }
    proof {
        assert(inst@.named.subrange(inst@.named.len() as int, inst@.named.len() as int) =~= Seq::<
            (Seq<char>, ArgV),
        >::empty());
    }
    Some(args)
}

/// Whether a name occurs in a list of referenced names.
pub open spec fn contains_str(u: Seq<Seq<char>>, n: Seq<char>) -> bool {
    exists|k: int| 0 <= k < u.len() && u[k] == n
}

fn contains_name(u: &Vec<String>, n: &String) -> (r: bool)
    ensures
        r == contains_str(u@.map_values(|s: String| s@), n@),
{
    let mut i: usize = 0;
    while i < u.len()
        invariant
            i <= u@.len(),
            forall|k: int| 0 <= k < i ==> (#[trigger] u@[k])@ != n@,
        decreases u@.len() - i,
    {
        if u[i] == *n {
            proof {
                assert(u@.map_values(|s: String| s@)[i as int] == n@);
            }
            return true;
        }
        i = i + 1;
    }
    proof {
        let m = u@.map_values(|s: String| s@);
        if contains_str(m, n@) {
            let k = choose|k: int| 0 <= k < m.len() && m[k] == n@;
            assert(u@[k]@ != n@);
        }
    }
    false
}

/// The hygiene warnings for an argument table after both expansions: an
/// argument used by neither expansion draws an unused-argument warning;
/// an amount-typed argument used only by the tag expansion draws a
/// needless-amount hint.
pub open spec fn hygiene_diags(
    args: Seq<(Seq<char>, ArgV)>,
    label: Seq<char>,
    iloc: Loc,
    tloc: Loc,
    used_v: Seq<Seq<char>>,
    used_t: Seq<Seq<char>>,
) -> Seq<ErrorV>
    decreases args.len(),
{
    if args.len() == 0 {
        Seq::<ErrorV>::empty()
    } else {
        let name = args[0].0;
        let rest = hygiene_diags(args.drop_first(), label, iloc, tloc, used_v, used_t);
        if !contains_str(used_v, name) && !contains_str(used_t, name) {
            seq![unused_warning(iloc, tloc, label, name)] + rest
        } else if args[0].1 is Amount && !contains_str(used_v, name) && contains_str(
            used_t,
            name,
        ) {
            seq![
                needless_warning(iloc, tloc, label, name, args[0].1->Amount_0),
            ] + rest
        } else {
            rest
        }
    }
}

fn make_unused(iloc: Loc, tloc: Loc, label: &String, a: &String) -> (e: Error)
    ensures
        e@ == unused_warning(iloc, tloc, label@, a@),
{
    let mut text = String::from_str("Argument '");
    text.append(a.as_str());
    text.append("' is provided but not used");
    let e = Error::new("Unused argument").nonfatal().with_span(
        iloc,
        in_instanciation_msg(label).as_str(),
    ).with_text(text.as_str()).with_span(tloc, "defined here").with_hint(
        "remove argument or use in template",
    );
    proof {
        assert(text@ =~= "Argument '"@ + a@ + "' is provided but not used"@);
        assert(e@.items =~= unused_warning(iloc, tloc, label@, a@).items);
    }
    e
}

fn make_needless(iloc: Loc, tloc: Loc, label: &String, a: &String, v: Amount) -> (e: Error)
    requires
        v.0 > isize::MIN,
    ensures
        e@ == needless_warning(iloc, tloc, label@, a@, v.0 as int),
{
    let mut text = String::from_str("Argument '");
    text.append(a.as_str());
    text.append("' has type amount but could be a string");
    let mut hint = String::from_str("change to string '\"");
    hint.append(v.text().as_str());
    hint.append("\"' or use in val field");
    let e = Error::new("Needless amount").nonfatal().with_span(
        iloc,
        in_instanciation_msg(label).as_str(),
    ).with_text(text.as_str()).with_span(tloc, "defined here").with_hint(
        "argument is used only in tag field",
    ).with_hint(hint.as_str());
    proof {
        assert(text@ =~= "Argument '"@ + a@ + "' has type amount but could be a string"@);
        assert(hint@ =~= "change to string '\""@ + amount_chars(v.0 as int)
            + "\"' or use in val field"@);
        assert(e@.items =~= needless_warning(iloc, tloc, label@, a@, v.0 as int).items);
    }
    e
}

/// Emit the hygiene warnings for provided-but-unused and
/// needlessly-typed arguments.
fn emit_hygiene(
    errs: &mut Record,
    label: &String,
    iloc: Loc,
    tloc: Loc,
    args: &Vec<(String, Arg)>,
    used_v: &Vec<String>,
    used_t: &Vec<String>,
)
    requires
        old(errs).wf(),
        forall|k: int| 0 <= k < named_models(args@).len() ==> arg_wf(
            (#[trigger] named_models(args@)[k]).1,
        ),
    ensures
        final(errs).wf(),
        final(errs)@ == old(errs)@ + hygiene_diags(
            named_models(args@),
            label@,
            iloc,
            tloc,
            used_v@.map_values(|s: String| s@),
            used_t@.map_values(|s: String| s@),
        ),
{
    let ghost argsm = named_models(args@);
    let ghost uv = used_v@.map_values(|s: String| s@);
    let ghost ut = used_t@.map_values(|s: String| s@);
    let mut i: usize = 0;
    proof {
        assert(argsm.subrange(0, argsm.len() as int) =~= argsm);
        assert(old(errs)@ + Seq::<ErrorV>::empty() =~= old(errs)@);
    }
    while i < args.len()
        invariant
            errs.wf(),
            i <= argsm.len(),
            argsm == named_models(args@),
            uv == used_v@.map_values(|s: String| s@),
            ut == used_t@.map_values(|s: String| s@),
            argsm.len() == args@.len(),
            forall|k: int|
                0 <= k < args@.len() ==> argsm[k] == ((#[trigger] args@[k]).0@, args@[k].1@),
            forall|k: int| 0 <= k < argsm.len() ==> arg_wf((#[trigger] argsm[k]).1),
            old(errs)@ + hygiene_diags(argsm, label@, iloc, tloc, uv, ut) == errs@ + hygiene_diags(
                argsm.subrange(i as int, argsm.len() as int),
                label@,
                iloc,
                tloc,
                uv,
                ut,
            ),
        decreases argsm.len() - i,
    {
        let ghost rest = argsm.subrange(i as int, argsm.len() as int);
        proof {
            assert(rest[0] == argsm[i as int]);
            assert(rest.drop_first() =~= argsm.subrange(i as int + 1, argsm.len() as int));
        }
        let name = &args[i].0;
        let in_v = contains_name(used_v, name);
        let in_t = contains_name(used_t, name);
        let ghost e0 = errs@;
        let ghost tail = hygiene_diags(rest.drop_first(), label@, iloc, tloc, uv, ut);
        if !in_v && !in_t {
            let w = make_unused(iloc, tloc, label, name);
            proof {
                assert(e0 + (seq![w@] + tail) =~= e0.push(w@) + tail);
            }
            w.register(errs);
        } else if !in_v && in_t {
            match &args[i].1 {
                Arg::Amount(v) => {
                    let w = make_needless(iloc, tloc, label, name, *v);
                    proof {
                        assert(e0 + (seq![w@] + tail) =~= e0.push(w@) + tail);
                    }
                    w.register(errs);
                },
                Arg::Tag(_) => {},
            }
        }
        i = i + 1;
    }
    proof {
        assert(argsm.subrange(argsm.len() as int, argsm.len() as int) =~= Seq::<
            (Seq<char>, ArgV),
        >::empty());
        assert(errs@ + Seq::<ErrorV>::empty() =~= errs@);
        assert(old(errs)@ + hygiene_diags(argsm, label@, iloc, tloc, uv, ut) =~= errs@);
    }
}

/// The outcome of the expansion stage of an instantiation: the
/// entry produced, if any, and the diagnostics emitted, in order.
pub open spec fn replacements_outcome(
    t: TemplateV,
    i: InstanceV,
    args: Seq<(Seq<char>, ArgV)>,
    date: DateV,
) -> (Option<EntryV>, Seq<ErrorV>) {
    match expand_amount(t.value, args) {
        AmountOutcome::Missing(a) => (
            Option::<EntryV>::None,
            seq![missing_arg_error(i.loc, t.loc, i.label, a)],
        ),
        AmountOutcome::Mismatch => (
            Option::<EntryV>::None,
            seq![type_mismatch_error(i.loc, t.loc, i.label)],
        ),
        AmountOutcome::Overflow => (Option::<EntryV>::None, seq![overflow_error(i.loc, i.label)]),
        AmountOutcome::Done(v, used_v) => match expand_tag(t.tag, args, date) {
            TagOutcome::Missing(a) => (
                Option::<EntryV>::None,
                seq![missing_arg_error(i.loc, t.loc, i.label, a)],
            ),
            TagOutcome::Done(tag, used_t) => {
                let ws = hygiene_diags(args, i.label, i.loc, t.loc, used_v, used_t);
                let f = finish_outcome(t, i, v, tag, date);
                (
                    f.0,
                    ws + match f.1 {
                        Option::Some(w) => seq![w],
                        Option::None => Seq::<ErrorV>::empty(),
                    },
                )
            },
        },
    }
}

/// The final stage of an instantiation: the entry aggregated over the
/// span resolved at the reference date, or the one fatal diagnostic
/// that prevents it.
pub open spec fn finish_outcome(
    t: TemplateV,
    i: InstanceV,
    v: int,
    tag: Seq<char>,
    date: DateV,
) -> (Option<EntryV>, Option<ErrorV>) {
    if !span_fits(t.span.duration, t.span.count as int, date) {
        (Option::<EntryV>::None, Option::Some(range_error(i.loc, i.label)))
    } else {
        let p = span_period_v(t.span.duration, t.span.window, t.span.count as int, date);
        if !crate::date::date_le_v(p.0, p.1) {
            (Option::<EntryV>::None, Option::Some(range_error(i.loc, i.label)))
        } else if vstd::math::abs(v) * (date_index(p.1) - date_index(p.0) + 1) > isize::MAX {
            (Option::<EntryV>::None, Option::Some(overflow_error(i.loc, i.label)))
        } else {
            (
                Option::Some(
                    EntryV {
                        value: v,
                        cat: t.cat,
                        lo: p.0,
                        hi: p.1,
                        length: date_index(p.1) - date_index(p.0) + 1,
                        tag: Option::Some(tag),
                    },
                ),
                Option::<ErrorV>::None,
            )
        }
    }
}

/// Aggregate the expanded fields into an entry over the resolved span,
/// or report why the aggregation is impossible.
fn finish_entry(errs: &mut Record, inst: &Instance, templ: &Template, value: Amount, tag: Tag, date: Date) -> (r: Option<Entry>)
    requires
        old(errs).wf(),
        date_wf(date@),
    ensures
        final(errs).wf(),
        ({
            let f = finish_outcome(templ@, inst@, value.0 as int, tag.0@, date@);
            &&& final(errs)@ == old(errs)@ + match f.1 {
                Option::Some(w) => seq![w],
                Option::None => Seq::<ErrorV>::empty(),
            }
            &&& match r {
                Some(e) => f.0 == Option::Some(e@) && entry_wf(e@),
                None => f.0 is None,
            }
        }),
{
    if !templ.span.fits(&date) {
        let w = make_range_error(inst.loc, &inst.label);
        proof {
            assert(old(errs)@ + seq![w@] =~= old(errs)@.push(w@));
        }
        w.register(errs);
        return None;
    }
    let period = templ.span.period(date);
    proof {
        crate::entry::lemma_span_period_fun(
            templ@.span.duration,
            templ@.span.window,
            templ@.span.count as int,
            date@,
            period.0@,
            period.1@,
        );
    }
    if !period.0.le(&period.1) {
        let w = make_range_error(inst.loc, &inst.label);
        proof {
            assert(old(errs)@ + seq![w@] =~= old(errs)@.push(w@));
        }
        w.register(errs);
        return None;
    }
    proof {
        crate::date::lemma_index_order(period.0@, period.1@);
    }
    let len: usize = period.1.index() - period.0.index() + 1;
    let overflow: bool = if value.0 == isize::MIN {
        true
    } else {
        let mag: usize = if value.0 >= 0 {
            value.0 as usize
        } else {
            (-value.0) as usize
        };
        !fits_value(mag, len)
    };
    proof {
        let a = vstd::math::abs(value.0 as int);
        let l = date_index(period.1@) - date_index(period.0@) + 1;
        assert(a * l >= a * 1 && a * 1 == a) by (nonlinear_arith)
            requires
                a >= 0,
                l >= 1,
        ;
    }
    if overflow {
        let w = make_overflow(inst.loc, &inst.label);
        proof {
            assert(old(errs)@ + seq![w@] =~= old(errs)@.push(w@));
        }
        w.register(errs);
        return None;
    }
    proof {
        assert(old(errs)@ + Seq::<ErrorV>::empty() =~= old(errs)@);
    }
    Some(Entry::from(value, templ.cat, period, tag))
}

fn fits_value(mag: usize, len: usize) -> (b: bool)
    requires
        len >= 1,
    ensures
        b == (mag * len <= isize::MAX),
{
    let bound: usize = (isize::MAX as usize) / len;
    let b = mag <= bound;
    proof {
        let m = isize::MAX as int;
        vstd::arithmetic::div_mod::lemma_fundamental_div_mod(m, len as int);
        vstd::arithmetic::div_mod::lemma_mod_pos_bound(m, len as int);
        if mag as int <= m / (len as int) {
            assert(mag as int * len as int <= (m / (len as int)) * (len as int))
                by (nonlinear_arith)
                requires
                    0 <= mag as int <= m / (len as int),
                    0 < len as int,
            ;
            assert((m / (len as int)) * (len as int) == (len as int) * (m / (len as int)))
                by (nonlinear_arith);
        } else {
            assert(mag as int * len as int >= (m / (len as int) + 1) * (len as int))
                by (nonlinear_arith)
                requires
                    mag as int >= m / (len as int) + 1,
                    0 < len as int,
            ;
            assert((m / (len as int) + 1) * (len as int) == (len as int) * (m / (len as int))
                + (len as int)) by (nonlinear_arith);
        }
    }
    b
}

/// Expand the bound template: amount and tag expansion, hygiene
/// warnings, and the aggregation of the final entry over the span
/// resolved at the reference date.
#[verifier::rlimit(100)]
fn perform_replacements(
    errs: &mut Record,
    inst: &Instance,
    templ: &Template,
    args: Vec<(String, Arg)>,
    date: Date,
) -> (r: Option<Entry>)
    requires
        old(errs).wf(),
        date_wf(date@),
        forall|k: int| 0 <= k < named_models(args@).len() ==> arg_wf(
            (#[trigger] named_models(args@)[k]).1,
        ),
    ensures
        final(errs).wf(),
        ({
            let o = replacements_outcome(templ@, inst@, named_models(args@), date@);
            &&& final(errs)@ == old(errs)@ + o.1
            &&& match r {
                Some(e) => o.0 == Option::Some(e@) && entry_wf(e@),
                None => o.0 is None,
            }
        }),
{
    proof {
        assert(old(errs)@ + Seq::<ErrorV>::empty() =~= old(errs)@);
    }
    let (value, used_v) = match instantiate_amount(
        errs,
        &inst.label,
        inst.loc,
        templ.loc,
        &templ.value,
        &args,
    ) {
        None => {
            proof {
                assert(old(errs)@ + seq![errs@.last()] =~= errs@);
            }
            return None;
        },
        Some(p) => p,
    };
    let (tag, used_t) = match instanciate_tag(
        errs,
        &inst.label,
        inst.loc,
        templ.loc,
        &templ.tag,
        &args,
        date,
    ) {
        None => {
            proof {
                assert(old(errs)@ + seq![errs@.last()] =~= errs@);
            }
            return None;
        },
        Some(p) => p,
    };
    emit_hygiene(errs, &inst.label, inst.loc, templ.loc, &args, &used_v, &used_t);
    let ghost ws = hygiene_diags(
        named_models(args@),
        inst@.label,
        inst@.loc,
        templ@.loc,
        used_v@.map_values(|s: String| s@),
        used_t@.map_values(|s: String| s@),
    );
    let ghost e1 = errs@;
    let r = finish_entry(errs, inst, templ, value, tag, date);
    proof {
        let f = finish_outcome(templ@, inst@, value.0 as int, tag.0@, date@);
        let extra = match f.1 {
            Option::Some(w) => seq![w],
            Option::None => Seq::<ErrorV>::empty(),
        };
        assert(errs@ =~= old(errs)@ + (ws + extra));
    }
    r
}

/// The full outcome of one instantiation against the templates declared
/// so far.
pub open spec fn instance_outcome(
    ts: Seq<(Seq<char>, TemplateV)>,
    date: DateV,
    i: InstanceV,
) -> (Option<EntryV>, Seq<ErrorV>) {
    match find_pair(ts, i.label) {
        Option::None => (Option::<EntryV>::None, seq![undeclared_error(i)]),
        Option::Some(t) => if i.pos.len() != t.positional.len() {
            (Option::<EntryV>::None, seq![argcount_error(t, i)])
        } else {
            replacements_outcome(t, i, bindings_v(t, i), date)
        },
    }
}

fn make_undeclared(inst: &Instance) -> (e: Error)
    ensures
        e@ == undeclared_error(inst@),
{
    let mut m1 = String::from_str("attempt to instanciate ");
    m1.append(inst.label.as_str());
    let mut m2 = String::from_str("'");
    m2.append(inst.label.as_str());
    m2.append("' is not declared");
    let e = Error::new("Undeclared template").with_span(inst.loc, m1.as_str()).with_text(
        m2.as_str(),
    ).with_hint("Maybe a typo ?");
    proof {
        assert(m1@ =~= "attempt to instanciate "@ + inst@.label);
        assert(m2@ =~= "'"@ + inst@.label + "' is not declared"@);
        assert(e@.items =~= undeclared_error(inst@).items);
    }
    e
}

/// The models of the accumulated template definitions.
pub open spec fn template_models(s: Seq<(String, Template)>) -> Seq<(Seq<char>, TemplateV)> {
    s.map_values(|p: (String, Template)| (p.0@, p.1@))
}

/// A template whose named defaults leave room for negation.
pub open spec fn template_wf(t: TemplateV) -> bool {
    forall|j: int| 0 <= j < t.named.len() ==> arg_wf((#[trigger] t.named[j]).1)
}

/// An instance whose arguments leave room for negation.
pub open spec fn instance_wf(i: InstanceV) -> bool {
    &&& forall|j: int| 0 <= j < i.pos.len() ==> arg_wf(#[trigger] i.pos[j])
    &&& forall|j: int| 0 <= j < i.named.len() ==> arg_wf((#[trigger] i.named[j]).1)
}

proof fn lemma_insert_pair_wf(s: Seq<(Seq<char>, ArgV)>, name: Seq<char>, val: ArgV)
    requires
        forall|k: int| 0 <= k < s.len() ==> arg_wf((#[trigger] s[k]).1),
        arg_wf(val),
    ensures
        forall|k: int|
            0 <= k < insert_pair(s, name, val).len() ==> arg_wf(
                (#[trigger] insert_pair(s, name, val)[k]).1,
            ),
    decreases s.len(),
{
    let r = insert_pair(s, name, val);
    if s.len() == 0 {
    } else if s[0].0 == name {
        assert forall|k: int| 0 <= k < r.len() implies arg_wf((#[trigger] r[k]).1) by {
            if k > 0 {
                assert(r[k] == s[k]);
            }
        }
    } else {
        lemma_insert_pair_wf(s.drop_first(), name, val);
        assert forall|k: int| 0 <= k < r.len() implies arg_wf((#[trigger] r[k]).1) by {
            if k > 0 {
                assert(r[k] == insert_pair(s.drop_first(), name, val)[k - 1]);
            }
        }
    }
}

proof fn lemma_insert_all_wf(s: Seq<(Seq<char>, ArgV)>, pairs: Seq<(Seq<char>, ArgV)>)
    requires
        forall|k: int| 0 <= k < s.len() ==> arg_wf((#[trigger] s[k]).1),
        forall|k: int| 0 <= k < pairs.len() ==> arg_wf((#[trigger] pairs[k]).1),
    ensures
        forall|k: int|
            0 <= k < insert_all(s, pairs).len() ==> arg_wf((#[trigger] insert_all(s, pairs)[k]).1),
    decreases pairs.len(),
{
    if pairs.len() > 0 {
        lemma_insert_pair_wf(s, pairs[0].0, pairs[0].1);
        assert forall|k: int| 0 <= k < pairs.drop_first().len() implies arg_wf(
            (#[trigger] pairs.drop_first()[k]).1,
        ) by {
            assert(pairs.drop_first()[k] == pairs[k + 1]);
        }
        lemma_insert_all_wf(insert_pair(s, pairs[0].0, pairs[0].1), pairs.drop_first());
        assert forall|k: int| 0 <= k < insert_all(s, pairs).len() implies arg_wf(
            (#[trigger] insert_all(s, pairs)[k]).1,
        ) by {
            assert(insert_all(s, pairs) == insert_all(
                insert_pair(s, pairs[0].0, pairs[0].1),
                pairs.drop_first(),
            ));
            assert(arg_wf(
                insert_all(insert_pair(s, pairs[0].0, pairs[0].1), pairs.drop_first())[k].1,
            ));
        }
    }
}

proof fn lemma_bindings_wf(t: TemplateV, i: InstanceV)
    requires
        template_wf(t),
        instance_wf(i),
        t.positional.len() == i.pos.len(),
    ensures
        forall|k: int|
            0 <= k < bindings_v(t, i).len() ==> arg_wf((#[trigger] bindings_v(t, i)[k]).1),
{
    let z = zip_params(t.positional, i.pos);
    assert forall|k: int| 0 <= k < z.len() implies arg_wf((#[trigger] z[k]).1) by {
        assert(z[k].1 == i.pos[k]);
    }
    lemma_insert_all_wf(Seq::<(Seq<char>, ArgV)>::empty(), z);
    lemma_insert_all_wf(insert_all(Seq::<(Seq<char>, ArgV)>::empty(), z), t.named);
    lemma_insert_all_wf(
        insert_all(insert_all(Seq::<(Seq<char>, ArgV)>::empty(), z), t.named),
        i.named,
    );
}

proof fn lemma_found_template_wf(ts: Seq<(Seq<char>, TemplateV)>, name: Seq<char>)
    requires
        forall|k: int| 0 <= k < ts.len() ==> template_wf((#[trigger] ts[k]).1),
        find_pair(ts, name) is Some,
    ensures
        template_wf(find_pair(ts, name).unwrap()),
    decreases ts.len(),
{
    if ts.len() > 0 && ts[0].0 != name {
        lemma_found_template_wf(ts.drop_first(), name);
    }
}

fn find_template_exec<'a>(ts: &'a Vec<(String, Template)>, name: &String) -> (r: Option<
    &'a Template,
>)
    ensures
        match r {
            Some(t) => find_pair(template_models(ts@), name@) == Option::Some(t@),
            None => find_pair(template_models(ts@), name@) is None,
        },
{
    let mut i: usize = 0;
    while i < ts.len()
        invariant
            i <= ts@.len(),
            forall|k: int| 0 <= k < i ==> (#[trigger] ts@[k]).0@ != name@,
        decreases ts@.len() - i,
    {
        if ts[i].0 == *name {
            let r = &ts[i].1;
            proof {
                lemma_find_pair_at(template_models(ts@), name@, i as int);
            }
            return Some(r);
        }
        i = i + 1;
    }
    proof {
        lemma_find_pair_missing(template_models(ts@), name@);
    }
    None
}

fn insert_template(ts: &mut Vec<(String, Template)>, name: String, t: Template)
    ensures
        template_models(final(ts)@) == insert_pair(template_models(old(ts)@), name@, t@),
{
    let mut i: usize = 0;
    while i < ts.len()
        invariant
            i <= ts@.len(),
            forall|k: int| 0 <= k < i ==> (#[trigger] ts@[k]).0@ != name@,
            ts@ == old(ts)@,
        decreases ts@.len() - i,
    {
        if ts[i].0 == name {
            ts.set(i, (name, t));
            proof {
                lemma_insert_pair_at(template_models(old(ts)@), name@, t@, i as int);
                assert(template_models(ts@) =~= template_models(old(ts)@).update(
                    i as int,
                    (name@, t@),
                ));
            }
            return ;
        }
        i = i + 1;
    }
    ts.push((name, t));
    proof {
        lemma_insert_pair_missing(template_models(old(ts)@), name@, t@);
        assert(template_models(ts@) =~= template_models(old(ts)@).push((name@, t@)));
    }
}

/// Attempt one template expansion: resolve the template name, bind the
/// arguments, and perform the expansions.
fn instanciate_item(
    errs: &mut Record,
    templates: &Vec<(String, Template)>,
    date: Date,
    inst: &Instance,
) -> (r: Option<Entry>)
    requires
        old(errs).wf(),
        date_wf(date@),
        instance_wf(inst@),
        forall|k: int| 0 <= k < template_models(templates@).len() ==> template_wf(
            (#[trigger] template_models(templates@)[k]).1,
        ),
    ensures
        final(errs).wf(),
        ({
            let o = instance_outcome(template_models(templates@), date@, inst@);
            &&& final(errs)@ == old(errs)@ + o.1
            &&& match r {
                Some(e) => o.0 == Option::Some(e@) && entry_wf(e@),
                None => o.0 is None,
            }
        }),
{
    let templ = match find_template_exec(templates, &inst.label) {
        None => {
            let w = make_undeclared(inst);
            proof {
                assert(old(errs)@.push(w@) =~= old(errs)@ + seq![w@]);
            }
            w.register(errs);
            return None;
        },
        Some(t) => t,
    };
    let args = match build_arguments(errs, inst, templ) {
        None => {
            proof {
                assert(old(errs)@.push(errs@.last()) =~= old(errs)@ + seq![errs@.last()]);
            }
            return None;
        },
        Some(a) => a,
    };
    proof {
        lemma_found_template_wf(template_models(templates@), inst@.label);
        lemma_bindings_wf(templ@, inst@);
    }
    perform_replacements(errs, inst, templ, args, date)
}

/// The running state of an instantiation pass: the templates declared
/// so far, the entries produced so far, and the diagnostics emitted so
/// far.
pub struct InstFold {
    pub templates: Seq<(Seq<char>, TemplateV)>,
    pub entries: Seq<EntryV>,
    pub diags: Seq<ErrorV>,
}

/// One instantiation pass over the remaining items: entries are kept,
/// template definitions override earlier ones of the same name, and
/// instances are expanded against the templates declared so far.
pub open spec fn instanciate_fold(items: Seq<AstItemV>, st: InstFold) -> InstFold
    decreases items.len(),
{
    if items.len() == 0 {
        st
    } else {
        let st2 = match items[0] {
            AstItemV::Entry(e) => InstFold { entries: st.entries.push(e), ..st },
            AstItemV::Template(n, t) => InstFold {
                templates: insert_pair(st.templates, n, t),
                ..st
            },
            AstItemV::Instance(d, i) => {
                let o = instance_outcome(st.templates, d, i);
                InstFold {
                    entries: match o.0 {
                        Option::Some(e) => st.entries.push(e),
                        Option::None => st.entries,
                    },
                    diags: st.diags + o.1,
                    ..st
                }
            },
        };
        instanciate_fold(items.drop_first(), st2)
    }
}

/// A well-formed source item: entries well-formed, dates in range, and
/// amount arguments leaving room for negation.
pub open spec fn ast_item_wf(it: AstItemV) -> bool {
    match it {
        AstItemV::Entry(e) => entry_wf(e),
        AstItemV::Template(_, t) => template_wf(t),
        AstItemV::Instance(d, i) => date_wf(d) && instance_wf(i),
    }
}

/// The models of a sequence of source items.
pub open spec fn ast_models(s: Seq<AstItem>) -> Seq<AstItemV> {
    s.map_values(|it: AstItem| it@)
}

/// The initial state of an instantiation pass.
pub open spec fn inst_init() -> InstFold {
    InstFold {
        templates: Seq::<(Seq<char>, TemplateV)>::empty(),
        entries: Seq::<EntryV>::empty(),
        diags: Seq::<ErrorV>::empty(),
    }
}

/// Entries are kept, templates are collected, instances are expanded.
///
/// Template expansion may fail without it being indicated in the
/// returned entries; the caller should query `errs` to find out whether
/// every instance was correctly expanded.
pub fn instanciate(errs: &mut Record, ast: Vec<AstItem>) -> (r: Vec<Entry>)
    requires
        old(errs).wf(),
        forall|k: int| 0 <= k < ast@.len() ==> ast_item_wf((#[trigger] ast@[k])@),
    ensures
        final(errs).wf(),
        ({
            let f = instanciate_fold(ast_models(ast@), inst_init());
            &&& r@.map_values(|e: Entry| e@) == f.entries
            &&& final(errs)@ == old(errs)@ + f.diags
            &&& forall|k: int| 0 <= k < r@.len() ==> entry_wf((#[trigger] r@[k])@)
        }),
{
    let ghost orig = ast_models(ast@);
    let mut ast = ast;
    let mut entries: Vec<Entry> = Vec::new();
    let mut templates: Vec<(String, Template)> = Vec::new();
    let ghost mut gdiags: Seq<ErrorV> = Seq::<ErrorV>::empty();
    proof {
        assert(entries@.map_values(|e: Entry| e@) =~= Seq::<EntryV>::empty());
        assert(template_models(templates@) =~= Seq::<(Seq<char>, TemplateV)>::empty());
        assert(old(errs)@ + gdiags =~= old(errs)@);
    }
    while ast.len() > 0
        invariant
            errs.wf(),
            forall|k: int| 0 <= k < ast@.len() ==> ast_item_wf((#[trigger] ast@[k])@),
            forall|k: int| 0 <= k < template_models(templates@).len() ==> template_wf(
                (#[trigger] template_models(templates@)[k]).1,
            ),
            forall|k: int| 0 <= k < entries@.len() ==> entry_wf((#[trigger] entries@[k])@),
            errs@ == old(errs)@ + gdiags,
            instanciate_fold(orig, inst_init()) == instanciate_fold(
                ast_models(ast@),
                InstFold {
                    templates: template_models(templates@),
                    entries: entries@.map_values(|e: Entry| e@),
                    diags: gdiags,
                },
            ),
        decreases ast@.len(),
    {
        let ghost restm = ast_models(ast@);
        let ghost st = InstFold {
            templates: template_models(templates@),
            entries: entries@.map_values(|e: Entry| e@),
            diags: gdiags,
        };
        proof {
            assert(restm[0] == ast@[0]@);
            assert(restm.drop_first() =~= ast_models(ast@.drop_first()));
        }
        let item = ast.remove(0);
        match item {
            AstItem::Entry(e) => {
                entries.push(e);
                proof {
                    assert(entries@.map_values(|e: Entry| e@) =~= st.entries.push(
                        entries@.last()@,
                    ));
                }
            },
            AstItem::Template(name, t) => {
                insert_template(&mut templates, name, t);
                proof {
                    lemma_insert_template_wf(st.templates, restm[0]->Template_0, restm[0]->Template_1);
                }
            },
            AstItem::Instance(date, inst) => {
                let ghost e0 = errs@;
                let got = instanciate_item(errs, &templates, date, &inst);
                proof {
                    let o = instance_outcome(st.templates, date@, inst@);
                    gdiags = gdiags + o.1;
                    assert(errs@ =~= old(errs)@ + gdiags);
                }
                match got {
                    Some(e) => {
                        entries.push(e);
                        proof {
                            assert(entries@.map_values(|e: Entry| e@) =~= st.entries.push(
                                entries@.last()@,
                            ));
                        }
                    },
                    None => {},
                }
            },
        }
    }
    proof {
        assert(ast_models(ast@).len() == 0);
        assert(instanciate_fold(ast_models(ast@), instanciate_fold(orig, inst_init()))
            == instanciate_fold(orig, inst_init()));
    }
    entries
}

proof fn lemma_insert_template_wf(ts: Seq<(Seq<char>, TemplateV)>, name: Seq<char>, t: TemplateV)
    requires
        forall|k: int| 0 <= k < ts.len() ==> template_wf((#[trigger] ts[k]).1),
        template_wf(t),
    ensures
        forall|k: int|
            0 <= k < insert_pair(ts, name, t).len() ==> template_wf(
                (#[trigger] insert_pair(ts, name, t)[k]).1,
            ),
    decreases ts.len(),
{
    let r = insert_pair(ts, name, t);
    if ts.len() == 0 {
    } else if ts[0].0 == name {
        assert forall|k: int| 0 <= k < r.len() implies template_wf((#[trigger] r[k]).1) by {
            if k > 0 {
                assert(r[k] == ts[k]);
            }
        }
    } else {
        lemma_insert_template_wf(ts.drop_first(), name, t);
        assert forall|k: int| 0 <= k < r.len() implies template_wf((#[trigger] r[k]).1) by {
            if k > 0 {
                assert(r[k] == insert_pair(ts.drop_first(), name, t)[k - 1]);
            }
        }
    }
}

/// Mathematical model of a set-once field.
pub struct OnceV<T> {
    pub name: Seq<char>,
    pub hint: Seq<char>,
    pub loc: Loc,
    pub valid: bool,
    pub data: Option<T>,
}

/// A set-once field of a definition under assembly: starts unset,
/// `try_set` flags a duplicate and marks the field permanently invalid
/// if already set, `try_get` reports a missing field only when the
/// field was never set nor duplicated.
#[derive(Debug)]
pub struct Once<T> {
    name: String,
    hint: String,
    loc: Loc,
    valid: bool,
    data: Option<T>,
}

impl<T> View for Once<T> {
    type V = OnceV<T>;

    closed spec fn view(&self) -> OnceV<T> {
        OnceV {
            name: self.name@,
            hint: self.hint@,
            loc: self.loc,
            valid: self.valid,
            data: match self.data {
                Some(ref v) => Some(*v),
                None => None,
            },
        }
    }
}

/// The fatal diagnostic for a field defined twice.
pub open spec fn duplicate_field_error(loc: Loc, name: Seq<char>) -> ErrorV {
    ErrorV {
        fatal: true,
        label: "Duplicate field definition"@,
        items: seq![
            ItemV::Block(loc, "attempt to override "@ + name),
            ItemV::Text("Each field may only be defined once"@),
            ItemV::Hint("remove one of the field definitions"@),
        ],
    }
}

/// The fatal diagnostic for a field never defined.
pub open spec fn missing_field_error(loc: Loc, name: Seq<char>, hint: Seq<char>) -> ErrorV {
    ErrorV {
        fatal: true,
        label: "Missing field definition"@,
        items: seq![
            ItemV::Block(loc, "'"@ + name + "' may not be omitted"@),
            ItemV::Text("Each field must be defined once"@),
            ItemV::Hint("add definition for the missing field: '"@ + name + " "@ + hint + "'"@),
        ],
    }
}

impl<T> Once<T> {
    /// A field that was not set yet, with the example shown when it
    /// stays missing.
    pub fn new(name: &str, hint: &str, loc: Loc) -> (r: Once<T>)
        ensures
            r@.name == name@,
            r@.hint == hint@,
            r@.loc == loc,
            r@.valid,
            r@.data is None,
    {
        Once { name: name.to_owned(), hint: hint.to_owned(), loc, valid: true, data: None }
    }

    /// Set the field; a second set draws a duplicate-field diagnostic
    /// and marks the field permanently invalid.
    pub fn try_set(&mut self, val: T, errs: &mut Record)
        requires
            old(errs).wf(),
        ensures
            final(errs).wf(),
            final(self)@.data == Some(val),
            final(self)@.valid == (old(self)@.valid && old(self)@.data is None),
            final(self)@.name == old(self)@.name,
            final(self)@.hint == old(self)@.hint,
            final(self)@.loc == old(self)@.loc,
            old(self)@.data is Some ==> final(errs)@ == old(errs)@.push(
                duplicate_field_error(old(self)@.loc, old(self)@.name),
            ),
            old(self)@.data is None ==> final(errs)@ == old(errs)@,
    {
        if self.data.is_some() {
            let mut msg = String::from_str("attempt to override ");
            msg.append(self.name.as_str());
            let e = Error::new("Duplicate field definition").with_span(self.loc, msg.as_str())
                .with_text("Each field may only be defined once").with_hint(
                "remove one of the field definitions",
            );
            proof {
                assert(msg@ =~= "attempt to override "@ + self@.name);
                assert(e@.items =~= duplicate_field_error(self@.loc, self@.name).items);
            }
            e.register(errs);
            self.valid = false;
        }
        self.data = Some(val);
    }

    /// Take the field's value; a field never set draws a missing-field
    /// diagnostic, and a field that was duplicated yields nothing
    /// without reporting it missing again.
    pub fn try_get(self, errs: &mut Record) -> (r: Option<T>)
        requires
            old(errs).wf(),
        ensures
            final(errs).wf(),
            self@.valid && self@.data is Some ==> r == self@.data && final(errs)@ == old(errs)@,
            self@.valid && self@.data is None ==> r is None && final(errs)@ == old(errs)@.push(
                missing_field_error(self@.loc, self@.name, self@.hint),
            ),
            !self@.valid ==> r is None && final(errs)@ == old(errs)@,
    {
        if self.valid {
            if self.data.is_none() {
                let mut msg = String::from_str("'");
                msg.append(self.name.as_str());
                msg.append("' may not be omitted");
                let mut hint = String::from_str("add definition for the missing field: '");
                hint.append(self.name.as_str());
                hint.append(" ");
                hint.append(self.hint.as_str());
                hint.append("'");
                let e = Error::new("Missing field definition").with_span(self.loc, msg.as_str())
                    .with_text("Each field must be defined once").with_hint(hint.as_str());
                proof {
                    assert(msg@ =~= "'"@ + self@.name + "' may not be omitted"@);
                    assert(hint@ =~= "add definition for the missing field: '"@ + self@.name
                        + " "@ + self@.hint + "'"@);
                    assert(e@.items =~= missing_field_error(
                        self@.loc,
                        self@.name,
                        self@.hint,
                    ).items);
                }
                e.register(errs);
                None
            } else {
                self.data
            }
        } else {
            None
        }
    }
}

} // verus!
