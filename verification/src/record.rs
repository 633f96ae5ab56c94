//! Structured, located diagnostics: a single `Error` is a labelled list
//! of source-reference blocks, notes and hints; a `Record` accumulates
//! errors over a session and renders the highest-severity class.

use crate::fmtnum::{dec_chars, usize_string};
use vstd::prelude::*;

verus! {

/// Owned location of a diagnostic: a file identifier and a byte range
/// within that file.
#[derive(Debug, Clone, Copy, PartialEq, Eq, Structural)]
pub struct Loc {
    pub file: usize,
    pub start: usize,
    pub end: usize,
}

/// Kinds of items that can be added to an error report.
#[derive(Debug, Clone, PartialEq, Eq)]
pub enum Item {
    /// reference to a source location, with a message
    Block(Loc, String),
    /// important message
    Text(String),
    /// recommendation for a fix
    Hint(String),
}

/// Mathematical model of an error item.
pub enum ItemV {
    Block(Loc, Seq<char>),
    Text(Seq<char>),
    Hint(Seq<char>),
}

impl View for Item {
    type V = ItemV;

    open spec fn view(&self) -> ItemV {
        match self {
            Item::Block(loc, msg) => ItemV::Block(*loc, msg@),
            Item::Text(msg) => ItemV::Text(msg@),
            Item::Hint(msg) => ItemV::Hint(msg@),
        }
    }
}

/// Mathematical model of a single diagnostic.
pub struct ErrorV {
    pub fatal: bool,
    pub label: Seq<char>,
    pub items: Seq<ItemV>,
}

/// Report for a single error: a severity, a one-line label, and an
/// ordered list of blocks, notes and hints.
#[derive(Debug, Clone, PartialEq, Eq)]
#[must_use]
pub struct Error {
    /// determines the error label (warning/error) and the color
    fatal: bool,
    /// name of the error
    label: String,
    /// blocks, notes and hints, in display order
    items: Vec<Item>,
}

impl View for Error {
    type V = ErrorV;

    closed spec fn view(&self) -> ErrorV {
        ErrorV {
            fatal: self.fatal,
            label: self.label@,
            items: self.items@.map_values(|i: Item| i@),
        }
    }
}

impl Error {
    /// Create a new fatal error with its label.
    pub fn new(msg: &str) -> (r: Error)
        ensures
            r@.fatal,
            r@.label == msg@,
            r@.items == Seq::<ItemV>::empty(),
    {
        let r = Error { fatal: true, label: msg.to_owned(), items: Vec::new() };
        proof {
            assert(r@.items =~= Seq::<ItemV>::empty());
        }
        r
    }

    /// Mark as a warning rather than a fatal error.
    pub fn nonfatal(self) -> (r: Error)
        ensures
            r@ == (ErrorV { fatal: false, ..self@ }),
    {
        Error { fatal: false, ..self }
    }

    /// Add a source-reference block and its associated message.
    pub fn with_span(self, loc: Loc, msg: &str) -> (r: Error)
        ensures
            r@ == (ErrorV { items: self@.items.push(ItemV::Block(loc, msg@)), ..self@ }),
    {
        let mut items = self.items;
        items.push(Item::Block(loc, msg.to_owned()));
        let r = Error { items, ..self };
        proof {
            assert(r@.items =~= self@.items.push(ItemV::Block(loc, msg@)));
        }
        r
    }

    /// Add an important note.
    pub fn with_text(self, msg: &str) -> (r: Error)
        ensures
            r@ == (ErrorV { items: self@.items.push(ItemV::Text(msg@)), ..self@ }),
    {
        let mut items = self.items;
        items.push(Item::Text(msg.to_owned()));
        let r = Error { items, ..self };
        proof {
            assert(r@.items =~= self@.items.push(ItemV::Text(msg@)));
        }
        r
    }

    /// Add a hint on how to fix.
    pub fn with_hint(self, msg: &str) -> (r: Error)
        ensures
            r@ == (ErrorV { items: self@.items.push(ItemV::Hint(msg@)), ..self@ }),
    {
        let mut items = self.items;
        items.push(Item::Hint(msg.to_owned()));
        let r = Error { items, ..self };
        proof {
            assert(r@.items =~= self@.items.push(ItemV::Hint(msg@)));
        }
        r
    }

    /// Whether the error is fatal.
    pub fn is_fatal(&self) -> (r: bool)
        ensures
            r == self@.fatal,
    {
        self.fatal
    }

    /// Record the error into an accumulator.
    pub fn register(self, record: &mut Record)
        requires
            old(record).wf(),
        ensures
            final(record)@ == old(record)@.push(self@),
            final(record).wf(),
    {
        record.push_error(self);
    }
}

/// Number of fatal diagnostics in a sequence.
pub open spec fn count_fatal(s: Seq<ErrorV>) -> int
    decreases s.len(),
{
    if s.len() == 0 {
        0
    } else {
        count_fatal(s.drop_last()) + if s.last().fatal {
            1int
        } else {
            0int
        }
    }
}

/// A collection of diagnostics for one session, appended to during
/// validation and instantiation, read at the end.
#[derive(Debug)]
#[must_use]
pub struct Record {
    /// cached number of fatal errors in `contents`
    fatal: usize,
    contents: Vec<Error>,
}

impl View for Record {
    type V = Seq<ErrorV>;

    closed spec fn view(&self) -> Seq<ErrorV> {
        self.contents@.map_values(|e: Error| e@)
    }
}

impl Record {
    /// The cached fatal count agrees with the contents.
    pub closed spec fn wf(&self) -> bool {
        self.fatal as int == count_fatal(self@)
    }

    /// Initialize a new, empty pool of errors.
    pub fn new() -> (r: Record)
        ensures
            r@ == Seq::<ErrorV>::empty(),
            r.wf(),
    {
        let r = Record { fatal: 0, contents: Vec::new() };
        proof {
            assert(r@ =~= Seq::<ErrorV>::empty());
        }
        r
    }

    /// Add an error to the pool.
    pub fn push_error(&mut self, e: Error)
        requires
            old(self).wf(),
        ensures
            final(self)@ == old(self)@.push(e@),
            final(self).wf(),
    {
        proof {
            lemma_count_fatal_bound(self@);
        }
        let ef = e.is_fatal();
        self.contents.push(e);
        proof {
            assert(self@ =~= old(self)@.push(self@.last()));
            assert(self@.drop_last() =~= old(self)@);
            lemma_count_fatal_bound(self@);
        }
        let n2 = self.contents.len();
        proof {
            assert(count_fatal(self@) <= n2);
        }
        self.fatal = if ef {
            self.fatal + 1
        } else {
            self.fatal
        };
    }

    /// Whether any of the recorded errors is fatal.
    pub fn is_fatal(&self) -> (r: bool)
        requires
            self.wf(),
        ensures
            r == (count_fatal(self@) > 0),
    {
        proof {
            lemma_count_fatal_bound(self@);
        }
        self.fatal > 0
    }

    /// Number of fatal errors.
    pub fn count_errors(&self) -> (r: usize)
        requires
            self.wf(),
        ensures
            r as int == count_fatal(self@),
    {
        self.fatal
    }

    /// Number of nonfatal warnings.
    pub fn count_warnings(&self) -> (r: usize)
        requires
            self.wf(),
        ensures
            r as int == self@.len() - count_fatal(self@),
    {
        proof {
            lemma_count_fatal_bound(self@);
        }
        self.contents.len() - self.fatal
    }

    /// How many diagnostics were recorded.
    pub fn len(&self) -> (r: usize)
        ensures
            r as int == self@.len(),
    {
        self.contents.len()
    }

    /// The recorded diagnostics, in order.
    pub fn contents(&self) -> (r: &[Error])
        ensures
            r@.len() == self@.len(),
            forall|j: int| 0 <= j < r@.len() ==> (#[trigger] r@[j])@ == self@[j],
    {
        self.contents.as_slice()
    }
}

/// One rendered item of an error report: a located block, a note, or a
/// hint, colorized with the error's severity color.
pub open spec fn item_chars(it: ItemV, color: Seq<char>) -> Seq<char> {
    match it {
        ItemV::Block(loc, msg) => " "@ + color + "|  "@ + "\x1b[0;96;1m"@ + "--> input "@
            + dec_chars(loc.file as nat) + " ["@ + dec_chars(loc.start as nat) + ".."@ + dec_chars(
            loc.end as nat,
        ) + "]"@ + "\x1b[0m"@ + " = "@ + msg + "\n"@,
        ItemV::Text(t) => " "@ + color + "|  "@ + "\x1b[0;1m"@ + t + "\x1b[0m"@ + "\n"@,
        ItemV::Hint(t) => " "@ + color + "|      "@ + "\x1b[0;96;1m"@ + "? hint: "@ + "\x1b[0m"@
            + t + "\n"@,
    }
}

/// The rendered items of an error report, in order.
pub open spec fn items_chars(items: Seq<ItemV>, color: Seq<char>) -> Seq<char>
    decreases items.len(),
{
    if items.len() == 0 {
        Seq::<char>::empty()
    } else {
        item_chars(items[0], color) + items_chars(items.drop_first(), color)
    }
}

/// A rendered error report: a colorized header line naming the severity
/// and the label, then one line per item.
pub open spec fn error_chars(e: ErrorV) -> Seq<char> {
    let color = if e.fatal {
        "\x1b[0;91;1m"@
    } else {
        "\x1b[0;93;1m"@
    };
    color + (if e.fatal {
        "--> Error"@
    } else {
        "--> Warning"@
    }) + ":"@ + "\x1b[0;1m"@ + " "@ + e.label + "\x1b[0m"@ + "\n"@ + items_chars(e.items, color)
}

/// The first `budget` diagnostics of severity `f`, each rendered and
/// followed by a blank line.
pub open spec fn render_list(s: Seq<ErrorV>, f: bool, budget: int) -> Seq<char>
    decreases s.len(),
{
    if s.len() == 0 {
        Seq::<char>::empty()
    } else if s[0].fatal == f && budget > 0 {
        error_chars(s[0]) + "\n"@ + render_list(s.drop_first(), f, budget - 1)
    } else {
        render_list(s.drop_first(), f, budget)
    }
}

/// A rendered record: the diagnostics of the highest severity present,
/// truncated to the first 10 with an `And N more` line, and a final
/// count line; empty when no diagnostic was recorded.
pub open spec fn record_chars(v: Seq<ErrorV>) -> Seq<char> {
    if v.len() == 0 {
        Seq::<char>::empty()
    } else {
        let f = count_fatal(v) > 0;
        let count = if f {
            count_fatal(v)
        } else {
            v.len() - count_fatal(v)
        };
        let color = if f {
            "\x1b[0;91;1m"@
        } else {
            "\x1b[0;93;1m"@
        };
        render_list(v, f, 10) + (if count > 10 {
            color + " And "@ + dec_chars((count - 10) as nat) + " more.\n"@
        } else {
            Seq::<char>::empty()
        }) + color + (if f {
            "Fatal: "@
        } else {
            "Nonfatal: "@
        }) + "\x1b[0;1m"@ + dec_chars(count as nat) + (if f {
            " error"@
        } else {
            " warning"@
        }) + (if count > 1 {
            "s"@
        } else {
            Seq::<char>::empty()
        }) + " emitted"@ + "\x1b[0m"@ + "\n"@
    }
}

fn append_item(it: &Item, color: &str, r: &mut String)
    ensures
        final(r)@ == old(r)@ + item_chars(it@, color@),
{
    match it {
        Item::Block(loc, msg) => {
            r.append(" ");
            r.append(color);
            r.append("|  ");
            r.append("\x1b[0;96;1m");
            r.append("--> input ");
            r.append(usize_string(loc.file).as_str());
            r.append(" [");
            r.append(usize_string(loc.start).as_str());
            r.append("..");
            r.append(usize_string(loc.end).as_str());
            r.append("]");
            r.append("\x1b[0m");
            r.append(" = ");
            r.append(msg.as_str());
            r.append("\n");
        },
        Item::Text(t) => {
            r.append(" ");
            r.append(color);
            r.append("|  ");
            r.append("\x1b[0;1m");
            r.append(t.as_str());
            r.append("\x1b[0m");
            r.append("\n");
        },
        Item::Hint(t) => {
            r.append(" ");
            r.append(color);
            r.append("|      ");
            r.append("\x1b[0;96;1m");
            r.append("? hint: ");
            r.append("\x1b[0m");
            r.append(t.as_str());
            r.append("\n");
        },
    }
    proof {
        assert(r@ =~= old(r)@ + item_chars(it@, color@));
    }
}

impl Error {
    /// Render the error as its header line followed by one line per
    /// item.
    pub fn render(&self) -> (r: String)
        ensures
            r@ == error_chars(self@),
    {
        let color: &str = if self.fatal {
            "\x1b[0;91;1m"
        } else {
            "\x1b[0;93;1m"
        };
        let mut r = color.to_owned();
        r.append(
            if self.fatal {
                "--> Error"
            } else {
                "--> Warning"
            },
        );
        r.append(":");
        r.append("\x1b[0;1m");
        r.append(" ");
        r.append(self.label.as_str());
        r.append("\x1b[0m");
        r.append("\n");
        let ghost header = r@;
        let mut i: usize = 0;
        while i < self.items.len()
            invariant
                i <= self.items@.len(),
                color@ == if self@.fatal {
                    "\x1b[0;91;1m"@
                } else {
                    "\x1b[0;93;1m"@
                },
                r@ == header + items_chars(self@.items.subrange(0, i as int), color@),
                self@.items.len() == self.items@.len(),
                forall|k: int|
                    0 <= k < self.items@.len() ==> self@.items[k] == (#[trigger] self.items@[k])@,
            decreases self.items@.len() - i,
        {
            append_item(&self.items[i], color, &mut r);
            proof {
                lemma_items_chars_snoc(self@.items.subrange(0, i as int + 1), color@);
                assert(self@.items.subrange(0, i as int + 1).drop_last() =~= self@.items.subrange(
                    0,
                    i as int,
                ));
            }
            i = i + 1;
        }
        proof {
            assert(self@.items.subrange(0, self@.items.len() as int) =~= self@.items);
        }
        r
    }
}

proof fn lemma_items_chars_snoc(items: Seq<ItemV>, color: Seq<char>)
    requires
        items.len() > 0,
    ensures
        items_chars(items, color) == items_chars(items.drop_last(), color) + item_chars(
            items.last(),
            color,
        ),
    decreases items.len(),
{
    if items.len() == 1 {
        assert(items.drop_first() =~= Seq::<ItemV>::empty());
        assert(items.drop_last() =~= Seq::<ItemV>::empty());
        assert(items_chars(items.drop_last(), color) + item_chars(items.last(), color)
            =~= item_chars(items[0], color));
    } else {
        lemma_items_chars_snoc(items.drop_first(), color);
        assert(items.drop_first().drop_last() =~= items.drop_last().drop_first());
        assert(items.drop_first().last() == items.last());
        assert(items.drop_last()[0] == items[0]);
        assert(items.drop_last().len() > 0);
        assert((item_chars(items[0], color) + items_chars(items.drop_first().drop_last(), color))
            + item_chars(items.last(), color) =~= item_chars(items[0], color) + (items_chars(
            items.drop_last().drop_first(),
            color,
        ) + item_chars(items.last(), color)));
    }
}

impl Record {
    /// Render the diagnostics of the highest severity present, truncated
    /// to the first 10, with the final count line.
    pub fn render(&self) -> (r: String)
        requires
            self.wf(),
        ensures
            r@ == record_chars(self@),
    {
        proof {
            lemma_count_fatal_bound(self@);
        }
        if self.contents.len() == 0 {
            let r = String::new();
            proof {
                assert(r@ =~= record_chars(self@));
            }
            return r;
        }
        let f = self.is_fatal();
        let count: usize = if f {
            self.count_errors()
        } else {
            self.count_warnings()
        };
        let color: &str = if f {
            "\x1b[0;91;1m"
        } else {
            "\x1b[0;93;1m"
        };
        let mut r = String::new();
        let mut budget: usize = 10;
        let mut i: usize = 0;
        proof {
            assert(self@.subrange(0, self@.len() as int) =~= self@);
        }
        while i < self.contents.len()
            invariant
                self.wf(),
                i <= self@.len(),
                budget <= 10,
                self@.len() == self.contents@.len(),
                forall|k: int|
                    0 <= k < self.contents@.len() ==> self@[k] == (#[trigger] self.contents@[k])@,
                color@ == if f {
                    "\x1b[0;91;1m"@
                } else {
                    "\x1b[0;93;1m"@
                },
                render_list(self@, f, 10) == r@ + render_list(
                    self@.subrange(i as int, self@.len() as int),
                    f,
                    budget as int,
                ),
            decreases self@.len() - i,
        {
            let ghost rest = self@.subrange(i as int, self@.len() as int);
            proof {
                assert(rest[0] == self@[i as int]);
                assert(rest.drop_first() =~= self@.subrange(i as int + 1, self@.len() as int));
            }
            if self.contents[i].is_fatal() == f && budget > 0 {
                let rendered = self.contents[i].render();
                r.append(rendered.as_str());
                r.append("\n");
                budget = budget - 1;
            }
            i = i + 1;
        }
        proof {
            assert(self@.subrange(self@.len() as int, self@.len() as int) =~= Seq::<
                ErrorV,
            >::empty());
        }
        if count > 10 {
            r.append(color);
            r.append(" And ");
            r.append(usize_string(count - 10).as_str());
            r.append(" more.\n");
        }
        r.append(color);
        r.append(
            if f {
                "Fatal: "
            } else {
                "Nonfatal: "
            },
        );
        r.append("\x1b[0;1m");
        r.append(usize_string(count).as_str());
        r.append(
            if f {
                " error"
            } else {
                " warning"
            },
        );
        if count > 1 {
            r.append("s");
        }
        r.append(" emitted");
        r.append("\x1b[0m");
        r.append("\n");
        proof {
            assert(r@ =~= record_chars(self@));
        }
        r
    }
}

proof fn lemma_count_fatal_bound(s: Seq<ErrorV>)
    ensures
        0 <= count_fatal(s) <= s.len(),
    decreases s.len(),
{
    if s.len() > 0 {
        lemma_count_fatal_bound(s.drop_last());
    }
}

} // verus!
