//! Property values.
//!
//! The destination keeps a bag of typed properties per record.  The engine
//! treats them as one closed sum type: the same type stands for a stored
//! value and for a candidate write, since the engine never writes anything
//! a record could not store.  Rich text is modelled as its sequence of
//! plain-text runs — formatting is never written by the engine, and
//! comparison goes by the concatenated plain text alone.

use vstd::prelude::*;

use crate::dates::{Date, Instant};

verus! {

/// One bound of a stored date range: a pure date or a UTC instant.
#[derive(Clone, Copy, PartialEq, Eq, Structural, Debug)]
pub enum DateStamp {
    Day(Date),
    At(Instant),
}

/// A stored date range.  `end` is inclusive; a missing `end` is the
/// destination's convention for a single-day range.
#[derive(Clone, Copy, PartialEq, Eq, Debug)]
pub struct DateValue {
    pub start: DateStamp,
    pub end: Option<DateStamp>,
}

/// A property value: either the stored value of a destination record or a
/// candidate write derived from a source event.
#[derive(Debug)]
pub enum Value {
    /// The record's title, as rich-text runs.
    Title { runs: Vec<String> },
    /// Plain rich text, as runs.
    Text { runs: Vec<String> },
    Number { num: i64 },
    Checkbox { flag: bool },
    Url { url: String },
    Email { addr: String },
    PhoneNumber { phone: String },
    Relation { ids: Vec<String> },
    People { ids: Vec<String> },
    Files { names: Vec<String> },
    Date { range: Option<DateValue> },
}

/// The mathematical shape of a property value.
pub ghost enum ValueV {
    Title { runs: Seq<Seq<char>> },
    Text { runs: Seq<Seq<char>> },
    Number { num: int },
    Checkbox { flag: bool },
    Url { url: Seq<char> },
    Email { addr: Seq<char> },
    PhoneNumber { phone: Seq<char> },
    Relation { ids: Seq<Seq<char>> },
    People { ids: Seq<Seq<char>> },
    Files { names: Seq<Seq<char>> },
    Date { range: Option<DateValue> },
}

/// The views of a sequence of strings.
pub open spec fn views_of(s: Seq<String>) -> Seq<Seq<char>> {
    s.map_values(|x: String| x@)
}

impl View for Value {
    type V = ValueV;

    open spec fn view(&self) -> ValueV {
        match self {
            Value::Title { runs } => ValueV::Title { runs: views_of(runs@) },
            Value::Text { runs } => ValueV::Text { runs: views_of(runs@) },
            Value::Number { num } => ValueV::Number { num: *num as int },
            Value::Checkbox { flag } => ValueV::Checkbox { flag: *flag },
            Value::Url { url } => ValueV::Url { url: url@ },
            Value::Email { addr } => ValueV::Email { addr: addr@ },
            Value::PhoneNumber { phone } => ValueV::PhoneNumber { phone: phone@ },
            Value::Relation { ids } => ValueV::Relation { ids: views_of(ids@) },
            Value::People { ids } => ValueV::People { ids: views_of(ids@) },
            Value::Files { names } => ValueV::Files { names: views_of(names@) },
            Value::Date { range } => ValueV::Date { range: *range },
        }
    }
}

/// Concatenation of rich-text runs: the plain text a reader sees.
pub open spec fn flat(runs: Seq<Seq<char>>) -> Seq<char>
    decreases runs.len(),
{
    if runs.len() == 0 {
        Seq::empty()
    } else {
        flat(runs.drop_last()) + runs.last()
    }
}

/// Whether two values carry the same kind of property, so that a
/// field-level comparison between them is meaningful.
pub open spec fn same_kind(a: ValueV, b: ValueV) -> bool {
    match (a, b) {
        (ValueV::Title { .. }, ValueV::Title { .. }) => true,
        (ValueV::Text { .. }, ValueV::Text { .. }) => true,
        (ValueV::Number { .. }, ValueV::Number { .. }) => true,
        (ValueV::Checkbox { .. }, ValueV::Checkbox { .. }) => true,
        (ValueV::Url { .. }, ValueV::Url { .. }) => true,
        (ValueV::Email { .. }, ValueV::Email { .. }) => true,
        (ValueV::PhoneNumber { .. }, ValueV::PhoneNumber { .. }) => true,
        (ValueV::Relation { .. }, ValueV::Relation { .. }) => true,
        (ValueV::People { .. }, ValueV::People { .. }) => true,
        (ValueV::Files { .. }, ValueV::Files { .. }) => true,
        (ValueV::Date { .. }, ValueV::Date { .. }) => true,
        _ => false,
    }
}

/// Whether a stored value already agrees with a candidate write, so that
/// writing the candidate would change nothing a reader can see.  Rich text
/// compares by concatenated plain text; everything else by value.
/// Meaningful only for values of the same kind; `false` otherwise.
pub open spec fn equiv(a: ValueV, b: ValueV) -> bool {
    match (a, b) {
        (ValueV::Title { runs: x }, ValueV::Title { runs: y }) => flat(x) == flat(y),
        (ValueV::Text { runs: x }, ValueV::Text { runs: y }) => flat(x) == flat(y),
        (ValueV::Number { num: x }, ValueV::Number { num: y }) => x == y,
        (ValueV::Checkbox { flag: x }, ValueV::Checkbox { flag: y }) => x == y,
        (ValueV::Url { url: x }, ValueV::Url { url: y }) => x == y,
        (ValueV::Email { addr: x }, ValueV::Email { addr: y }) => x == y,
        (ValueV::PhoneNumber { phone: x }, ValueV::PhoneNumber { phone: y }) => x == y,
        (ValueV::Relation { ids: x }, ValueV::Relation { ids: y }) => x == y,
        (ValueV::People { ids: x }, ValueV::People { ids: y }) => x == y,
        (ValueV::Files { names: x }, ValueV::Files { names: y }) => x == y,
        (ValueV::Date { range: x }, ValueV::Date { range: y }) => x == y,
        _ => false,
    }
}

/// A value agrees with itself: writing a value over an identical stored
/// value never counts as a change.
pub proof fn lemma_equiv_reflexive(a: ValueV)
    ensures
        same_kind(a, a),
        equiv(a, a),
{
}

/// Concatenate rich-text runs into their plain text.
pub fn flatten(runs: &Vec<String>) -> (r: String)
    ensures
        r@ == flat(views_of(runs@)),
{
    let mut acc = String::new();
    let mut i: usize = 0;
    while i < runs.len()
        invariant
            i <= runs.len(),
            acc@ == flat(views_of(runs@).take(i as int)),
        decreases runs.len() - i,
    {
        proof {
            let v = views_of(runs@);
            assert(v.take(i + 1).drop_last() =~= v.take(i as int));
            assert(v.take(i + 1).last() == runs@[i as int]@);
        }
        acc.append(runs[i].as_str());
        i = i + 1;
    }
    proof {
        assert(views_of(runs@).take(runs@.len() as int) =~= views_of(runs@));
    }
    acc
}

/// Compare two run lists by their concatenated plain text.
fn flat_equal(a: &Vec<String>, b: &Vec<String>) -> (r: bool)
    ensures
        r == (flat(views_of(a@)) == flat(views_of(b@))),
{
    let fa = flatten(a);
    let fb = flatten(b);
    fa == fb
}

/// Compare two string lists element by element.
fn strings_equal(a: &Vec<String>, b: &Vec<String>) -> (r: bool)
    ensures
        r == (views_of(a@) == views_of(b@)),
{
    if a.len() != b.len() {
        proof {
            assert(views_of(a@).len() != views_of(b@).len());
        }
        return false;
    }
    let mut i: usize = 0;
    while i < a.len()
        invariant
            i <= a.len(),
            a@.len() == b@.len(),
            forall|j: int| 0 <= j < i ==> views_of(a@)[j] == views_of(b@)[j],
        decreases a.len() - i,
    {
        if !(a[i] == b[i]) {
            proof {
                assert(views_of(a@)[i as int] != views_of(b@)[i as int]);
            }
            return false;
        }
        proof {
            assert(views_of(a@)[i as int] == views_of(b@)[i as int]);
        }
        i = i + 1;
    }
    proof {
        assert(views_of(a@) =~= views_of(b@));
    }
    true
}

/// Compare two date-range bounds.
fn stamp_equal(a: &DateStamp, b: &DateStamp) -> (r: bool)
    ensures
        r == (a == b),
{
    *a == *b
}

/// Compare two stored date ranges structurally.
fn date_value_equal(a: &DateValue, b: &DateValue) -> (r: bool)
    ensures
        r == (a == b),
{
    let starts = stamp_equal(&a.start, &b.start);
    match (&a.end, &b.end) {
        (Some(x), Some(y)) => starts && stamp_equal(x, y),
        (None, None) => starts,
        _ => false,
    }
}

/// Compare two values of the same kind; `None` when the kinds differ and
/// no comparison is possible.
pub fn value_equiv(a: &Value, b: &Value) -> (r: Option<bool>)
    ensures
        r is Some <==> same_kind(a@, b@),
        r is Some ==> r->Some_0 == equiv(a@, b@),
{
    match (a, b) {
        (Value::Title { runs: x }, Value::Title { runs: y }) => Some(flat_equal(x, y)),
        (Value::Text { runs: x }, Value::Text { runs: y }) => Some(flat_equal(x, y)),
        (Value::Number { num: x }, Value::Number { num: y }) => Some(*x == *y),
        (Value::Checkbox { flag: x }, Value::Checkbox { flag: y }) => Some(*x == *y),
        (Value::Url { url: x }, Value::Url { url: y }) => Some(*x == *y),
        (Value::Email { addr: x }, Value::Email { addr: y }) => Some(*x == *y),
        (Value::PhoneNumber { phone: x }, Value::PhoneNumber { phone: y }) => Some(*x == *y),
        (Value::Relation { ids: x }, Value::Relation { ids: y }) => Some(strings_equal(x, y)),
        (Value::People { ids: x }, Value::People { ids: y }) => Some(strings_equal(x, y)),
        (Value::Files { names: x }, Value::Files { names: y }) => Some(strings_equal(x, y)),
        (Value::Date { range: x }, Value::Date { range: y }) => {
            match (x, y) {
                (Some(dx), Some(dy)) => Some(date_value_equal(dx, dy)),
                (None, None) => Some(true),
                _ => Some(false),
            }
        },
        _ => None,
    }
}

/// A single-run rich-text value, the only shape of text the engine writes.
pub fn text_value(text: String) -> (v: Value)
    ensures
        v@ == (ValueV::Text { runs: seq![text@] }),
{
    let ghost t = text@;
    let runs = vec![text];
    proof {
        assert(views_of(runs@) =~= seq![t]);
    }
    Value::Text { runs }
}

/// A single-run title value.
pub fn title_value(text: String) -> (v: Value)
    ensures
        v@ == (ValueV::Title { runs: seq![text@] }),
{
    let ghost t = text@;
    let runs = vec![text];
    proof {
        assert(views_of(runs@) =~= seq![t]);
    }
    Value::Title { runs }
}

/// A date property carrying the given range.
pub fn date_value(d: DateValue) -> (v: Value)
    ensures
        v@ == (ValueV::Date { range: Some(d) }),
{
    Value::Date { range: Some(d) }
}

} // verus!
