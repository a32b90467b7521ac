//! The closed set of configuration values.

use vstd::prelude::*;

verus! {

/// A conversion failure carried as data.
#[derive(Debug, Clone, PartialEq, Eq)]
pub struct TypedError {
    pub message: String,
    pub error_type: String,
}

/// An entry of a section of the configuration: a value, by its position
/// among the values, or a section below.
#[derive(Debug, Clone, PartialEq, Eq)]
pub enum SectionEntry {
    /// The position of a value among the values.
    ValueKey(usize),
    /// The name of a section below.
    SubSection(String),
}

/// A configuration value.
#[derive(Debug, PartialEq)]
pub enum Value {
    Array(Vec<Value>),
    String(String),
    Integer(i64),
    /// A float, as its IEEE-754 bit pattern.
    Float(u64),
    Boolean(bool),
    /// Named values, in the order in which they were met; no name occurs twice.
    Table(Vec<(String, Value)>),
    Null,
    TypedError(TypedError),
}

/// The mathematical content of a [`Value`].
pub ghost enum ValueView {
    Array(Seq<ValueView>),
    String(Seq<char>),
    Integer(i64),
    Float(u64),
    Boolean(bool),
    Table(Seq<(Seq<char>, ValueView)>),
    Null,
    TypedError { message: Seq<char>, error_type: Seq<char> },
}

/// The bits that stand for a float among the values: every NaN is the one
/// quiet NaN and negative zero is zero, so that floats that compare equal
/// have the same bits.
pub open spec fn canonical_float(bits: u64) -> u64 {
    if bits & 0x7fff_ffff_ffff_ffff > 0x7ff0_0000_0000_0000 {
        0x7ff8_0000_0000_0000
    } else if bits == 0x8000_0000_0000_0000 {
        0
    } else {
        bits
    }
}

/// Brings the bits of a float into the form in which equal floats have
/// equal bits.
pub fn canonical_float_bits(bits: u64) -> (r: u64)
    ensures
        r == canonical_float(bits),
{
    if bits & 0x7fff_ffff_ffff_ffff > 0x7ff0_0000_0000_0000 {
        0x7ff8_0000_0000_0000
    } else if bits == 0x8000_0000_0000_0000 {
        0
    } else {
        bits
    }
}

/// The content of a value.
pub open spec fn value_view(value: Value) -> ValueView
    decreases value,
{
    match value {
        Value::Array(items) => ValueView::Array(values_view(items@)),
        Value::String(s) => ValueView::String(s@),
        Value::Integer(n) => ValueView::Integer(n),
        Value::Float(bits) => ValueView::Float(bits),
        Value::Boolean(b) => ValueView::Boolean(b),
        Value::Table(entries) => ValueView::Table(pairs_view(entries@)),
        Value::Null => ValueView::Null,
        Value::TypedError(e) => ValueView::TypedError { message: e.message@, error_type: e.error_type@ },
    }
}

/// The content of each value of `items`, in order.
pub open spec fn values_view(items: Seq<Value>) -> Seq<ValueView>
    decreases items,
{
    if items.len() == 0 {
        Seq::empty()
    } else {
        values_view(items.drop_last()).push(value_view(items.last()))
    }
}

/// The content of each named value of `entries`, in order.
pub open spec fn pairs_view(entries: Seq<(String, Value)>) -> Seq<(Seq<char>, ValueView)>
    decreases entries,
{
    if entries.len() == 0 {
        Seq::empty()
    } else {
        pairs_view(entries.drop_last()).push((entries.last().0@, value_view(entries.last().1)))
    }
}

/// The names of named values, in order.
pub open spec fn pair_names(entries: Seq<(Seq<char>, ValueView)>) -> Seq<Seq<char>> {
    Seq::new(entries.len(), |i: int| entries[i].0)
}

/// Whether a value is well formed: no table in it, at any depth, holds a
/// name twice.
pub open spec fn well_formed(value: ValueView) -> bool
    decreases value,
{
    match value {
        ValueView::Array(items) => forall|i: int| 0 <= i < items.len() ==> well_formed(#[trigger] items[i]),
        ValueView::Table(entries) => {
            &&& forall|i: int, j: int|
                0 <= i < entries.len() && 0 <= j < entries.len() && i != j ==> (#[trigger] entries[i]).0
                    != (#[trigger] entries[j]).0
            &&& forall|i: int| 0 <= i < entries.len() ==> well_formed((#[trigger] entries[i]).1)
        },
        _ => true,
    }
}

/// The values of a well-formed array are well formed.
pub proof fn lemma_items_of_well_formed_array(items: Seq<ValueView>, i: int)
    requires
        well_formed(ValueView::Array(items)),
        0 <= i < items.len(),
    ensures
        well_formed(items[i]),
{
    let array = ValueView::Array(items);
    assert(array->Array_0[i] == items[i]);
}

impl View for Value {
    type V = ValueView;

    open spec fn view(&self) -> ValueView {
        value_view(*self)
    }
}

/// `values_view` works item by item.
pub proof fn lemma_values_view(items: Seq<Value>)
    ensures
        values_view(items).len() == items.len(),
        forall|i: int| 0 <= i < items.len() ==> #[trigger] values_view(items)[i] == items[i]@,
    decreases items.len(),
{
    if items.len() > 0 {
        lemma_values_view(items.drop_last());
    }
}

/// `pairs_view` works entry by entry.
pub proof fn lemma_pairs_view(entries: Seq<(String, Value)>)
    ensures
        pairs_view(entries).len() == entries.len(),
        forall|i: int|
            0 <= i < entries.len() ==> #[trigger] pairs_view(entries)[i] == (entries[i].0@, entries[i].1@),
    decreases entries.len(),
{
    if entries.len() > 0 {
        lemma_pairs_view(entries.drop_last());
    }
}

impl Value {
    pub fn duplicate(&self) -> (r: Value)
        ensures
            r@ == self@,
        decreases self,
    {
        match self {
            Value::Array(items) => {
                let mut out: Vec<Value> = Vec::new();
                let mut i: usize = 0;
                while i < items.len()
                    invariant
                        i <= items.len(),
                        out.len() == i,
                        *self == Value::Array(*items),
                        forall|j: int| 0 <= j < i ==> out@[j]@ == items@[j]@,
                    decreases items.len() - i,
                {
                    proof {
                        vstd::std_specs::vec::axiom_vec_index_decreases(*items, i as int);
                        assert(decreases_to!(*self => self->Array_0));
                    }
                    out.push(items[i].duplicate());
                    i += 1;
                }
                proof {
                    lemma_values_view(out@);
                    lemma_values_view(items@);
                    assert(values_view(out@) =~= values_view(items@));
                }
                Value::Array(out)
            },
            Value::String(s) => Value::String(s.clone()),
            Value::Integer(n) => Value::Integer(*n),
            Value::Float(bits) => Value::Float(*bits),
            Value::Boolean(b) => Value::Boolean(*b),
            Value::Table(entries) => {
                let mut out: Vec<(String, Value)> = Vec::new();
                let mut i: usize = 0;
                while i < entries.len()
                    invariant
                        i <= entries.len(),
                        out.len() == i,
                        *self == Value::Table(*entries),
                        forall|j: int| 0 <= j < i ==> out@[j].0@ == entries@[j].0@ && out@[j].1@ == entries@[j].1@,
                    decreases entries.len() - i,
                {
                    proof {
                        vstd::std_specs::vec::axiom_vec_index_decreases(*entries, i as int);
                        assert(decreases_to!(*self => self->Table_0));
                    }
                    out.push((entries[i].0.clone(), entries[i].1.duplicate()));
                    i += 1;
                }
                proof {
                    lemma_pairs_view(out@);
                    lemma_pairs_view(entries@);
                    assert(pairs_view(out@) =~= pairs_view(entries@));
                }
                Value::Table(out)
            },
            Value::Null => Value::Null,
            Value::TypedError(e) => Value::TypedError(TypedError { message: e.message.clone(), error_type: e.error_type.clone() }),
        }
    }
}

impl Clone for Value {
    fn clone(&self) -> (r: Value)
        ensures
            r@ == self@,
    {
        self.duplicate()
    }
}

} // verus!
