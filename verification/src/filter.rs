//! Comparisons of a column with typed operands, filters that name one
//! comparison for each column, and their untyped encoding.

use vstd::prelude::*;
use crate::named::{names_distinct, NamedMap};
use crate::raw::{fields_view, items_view, lemma_raw_view, RawModel, RawValue};
use crate::value::ColumnValue;

verus! {

/// A comparison: an operator with its operand or operands.
#[derive(Debug, Clone)]
pub enum Comp<T> {
    Le(T),
    Ge(T),
    Leq(T),
    Geq(T),
    Eq(T),
    Neq(T),
    In(Vec<T>),
    Nin(Vec<T>),
    Between(T, T),
}

impl<T> Comp<T> {
    /// The token that stands for the operator in the encoding.
    pub open spec fn token(self) -> Seq<char> {
        match self {
            Comp::Le(_) => "<"@,
            Comp::Ge(_) => ">"@,
            Comp::Leq(_) => "<="@,
            Comp::Geq(_) => ">="@,
            Comp::Eq(_) => "=="@,
            Comp::Neq(_) => "!="@,
            Comp::In(_) => "in"@,
            Comp::Nin(_) => "not_in"@,
            Comp::Between(_, _) => "range"@,
        }
    }

    /// The token that stands for the operator in the encoding.
    pub fn operator(&self) -> (op: &'static str)
        ensures
            op@ == self.token(),
    {
        match self {
            Comp::Le(_) => "<",
            Comp::Ge(_) => ">",
            Comp::Leq(_) => "<=",
            Comp::Geq(_) => ">=",
            Comp::Eq(_) => "==",
            Comp::Neq(_) => "!=",
            Comp::In(_) => "in",
            Comp::Nin(_) => "not_in",
            Comp::Between(_, _) => "range",
        }
    }
}

/// Whether each of the values has an untyped form.
pub open spec fn all_encodable(values: Seq<ColumnValue>) -> bool {
    forall|i: int| 0 <= i < values.len() ==> (#[trigger] values[i])@.encodable()
}

/// The untyped forms of the values, in order.
pub open spec fn untyped_all(values: Seq<ColumnValue>) -> Seq<RawModel> {
    Seq::new(values.len(), |i: int| values[i]@.untyped())
}

impl Comp<ColumnValue> {
    /// Whether each operand has an untyped form.
    pub open spec fn encodable(self) -> bool {
        match self {
            Comp::Le(v) | Comp::Ge(v) | Comp::Leq(v) | Comp::Geq(v) | Comp::Eq(v) | Comp::Neq(
                v,
            ) => v@.encodable(),
            Comp::In(vs) | Comp::Nin(vs) => all_encodable(vs@),
            Comp::Between(min, max) => min@.encodable() && max@.encodable(),
        }
    }

    /// The encoding of the operand: the value itself for a comparison with
    /// one value, the values in order for a membership test, and the pair of
    /// bounds, lower first, for a range.
    pub open spec fn operand(self) -> RawModel {
        match self {
            Comp::Le(v) | Comp::Ge(v) | Comp::Leq(v) | Comp::Geq(v) | Comp::Eq(v) | Comp::Neq(
                v,
            ) => v@.untyped(),
            Comp::In(vs) | Comp::Nin(vs) => RawModel::Array(untyped_all(vs@)),
            Comp::Between(min, max) => RawModel::Array(seq![min@.untyped(), max@.untyped()]),
        }
    }

    /// The encoding of the comparison: the pair of the operator token and
    /// the operand.
    pub open spec fn encoded(self) -> RawModel {
        RawModel::Array(seq![RawModel::String(self.token()), self.operand()])
    }

    /// Whether each operand has an untyped form.
    pub fn is_encodable(&self) -> (b: bool)
        ensures
            b == self.encodable(),
    {
        match self {
            Comp::Le(v) | Comp::Ge(v) | Comp::Leq(v) | Comp::Geq(v) | Comp::Eq(v) | Comp::Neq(
                v,
            ) => v.is_encodable(),
            Comp::In(vs) | Comp::Nin(vs) => {
                let mut i: usize = 0;
                while i < vs.len()
                    invariant
                        i <= vs@.len(),
                        self.encodable() == all_encodable(vs@),
                        forall|j: int| 0 <= j < i ==> (#[trigger] vs@[j])@.encodable(),
                    decreases vs.len() - i,
                {
                    if !vs[i].is_encodable() {
                        return false;
                    }
                    i += 1;
                }
                true
            },
            Comp::Between(min, max) => min.is_encodable() && max.is_encodable(),
        }
    }

    /// Encodes the comparison as the pair of its operator token and its
    /// operand.
    pub fn encode(&self) -> (raw: RawValue)
        requires
            self.encodable(),
        ensures
            raw@ == self.encoded(),
    {
        let operand = match self {
            Comp::Le(v) | Comp::Ge(v) | Comp::Leq(v) | Comp::Geq(v) | Comp::Eq(v) | Comp::Neq(
                v,
            ) => v.to_value(),
            Comp::In(vs) | Comp::Nin(vs) => encode_all(vs),
            Comp::Between(min, max) => {
                let mut bounds: Vec<RawValue> = Vec::new();
                bounds.push(min.to_value());
                bounds.push(max.to_value());
                let raw = RawValue::Array(bounds);
                proof {
                    lemma_raw_view(raw);
                    assert(items_view(bounds@) =~= seq![min@.untyped(), max@.untyped()]);
                }
                raw
            },
        };
        let mut pair: Vec<RawValue> = Vec::new();
        pair.push(RawValue::String(self.operator().to_owned()));
        pair.push(operand);
        let raw = RawValue::Array(pair);
        proof {
            lemma_raw_view(raw);
            assert(items_view(pair@) =~= seq![RawModel::String(self.token()), self.operand()]);
        }
        raw
    }
}

/// Encodes the values, in order, as an array.
fn encode_all(values: &Vec<ColumnValue>) -> (raw: RawValue)
    requires
        all_encodable(values@),
    ensures
        raw@ == RawModel::Array(untyped_all(values@)),
{
    let mut items: Vec<RawValue> = Vec::new();
    let mut i: usize = 0;
    while i < values.len()
        invariant
            i <= values@.len(),
            all_encodable(values@),
            items@.len() == i,
            forall|j: int| 0 <= j < i ==> (#[trigger] items@[j])@ == values@[j]@.untyped(),
        decreases values.len() - i,
    {
        items.push(values[i].to_value());
        i += 1;
    }
    let raw = RawValue::Array(items);
    proof {
        lemma_raw_view(raw);
        assert(items_view(items@) =~= untyped_all(values@));
    }
    raw
}

/// A filter: one comparison for each column that it names.
#[derive(Debug, Clone)]
pub struct Filter(NamedMap<Comp<ColumnValue>>);

impl View for Filter {
    type V = Map<Seq<char>, Comp<ColumnValue>>;

    closed spec fn view(&self) -> Map<Seq<char>, Comp<ColumnValue>> {
        self.0@
    }
}

/// The encodings of the comparisons, each under the name of its column.
pub open spec fn encoded_fields(entries: Seq<(String, Comp<ColumnValue>)>) -> Seq<
    (Seq<char>, RawModel),
> {
    Seq::new(entries.len(), |i: int| (entries[i].0@, entries[i].1.encoded()))
}

impl Filter {
    /// The columns with their comparisons, in the order in which the
    /// columns were first named.
    pub closed spec fn entries(self) -> Seq<(String, Comp<ColumnValue>)> {
        self.0.entries()
    }

    /// Whether each operand of each comparison has an untyped form.
    pub open spec fn encodable(self) -> bool {
        forall|i: int| 0 <= i < self.entries().len() ==> (#[trigger] self.entries()[i]).1.encodable()
    }

    /// The encoding of the filter: an object that holds, under the name of
    /// each column, the encoding of its comparison.
    pub open spec fn encoded(self) -> RawModel {
        RawModel::Object(encoded_fields(self.entries()))
    }

    /// A filter that names no column.
    pub fn new() -> (filter: Self)
        ensures
            filter@ == Map::<Seq<char>, Comp<ColumnValue>>::empty(),
            filter.entries() == Seq::<(String, Comp<ColumnValue>)>::empty(),
    {
        Filter(NamedMap::new())
    }

    /// Sets the comparison of a column, in place of the one it had. The
    /// column is not held against any schema.
    pub fn insert(&mut self, column: &str, comp: Comp<ColumnValue>)
        ensures
            final(self)@ == old(self)@.insert(column@, comp),
            old(self).encodable() && comp.encodable() ==> final(self).encodable(),
    {
        self.0.insert(column, comp);
        proof {
            let before = old(self).entries();
            let after = self.entries();
            if old(self).encodable() && comp.encodable() {
                assert forall|i: int| 0 <= i < after.len() implies (#[trigger] after[i]).1.encodable() by {
                    if i < before.len() {
                        assert(before[i].1.encodable());
                    } else {
                        assert(after.last() == after[i]);
                    }
                }
            }
        }
    }

    /// The number of columns that the filter names.
    pub fn len(&self) -> (n: usize)
        ensures
            n == self@.dom().len(),
            n == self.entries().len(),
    {
        self.0.len()
    }

    /// The comparison of a column, if the filter names it.
    pub fn get(&self, column: &str) -> (r: Option<&Comp<ColumnValue>>)
        ensures
            match r {
                Some(comp) => self@.contains_key(column@) && self@[column@] == *comp,
                None => !self@.contains_key(column@),
            },
    {
        self.0.get(column)
    }

    /// Whether each operand of each comparison has an untyped form.
    pub fn is_encodable(&self) -> (b: bool)
        ensures
            b == self.encodable(),
    {
        let n = self.0.len();
        let mut i: usize = 0;
        while i < n
            invariant
                i <= n,
                n == self.entries().len(),
                forall|j: int| 0 <= j < i ==> (#[trigger] self.entries()[j]).1.encodable(),
            decreases n - i,
        {
            let (_, comp) = self.0.entry(i);
            if !comp.is_encodable() {
                return false;
            }
            i += 1;
        }
        true
    }

    /// Encodes the filter as an object that holds, under the name of each
    /// column, the encoding of its comparison. A filter that names no column
    /// gives the empty object.
    pub fn encode(&self) -> (raw: RawValue)
        requires
            self.encodable(),
        ensures
            raw@ == self.encoded(),
            forall|i: int|
                0 <= i < self.entries().len() ==> self@.contains_key(
                    (#[trigger] self.entries()[i]).0@,
                ) && self@[self.entries()[i].0@] == self.entries()[i].1,
            self.entries().len() == self@.dom().len(),
    {
        let n = self.0.len();
        let mut fields: Vec<(String, RawValue)> = Vec::new();
        let mut i: usize = 0;
        while i < n
            invariant
                i <= n,
                n == self.entries().len(),
                self.encodable(),
                fields@.len() == i,
                forall|j: int|
                    0 <= j < i ==> (#[trigger] fields@[j]).0@ == self.entries()[j].0@ && fields@[j].1@
                        == self.entries()[j].1.encoded(),
                forall|j: int|
                    0 <= j < i ==> self@.contains_key((#[trigger] self.entries()[j]).0@)
                        && self@[self.entries()[j].0@] == self.entries()[j].1,
            decreases n - i,
        {
            let (name, comp) = self.0.entry(i);
            fields.push((name.clone(), comp.encode()));
            i += 1;
        }
        let raw = RawValue::Object(fields);
        proof {
            lemma_raw_view(raw);
            assert(fields_view(fields@) =~= encoded_fields(self.entries()));
        }
        raw
    }
}

} // verus!
