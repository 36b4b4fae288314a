//! Decoded values: scalars, nested records, and the per-field results,
//! together with their mathematical models.

use vstd::prelude::*;

use crate::schema::ScalarKind;

verus! {

broadcast use vstd::std_specs::vec::group_vec_axioms;

/// A decoded leaf value.
#[derive(Debug, PartialEq)]
pub enum Scalar {
    /// Raw text, taken as is.
    Str(String),
    /// A boolean, from the token vocabulary.
    Bool(bool),
    /// A signed decimal integer.
    Int(i64),
}

/// One decoded value: a scalar or a nested record.
#[derive(Debug, PartialEq)]
pub enum Item {
    Scalar(Scalar),
    Rec(Record),
}

/// The resolved value of one field, by its cardinality.
#[derive(Debug, PartialEq)]
pub enum FieldValue {
    /// A `Single` field's value.
    One(Item),
    /// An `Optional` field's value, absent when the tag never appeared.
    Opt(Option<Item>),
    /// A `Repeated` field's values, in document order.
    Many(Vec<Item>),
}

/// A fully populated record: one resolved value per schema field, in
/// declaration order.
#[derive(Debug, PartialEq)]
pub struct Record {
    pub name: String,
    pub values: Vec<FieldValue>,
}

/// The model of a scalar: text as a sequence of characters.
pub enum ScalarV {
    Str(Seq<char>),
    Bool(bool),
    Int(i64),
}

/// The model of an item.
pub enum ItemV {
    Scalar(ScalarV),
    Rec(RecordV),
}

/// The model of a resolved field value.
pub enum FieldValueV {
    One(ItemV),
    Opt(Option<ItemV>),
    Many(Seq<ItemV>),
}

/// The model of a record.
pub struct RecordV {
    pub name: Seq<char>,
    pub values: Seq<FieldValueV>,
}

/// The model of a scalar value.
pub open spec fn view_scalar(s: Scalar) -> ScalarV {
    match s {
        Scalar::Str(t) => ScalarV::Str(t@),
        Scalar::Bool(b) => ScalarV::Bool(b),
        Scalar::Int(n) => ScalarV::Int(n),
    }
}

/// The model of an item.
pub open spec fn view_item(it: Item) -> ItemV
    decreases it,
{
    match it {
        Item::Scalar(s) => ItemV::Scalar(view_scalar(s)),
        Item::Rec(r) => ItemV::Rec(view_record(r)),
    }
}

/// The model of a sequence of items, kept in order.
pub open spec fn view_items(v: Vec<Item>) -> Seq<ItemV>
    decreases v,
{
    Seq::new(
        v@.len(),
        |i: int|
            if 0 <= i < v@.len() {
                view_item(v[i])
            } else {
                ItemV::Scalar(ScalarV::Bool(false))
            },
    )
}

/// The model of a resolved field value.
pub open spec fn view_field_value(fv: FieldValue) -> FieldValueV
    decreases fv,
{
    match fv {
        FieldValue::One(it) => FieldValueV::One(view_item(it)),
        FieldValue::Opt(o) => FieldValueV::Opt(
            match o {
                Some(it) => Some(view_item(it)),
                None => None,
            },
        ),
        FieldValue::Many(v) => FieldValueV::Many(view_items(v)),
    }
}

/// The models of a record's resolved field values, in declaration order.
pub open spec fn view_field_values(v: Vec<FieldValue>) -> Seq<FieldValueV>
    decreases v,
{
    Seq::new(
        v@.len(),
        |i: int|
            if 0 <= i < v@.len() {
                view_field_value(v[i])
            } else {
                FieldValueV::Opt(None)
            },
    )
}

/// The model of a record.
pub open spec fn view_record(r: Record) -> RecordV
    decreases r,
{
    RecordV { name: r.name@, values: view_field_values(r.values) }
}

/// The default value of a scalar kind: empty text, `false`, or zero.
pub open spec fn scalar_default_v(k: ScalarKind) -> ScalarV {
    match k {
        ScalarKind::Str => ScalarV::Str(Seq::empty()),
        ScalarKind::Bool => ScalarV::Bool(false),
        ScalarKind::Int => ScalarV::Int(0),
    }
}

/// The default value of a scalar kind, as a decoded scalar.
pub fn scalar_default(k: ScalarKind) -> (s: Scalar)
    ensures
        view_scalar(s) == scalar_default_v(k),
{
    match k {
        ScalarKind::Str => Scalar::Str(String::new()),
        ScalarKind::Bool => Scalar::Bool(false),
        ScalarKind::Int => Scalar::Int(0),
    }
}

} // verus!
