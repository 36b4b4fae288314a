//! The declarative description of a decodable record: its tag, and one
//! descriptor per field saying how that field is populated from the stream.

use vstd::prelude::*;

verus! {

/// Which scalar parser a leaf value goes through.
#[derive(Clone, Copy, Debug, PartialEq, Eq, Structural)]
pub enum ScalarKind {
    /// The raw text is taken as is.
    Str,
    /// The text is looked up in the boolean token vocabulary.
    Bool,
    /// The text is parsed as a signed decimal integer.
    Int,
}

/// How one field of a record is populated.
#[derive(Clone, Copy, Debug, PartialEq, Eq, Structural)]
pub enum FieldKind {
    /// From an attribute of the record's own opening tag.
    Attribute,
    /// From a nested element, decoded with its own schema.
    Child,
    /// From the text content of a named child element, without making
    /// that child a record of its own.
    FlattenText,
    /// From the raw text content of the record's element itself.
    Text,
}

/// How many values a field takes.
#[derive(Clone, Copy, Debug, PartialEq, Eq, Structural)]
pub enum Cardinality {
    /// Exactly one, subject to the required/default policy.
    Single,
    /// Zero or one.
    Optional,
    /// Zero or more, in document order.
    Repeated,
}

/// The static rule for one record field.
#[derive(Debug)]
pub struct FieldDescriptor {
    /// The field's own name, used in error reports.
    pub name: String,
    /// Where the field's value comes from.
    pub kind: FieldKind,
    /// The matching tag (attribute key, or element tag); a `Child` field
    /// may list several alias tags.
    pub tags: Vec<String>,
    /// How many values the field takes.
    pub cardinality: Cardinality,
    /// For a `Single` field: whether an absent value falls back to the
    /// scalar kind's default instead of being an error.
    pub default_on_missing: bool,
    /// Which scalar parser the raw text goes through.
    pub scalar: ScalarKind,
    /// For a `Child` field: the index of the nested record's schema
    /// in the schema table.
    pub child_schema: usize,
}

/// The declarative description of one decodable record.
#[derive(Debug)]
pub struct RecordSchema {
    /// The record's name, used in error reports.
    pub name: String,
    /// The element tag the record matches.
    pub tag: String,
    /// Whether the record is a text element: its single `Text` field is
    /// read from the element's raw text content and no children are
    /// scanned.
    pub is_text_only: bool,
    /// The record's fields, in declaration order.
    pub fields: Vec<FieldDescriptor>,
}

/// One field descriptor is internally consistent within a table of `n`
/// schemas.
pub open spec fn wf_field(f: FieldDescriptor, n: int) -> bool {
    &&& f.tags@.len() >= 1
    &&& (f.kind == FieldKind::Attribute || f.kind == FieldKind::FlattenText || f.kind
        == FieldKind::Text ==> f.tags@.len() == 1)
    &&& (f.kind == FieldKind::Attribute || f.kind == FieldKind::Text ==> f.cardinality
        != Cardinality::Repeated)
    &&& (f.kind == FieldKind::Child ==> 0 <= f.child_schema < n && !f.default_on_missing)
}

/// One schema is internally consistent within a table of `n` schemas:
/// every field is consistent, it is marked text-only exactly when it has a
/// `Text` field, it has at most one `Text` field, and a text-only schema
/// has no `Child` or `FlattenText` field.
pub open spec fn wf_schema(s: RecordSchema, n: int) -> bool {
    &&& forall|i: int| 0 <= i < s.fields@.len() ==> wf_field(#[trigger] s.fields@[i], n)
    &&& (s.is_text_only <==> exists|i: int|
        0 <= i < s.fields@.len() && (#[trigger] s.fields@[i]).kind == FieldKind::Text)
    &&& forall|i: int, j: int|
        0 <= i < s.fields@.len() && 0 <= j < s.fields@.len() && (#[trigger] s.fields@[i]).kind
            == FieldKind::Text && (#[trigger] s.fields@[j]).kind == FieldKind::Text ==> i == j
    &&& (s.is_text_only ==> forall|i: int|
        0 <= i < s.fields@.len() ==> (#[trigger] s.fields@[i]).kind != FieldKind::Child && s.fields@[i].kind
            != FieldKind::FlattenText)
}

/// A whole schema table is consistent.
pub open spec fn wf_schema_set(ss: Seq<RecordSchema>) -> bool {
    forall|i: int| 0 <= i < ss.len() ==> wf_schema(#[trigger] ss[i], ss.len() as int)
}

} // verus!
