//! The decoder's general laws, stated over the model and proved once for
//! all inputs: the boolean vocabulary, the required/default policy at
//! finalization, the forward-compatibility of unknown content, and the
//! storage policies.

use vstd::prelude::*;

use crate::model::{
    attr_field_index, child_field_index, child_loop_v, find_elem_v, finalize_fields, finalize_v,
    flatten_field_index, lemma_child_loop_frame, lemma_find_elem_advances, lemma_find_elem_texts,
    lemma_find_elem_texts_prefix, lemma_run_attrs_advances, lemma_scan_end_advances, resolve_field_v,
    run_attrs, scan_end,
    store_v, suffixes_match, AccV, ErrorV, FindV,
};
use crate::scalar::{falsy, parse_scalar_v, truthy};
use crate::schema::{Cardinality, FieldDescriptor, RecordSchema, ScalarKind};
use crate::value::{scalar_default_v, FieldValueV, ItemV, RecordV, ScalarV};
use crate::events::Event;

verus! {

/// Whether field `j` would be reported missing: a `Single` field without
/// `default_on_missing` that no value ever reached.
pub open spec fn missing_at(fields: Seq<FieldDescriptor>, acc: Seq<AccV>, j: int) -> bool {
    &&& fields[j].cardinality == Cardinality::Single
    &&& !fields[j].default_on_missing
    &&& !(acc[j] matches AccV::OneV(it))
}

/// Boolean parsing over the recognized token vocabulary: every truthy
/// token decodes to `true`, every falsy token to `false`, and every
/// other token fails.
pub proof fn lemma_bool_vocabulary(s: Seq<char>)
    ensures
        truthy(s) ==> parse_scalar_v(ScalarKind::Bool, s) == Some(ScalarV::Bool(true)),
        falsy(s) ==> parse_scalar_v(ScalarKind::Bool, s) == Some(ScalarV::Bool(false)),
        !truthy(s) && !falsy(s) ==> parse_scalar_v(ScalarKind::Bool, s) is None,
{
    reveal_strlit("t");
    reveal_strlit("true");
    reveal_strlit("y");
    reveal_strlit("yes");
    reveal_strlit("on");
    reveal_strlit("1");
    reveal_strlit("f");
    reveal_strlit("false");
    reveal_strlit("n");
    reveal_strlit("no");
    reveal_strlit("off");
    reveal_strlit("0");
}

/// Finalization from `k` on fails with `MissingField` naming the first
/// missing field.
proof fn lemma_missing_from(
    fields: Seq<FieldDescriptor>,
    rname: Seq<char>,
    acc: Seq<AccV>,
    k: int,
    i: int,
)
    requires
        0 <= k <= i < fields.len(),
        acc.len() == fields.len(),
        missing_at(fields, acc, i),
        forall|j: int| k <= j < i ==> !missing_at(fields, acc, j),
    ensures
        finalize_fields(fields, rname, acc, k) == Err::<Seq<FieldValueV>, ErrorV>(
            ErrorV::MissingField { record: rname, field: fields[i].name@ },
        ),
    decreases i - k,
{
    if k == i {
        assert(resolve_field_v(fields[i], rname, acc[i]) matches Err(e) && e
            == ErrorV::MissingField { record: rname, field: fields[i].name@ });
    } else {
        assert(!missing_at(fields, acc, k));
        assert(resolve_field_v(fields[k], rname, acc[k]) is Ok);
        lemma_missing_from(fields, rname, acc, k + 1, i);
    }
}

/// A decode whose accumulator leaves some `Single`, non-defaulted field
/// without a value fails at finalization with `MissingField`, naming the
/// record and the first such field.
pub proof fn lemma_missing_required_field(schema: RecordSchema, acc: Seq<AccV>, i: int)
    requires
        0 <= i < schema.fields@.len(),
        acc.len() == schema.fields@.len(),
        missing_at(schema.fields@, acc, i),
        forall|j: int| 0 <= j < i ==> !missing_at(schema.fields@, acc, j),
    ensures
        finalize_v(schema, acc) == Err::<RecordV, ErrorV>(
            ErrorV::MissingField { record: schema.name@, field: schema.fields@[i].name@ },
        ),
{
    lemma_missing_from(schema.fields@, schema.name@, acc, 0, i);
}

/// When no field is missing, finalization from `k` on succeeds, and each
/// field resolves to its accumulated value.
proof fn lemma_finalize_ok_from(
    fields: Seq<FieldDescriptor>,
    rname: Seq<char>,
    acc: Seq<AccV>,
    k: int,
)
    requires
        0 <= k <= fields.len(),
        acc.len() == fields.len(),
        forall|j: int| k <= j < fields.len() ==> !missing_at(fields, acc, j),
    ensures
        finalize_fields(fields, rname, acc, k) matches Ok(vs) && vs.len() == fields.len() - k
            && forall|j: int|
            k <= j < fields.len() ==> (resolve_field_v(#[trigger] fields[j], rname, acc[j])
                matches Ok(v) && vs[j - k] == v),
    decreases fields.len() - k,
{
    if k < fields.len() {
        assert(!missing_at(fields, acc, k));
        assert(resolve_field_v(fields[k], rname, acc[k]) is Ok);
        lemma_finalize_ok_from(fields, rname, acc, k + 1);
        let v0 = match resolve_field_v(fields[k], rname, acc[k]) {
            Ok(v) => v,
            Err(e) => FieldValueV::Opt(None),
        };
        let rest = match finalize_fields(fields, rname, acc, k + 1) {
            Ok(vs) => vs,
            Err(e) => Seq::empty(),
        };
        let vs = seq![v0] + rest;
        assert(finalize_fields(fields, rname, acc, k) == Ok::<Seq<FieldValueV>, ErrorV>(vs));
        assert forall|j: int| k <= j < fields.len() implies (resolve_field_v(
            #[trigger] fields[j],
            rname,
            acc[j],
        ) matches Ok(v) && vs[j - k] == v) by {
            if j == k {
                assert(vs[0] == v0);
            } else {
                assert(vs[j - k] == rest[j - k - 1]);
            }
        }
    }
}

/// When every required field got a value, finalization succeeds, and
/// every field keeps what decoding accumulated: a set `Single` or
/// `Optional` field its last value, an unset `Optional` field absence, a
/// defaulted unset `Single` field its default, and a `Repeated` field its
/// sequence in document order.
pub proof fn lemma_finalize_success(schema: RecordSchema, acc: Seq<AccV>)
    requires
        acc.len() == schema.fields@.len(),
        forall|j: int| 0 <= j < schema.fields@.len() ==> !missing_at(schema.fields@, acc, j),
    ensures
        finalize_v(schema, acc) matches Ok(rv) && rv.name == schema.name@ && rv.values.len()
            == schema.fields@.len() && forall|j: int|
            0 <= j < schema.fields@.len() ==> (resolve_field_v(
                #[trigger] schema.fields@[j],
                schema.name@,
                acc[j],
            ) matches Ok(v) && rv.values[j] == v),
{
    lemma_finalize_ok_from(schema.fields@, schema.name@, acc, 0);
}

/// A `Single` field with `default_on_missing` that stayed unset does not
/// fail: when nothing else is missing the record succeeds, and that field
/// equals its scalar kind's default.
pub proof fn lemma_default_on_missing(schema: RecordSchema, acc: Seq<AccV>, i: int)
    requires
        0 <= i < schema.fields@.len(),
        acc.len() == schema.fields@.len(),
        schema.fields@[i].cardinality == Cardinality::Single,
        schema.fields@[i].default_on_missing,
        !(acc[i] matches AccV::OneV(it)),
        forall|j: int| 0 <= j < schema.fields@.len() ==> !missing_at(schema.fields@, acc, j),
    ensures
        finalize_v(schema, acc) matches Ok(rv) && rv.values[i] == FieldValueV::One(
            ItemV::Scalar(scalar_default_v(schema.fields@[i].scalar)),
        ),
{
    lemma_finalize_success(schema, acc);
}

/// Where the attribute dispatch finds a field, that field is an
/// attribute field whose tag is the key looked up.
proof fn lemma_attr_index_match(fields: Seq<FieldDescriptor>, key: Seq<char>, s: int)
    requires
        0 <= s,
    ensures
        attr_field_index(fields, key, s) >= 0 ==> s <= attr_field_index(fields, key, s)
            < fields.len() && fields[attr_field_index(fields, key, s)].tags@.len() >= 1 && fields[
            attr_field_index(fields, key, s)
        ].tags@[0]@ == key,
    decreases fields.len() - s,
{
    if s < fields.len() {
        lemma_attr_index_match(fields, key, s + 1);
    }
}

/// The raw text of the last attribute with the given key among
/// `events[pos .. end)`, if any.
pub open spec fn last_attr_value(events: Seq<Event>, pos: int, end: int, key: Seq<char>) -> Option<
    Seq<char>,
>
    decreases end - pos,
{
    if pos >= end {
        None
    } else {
        let rest = last_attr_value(events, pos + 1, end, key);
        if rest is Some {
            rest
        } else {
            match events[pos] {
                Event::Attr(k, v) => if k@ == key {
                    Some(v@)
                } else {
                    None
                },
                _ => None,
            }
        }
    }
}

/// An attribute field holds its source value: after the attribute phase,
/// a field that is the match for its own key holds the parse of the last
/// attribute with that key in the consumed region — or stands untouched
/// when the key never appeared.
pub proof fn lemma_attribute_source_value(
    fields: Seq<FieldDescriptor>,
    rname: Seq<char>,
    acc: Seq<AccV>,
    events: Seq<Event>,
    pos: int,
    i: int,
)
    requires
        0 <= pos <= events.len(),
        0 <= i < fields.len(),
        acc.len() == fields.len(),
        fields[i].tags@.len() >= 1,
        attr_field_index(fields, fields[i].tags@[0]@, 0) == i,
        fields[i].cardinality != Cardinality::Repeated,
    ensures
        run_attrs(fields, rname, acc, events, pos) matches Ok(r) ==> match last_attr_value(
            events,
            pos,
            r.1,
            fields[i].tags@[0]@,
        ) {
            Some(raw) => parse_scalar_v(fields[i].scalar, raw) matches Some(sv) && r.0[i]
                == AccV::OneV(ItemV::Scalar(sv)),
            None => r.0[i] == acc[i],
        },
    decreases events.len() - pos,
{
    let key = fields[i].tags@[0]@;
    if pos < events.len() {
        match events[pos] {
            Event::Attr(k, v) => {
                let j = attr_field_index(fields, k@, 0);
                lemma_attr_index_match(fields, k@, 0);
                if j < 0 {
                    assert(k@ != key);
                    lemma_attribute_source_value(fields, rname, acc, events, pos + 1, i);
                } else {
                    match parse_scalar_v(fields[j].scalar, v@) {
                        None => {},
                        Some(sv) => {
                            let acc2 = store_v(acc, j, ItemV::Scalar(sv), fields[j].cardinality);
                            lemma_attribute_source_value(fields, rname, acc2, events, pos + 1, i);
                            assert(run_attrs(fields, rname, acc, events, pos) == run_attrs(
                                fields,
                                rname,
                                acc2,
                                events,
                                pos + 1,
                            ));
                            if j == i {
                                assert(k@ == key);
                                assert(fields[i].cardinality != Cardinality::Repeated);
                                assert(acc2[i] == AccV::OneV(ItemV::Scalar(sv)));
                                match run_attrs(fields, rname, acc2, events, pos + 1) {
                                    Ok(r) => {
                                        match last_attr_value(events, pos + 1, r.1, key) {
                                            Some(raw) => {
                                                assert(last_attr_value(events, pos, r.1, key)
                                                    == Some(raw));
                                            },
                                            None => {
                                                assert(pos < r.1) by {
                                                    lemma_run_attrs_advances(
                                                        fields,
                                                        rname,
                                                        acc2,
                                                        events,
                                                        pos + 1,
                                                    );
                                                }
                                                assert(last_attr_value(events, pos, r.1, key)
                                                    == Some(v@));
                                            },
                                        }
                                    },
                                    Err(_e) => {},
                                }
                            } else {
                                assert(k@ != key);
                                assert(acc2[i] == acc[i]);
                            }
                        },
                    }
                }
            },
            _ => {},
        }
    }
}

/// An unknown attribute is ignored, never an error: the attribute phase
/// standing on an attribute event whose key matches no attribute field
/// equals the attribute phase resumed just past that event.
pub proof fn lemma_unknown_attribute_ignored(
    fields: Seq<FieldDescriptor>,
    rname: Seq<char>,
    acc: Seq<AccV>,
    events: Seq<Event>,
    pos: int,
)
    requires
        0 <= pos < events.len(),
        match events[pos] {
            Event::Attr(k, v) => attr_field_index(fields, k@, 0) < 0,
            _ => false,
        },
    ensures
        run_attrs(fields, rname, acc, events, pos) == run_attrs(fields, rname, acc, events, pos + 1),
{
}

/// An unknown child element is skipped whole, never an error: when the
/// found child's tag matches no child and no flattened-text field, the
/// child loop equals the child loop resumed just past that child's
/// entire subtree.
pub proof fn lemma_unknown_child_skipped(
    schemas: Seq<RecordSchema>,
    idx: int,
    tag: Seq<char>,
    acc: Seq<AccV>,
    events: Seq<Event>,
    pos: int,
    se: int,
)
    requires
        0 <= pos <= events.len(),
        match find_elem_v(events, tag, pos) {
            FindV::FoundV(t, p) => child_field_index(schemas[idx].fields@, t, 0) < 0
                && flatten_field_index(schemas[idx].fields@, t, 0) < 0 && scan_end(
                events,
                p,
                true,
                0,
            ) == Some(se),
            _ => false,
        },
    ensures
        child_loop_v(schemas, idx, tag, acc, events, pos) == child_loop_v(
            schemas,
            idx,
            tag,
            acc,
            events,
            se,
        ),
{
    match find_elem_v(events, tag, pos) {
        FindV::FoundV(t, p) => {
            lemma_scan_end_advances(events, p, true, 0);
        },
        _ => {},
    }
}

/// Skipping is transparent: cutting an unknown child element — its whole
/// subtree, from its start tag through its matching close — out of the
/// input leaves the decoded result identical.
pub proof fn lemma_removing_unknown_child(
    schemas: Seq<RecordSchema>,
    idx: int,
    tag: Seq<char>,
    acc: Seq<AccV>,
    events: Seq<Event>,
    pos: int,
    se: int,
)
    requires
        0 <= pos <= events.len(),
        match find_elem_v(events, tag, pos) {
            FindV::FoundV(t, q) => child_field_index(schemas[idx].fields@, t, 0) < 0
                && flatten_field_index(schemas[idx].fields@, t, 0) < 0 && scan_end(
                events,
                q,
                true,
                0,
            ) == Some(se),
            _ => false,
        },
    ensures
        match find_elem_v(events, tag, pos) {
            FindV::FoundV(t, q) => child_loop_v(schemas, idx, tag, acc, events, pos)
                == child_loop_v(
                schemas,
                idx,
                tag,
                acc,
                events.take(q - 1) + events.skip(se),
                pos,
            ),
            _ => true,
        },
{
    match find_elem_v(events, tag, pos) {
        FindV::FoundV(t, q) => {
            lemma_find_elem_advances(events, tag, pos);
            lemma_scan_end_advances(events, q, true, 0);
            lemma_find_elem_texts(events, tag, pos);
            let e2 = events.take(q - 1) + events.skip(se);
            lemma_unknown_child_skipped(schemas, idx, tag, acc, events, pos, se);
            assert(e2.len() == (q - 1) + (events.len() - se));
            assert forall|k: int| 0 <= k < e2.len() - (q - 1) implies #[trigger] e2[q - 1 + k]
                == events[se + k] by {
                assert(e2[q - 1 + k] == events.skip(se)[k]);
            }
            assert(suffixes_match(e2, q - 1, events, se));
            lemma_child_loop_frame(schemas, idx, tag, acc, e2, q - 1, events, se);
            assert forall|j: int| pos <= j < q - 1 implies (#[trigger] e2[j]) matches Event::Text(
                x,
            ) by {
                assert(e2[j] == events.take(q - 1)[j]);
                assert(events[j] matches Event::Text(x));
            }
            lemma_find_elem_texts_prefix(e2, tag, pos, q - 1);
            assert(child_loop_v(schemas, idx, tag, acc, e2, pos) == child_loop_v(
                schemas,
                idx,
                tag,
                acc,
                e2,
                q - 1,
            ));
        },
        _ => {},
    }
}

/// Storing into a `Repeated` field appends at the end: document order is
/// preserved and earlier values stay.
pub proof fn lemma_repeated_store_appends(acc: Seq<AccV>, i: int, it: ItemV)
    requires
        0 <= i < acc.len(),
        acc[i] matches AccV::ManyV(s),
    ensures
        match (acc[i], store_v(acc, i, it, Cardinality::Repeated)[i]) {
            (AccV::ManyV(before), AccV::ManyV(after)) => after == before.push(it),
            _ => false,
        },
        forall|j: int|
            0 <= j < acc.len() && j != i ==> store_v(acc, i, it, Cardinality::Repeated)[j]
                == acc[j],
{
}

/// Storing into a `Single` or `Optional` field overwrites whatever stood
/// there: the last write wins, and other fields stay.
pub proof fn lemma_last_write_wins(acc: Seq<AccV>, i: int, it: ItemV, card: Cardinality)
    requires
        0 <= i < acc.len(),
        card != Cardinality::Repeated,
    ensures
        store_v(acc, i, it, card)[i] == AccV::OneV(it),
        forall|j: int| 0 <= j < acc.len() && j != i ==> store_v(acc, i, it, card)[j] == acc[j],
{
}

} // verus!
