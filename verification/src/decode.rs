//! The decoder engine: walks a token source under a record schema and
//! produces a fully populated record or a decode error.  Every function
//! returns exactly what the model in [`crate::model`] says.

use vstd::prelude::*;

use crate::events::{Event, TokenSource};
use crate::model::{
    attr_field_index, child_field_index, child_loop_v, collect_text, decode_content_v, decode_v,
    find_elem_v, find_start, finalize_fields, finalize_v, flatten_field_index, has_tag, init_acc_v,
    lemma_find_elem_advances, lemma_find_elem_scan, lemma_read_text_advances, lemma_read_text_scan,
    lemma_run_attrs_scan, lemma_scan_end_advances, lemma_scan_shift, read_text_v, resolve_field_v,
    run_attrs, scan_end, store_v, text_field_index, AccV, ErrorV, FindV,
};
use crate::scalar::parse_scalar;
use crate::schema::{wf_field, wf_schema, wf_schema_set, Cardinality, FieldDescriptor, FieldKind, RecordSchema};
use crate::value::{
    scalar_default, view_field_value, view_field_values, view_item, view_items, view_record,
    FieldValue, FieldValueV, Item, ItemV, Record, RecordV,
};

verus! {

broadcast use vstd::std_specs::vec::group_vec_axioms;

/// A decode error: the single terminal answer a failing decode returns.
#[derive(Debug, PartialEq)]
pub enum DecodeError {
    /// The expected element's start tag never appeared.
    ElementNotFound,
    /// A required `Single` field was never populated; the record and
    /// field responsible.
    MissingField { record: String, field: String },
    /// A scalar parser rejected a raw text; the record and field
    /// responsible.
    ParseFailed { record: String, field: String },
    /// The event stream was structurally inconsistent.
    MalformedStream,
}

/// The model of a decode error.
pub open spec fn view_error(e: DecodeError) -> ErrorV {
    match e {
        DecodeError::ElementNotFound => ErrorV::ElementNotFound,
        DecodeError::MissingField { record, field } => ErrorV::MissingField {
            record: record@,
            field: field@,
        },
        DecodeError::ParseFailed { record, field } => ErrorV::ParseFailed {
            record: record@,
            field: field@,
        },
        DecodeError::MalformedStream => ErrorV::MalformedStream,
    }
}

/// The model of a whole decode result.
pub open spec fn view_result(r: Result<Record, DecodeError>) -> Result<RecordV, ErrorV> {
    match r {
        Ok(rec) => Ok(view_record(rec)),
        Err(e) => Err(view_error(e)),
    }
}

/// The per-decode working storage for one field.
#[derive(Debug)]
pub enum Acc {
    /// No value has arrived.
    Unset,
    /// The last value written (last write wins).
    One(Item),
    /// The values written so far, in document order.
    Many(Vec<Item>),
}

/// The model of one accumulator slot.
pub open spec fn view_acc(a: Acc) -> AccV {
    match a {
        Acc::Unset => AccV::UnsetV,
        Acc::One(it) => AccV::OneV(view_item(it)),
        Acc::Many(v) => AccV::ManyV(view_items(v)),
    }
}

/// The model of a whole accumulator.
pub open spec fn view_accs(v: Vec<Acc>) -> Seq<AccV> {
    Seq::new(
        v@.len(),
        |i: int|
            if 0 <= i < v@.len() {
                view_acc(v[i])
            } else {
                AccV::UnsetV
            },
    )
}

/// Advance the source until an element start with the given tag has been
/// consumed; report whether one was found before the stream ended.
pub fn read_till_element_start(src: &mut TokenSource, tag: &String) -> (found: bool)
    requires
        old(src).wf(),
    ensures
        final(src).wf(),
        final(src).evs() == old(src).evs(),
        old(src).at() <= final(src).at(),
        match find_start(old(src).evs(), tag@, old(src).at()) {
            Some(p) => found && final(src).at() == p,
            None => !found,
        },
    decreases old(src).evs().len() - old(src).at(),
{
    if src.done() {
        return false;
    }
    let is_match = match src.cur() {
        Event::Start(t) => *t == *tag,
        _ => false,
    };
    src.bump();
    if is_match {
        true
    } else {
        read_till_element_start(src, tag)
    }
}

/// Pull the next attribute event, if the cursor stands on one.
pub fn find_attribute(src: &mut TokenSource) -> (r: Option<(String, String)>)
    requires
        old(src).wf(),
    ensures
        final(src).wf(),
        final(src).evs() == old(src).evs(),
        match r {
            Some(kv) => old(src).at() < old(src).evs().len() && (old(src).evs()[old(src).at()]
                matches Event::Attr(k0, v0) && kv.0@ == k0@ && kv.1@ == v0@) && final(src).at()
                == old(src).at() + 1,
            None => final(src).at() == old(src).at() && (old(src).at() == old(src).evs().len()
                || !(old(src).evs()[old(src).at()] matches Event::Attr(k0, v0))),
        },
{
    if src.done() {
        return None;
    }
    let kv = match src.cur() {
        Event::Attr(k, v) => Some((k.clone(), v.clone())),
        _ => None,
    };
    if kv.is_some() {
        src.bump();
    }
    kv
}

/// Consume events until the element whose start tag the scan stands in
/// (or whose content it stands in, `in_head` false at depth one) has been
/// closed; report whether the stream was consistent.
pub fn scan_to_end(src: &mut TokenSource, in_head: bool, depth: usize) -> (ok: bool)
    requires
        old(src).wf(),
        depth <= old(src).at(),
    ensures
        final(src).wf(),
        final(src).evs() == old(src).evs(),
        old(src).at() <= final(src).at(),
        match scan_end(old(src).evs(), old(src).at(), in_head, depth as int) {
            Some(q) => ok && final(src).at() == q,
            None => !ok,
        },
    decreases old(src).evs().len() - old(src).at(),
{
    if src.done() {
        return false;
    }
    // 0: keep scanning in head mode; 1: enter content mode at the same
    // depth; 2: enter content mode one level deeper; 3: enter head mode;
    // 4: done; 5: the stream is inconsistent here; 6: enter content mode
    // one level shallower.
    let step: u8 = if in_head {
        match src.cur() {
            Event::Attr(_k, _v) => 0,
            Event::Empty => if depth == 0 {
                4
            } else {
                1
            },
            Event::Open => 2,
            _ => 5,
        }
    } else {
        match src.cur() {
            Event::Text(_t) => 1,
            Event::Start(_t) => 3,
            Event::Close(_c) => if depth == 1 {
                4
            } else if depth > 1 {
                6
            } else {
                5
            },
            _ => 5,
        }
    };
    if step == 5 {
        return false;
    }
    src.bump();
    if step == 4 {
        true
    } else if step == 0 {
        scan_to_end(src, true, depth)
    } else if step == 1 {
        scan_to_end(src, false, depth)
    } else if step == 2 {
        scan_to_end(src, false, depth + 1)
    } else if step == 3 {
        scan_to_end(src, true, depth)
    } else {
        scan_to_end(src, false, depth - 1)
    }
}

/// Collect the text runs up to the element's close tag, appended to what
/// was read so far.
fn collect_text_ex(src: &mut TokenSource, tag: &String, text: String) -> (r: Result<String, ()>)
    requires
        old(src).wf(),
    ensures
        final(src).wf(),
        final(src).evs() == old(src).evs(),
        old(src).at() <= final(src).at(),
        match collect_text(old(src).evs(), tag@, old(src).at(), text@) {
            Some(tp) => r matches Ok(s) && s@ == tp.0 && final(src).at() == tp.1,
            None => r matches Err(u),
        },
    decreases old(src).evs().len() - old(src).at(),
{
    if src.done() {
        return Err(());
    }
    // 0: a text run to append; 1: the matching close; 2: inconsistent.
    let step: u8 = match src.cur() {
        Event::Text(_t) => 0,
        Event::Close(c) => if *c == *tag {
            1
        } else {
            2
        },
        _ => 2,
    };
    if step == 2 {
        return Err(());
    }
    if step == 1 {
        src.bump();
        return Ok(text);
    }
    let run = match src.cur() {
        Event::Text(t) => t.clone(),
        _ => String::new(),
    };
    let mut text = text;
    text.append(run.as_str());
    src.bump();
    collect_text_ex(src, tag, text)
}

/// Read the raw text content of the element whose start tag was just
/// consumed: empty for a self-closing element, else the text runs up to
/// its close tag.
pub fn read_text(src: &mut TokenSource, tag: &String) -> (r: Result<String, ()>)
    requires
        old(src).wf(),
    ensures
        final(src).wf(),
        final(src).evs() == old(src).evs(),
        old(src).at() <= final(src).at(),
        match read_text_v(old(src).evs(), tag@, old(src).at()) {
            Some(tp) => r matches Ok(s) && s@ == tp.0 && final(src).at() == tp.1,
            None => r matches Err(u),
        },
    decreases old(src).evs().len() - old(src).at(),
{
    if src.done() {
        return Err(());
    }
    // 0: self-closing, the text is empty; 1: open, collect the runs;
    // 2: inconsistent; 3: an attribute to pass over.
    let step: u8 = match src.cur() {
        Event::Attr(_k, _v) => 3,
        Event::Empty => 0,
        Event::Open => 1,
        _ => 2,
    };
    if step == 2 {
        return Err(());
    }
    src.bump();
    if step == 3 {
        read_text(src, tag)
    } else if step == 0 {
        Ok(String::new())
    } else {
        collect_text_ex(src, tag, String::new())
    }
}

/// What the scoped lookahead for the next child found.
pub enum FindOutcome {
    /// A child element's start tag was consumed; its tag.
    Found(String),
    /// The enclosing element's close tag was consumed.
    End,
    /// The stream is inconsistent here.
    Bad,
}

/// The scoped lookahead: skip text runs until a child's start tag, or the
/// enclosing element's close tag, is consumed.
pub fn find_element_start(src: &mut TokenSource, tag: &String) -> (r: FindOutcome)
    requires
        old(src).wf(),
    ensures
        final(src).wf(),
        final(src).evs() == old(src).evs(),
        old(src).at() <= final(src).at(),
        match find_elem_v(old(src).evs(), tag@, old(src).at()) {
            FindV::FoundV(t, p) => r matches FindOutcome::Found(t2) && t2@ == t && final(src).at()
                == p,
            FindV::EndV(p) => r matches FindOutcome::End && final(src).at() == p,
            FindV::BadV => r matches FindOutcome::Bad,
        },
    decreases old(src).evs().len() - old(src).at(),
{
    if src.done() {
        return FindOutcome::Bad;
    }
    let decision = match src.cur() {
        Event::Text(_t) => None,
        Event::Start(t) => Some((FindOutcome::Found(t.clone()), true)),
        Event::Close(c) => if *c == *tag {
            Some((FindOutcome::End, true))
        } else {
            Some((FindOutcome::Bad, false))
        },
        _ => Some((FindOutcome::Bad, false)),
    };
    match decision {
        None => {
            src.bump();
            find_element_start(src, tag)
        },
        Some(oc) => {
            let (out, consume) = oc;
            if consume {
                src.bump();
            }
            out
        },
    }
}

/// The first attribute field at or after `i` matching the key, if any.
fn attr_index(fields: &Vec<FieldDescriptor>, key: &String, i: usize) -> (r: Option<usize>)
    ensures
        match r {
            Some(j) => i <= j < fields@.len() && attr_field_index(fields@, key@, i as int)
                == j as int,
            None => attr_field_index(fields@, key@, i as int) == -1,
        },
    decreases fields@.len() - i,
{
    if i >= fields.len() {
        return None;
    }
    let f = &fields[i];
    let hit = f.kind == FieldKind::Attribute && f.tags.len() >= 1 && f.tags[0] == *key;
    if hit {
        Some(i)
    } else {
        attr_index(fields, key, i + 1)
    }
}

/// Whether some tag at or after `j` in the list equals `t`.
fn has_tag_ex(tags: &Vec<String>, t: &String, j: usize) -> (r: bool)
    ensures
        r == has_tag(tags@, t@, j as int),
    decreases tags@.len() - j,
{
    if j >= tags.len() {
        return false;
    }
    if tags[j] == *t {
        true
    } else {
        has_tag_ex(tags, t, j + 1)
    }
}

/// The first child field at or after `i` with `t` among its alias tags,
/// if any.
fn child_index(fields: &Vec<FieldDescriptor>, t: &String, i: usize) -> (r: Option<usize>)
    ensures
        match r {
            Some(j) => i <= j < fields@.len() && child_field_index(fields@, t@, i as int)
                == j as int && fields@[j as int].kind == FieldKind::Child,
            None => child_field_index(fields@, t@, i as int) == -1,
        },
    decreases fields@.len() - i,
{
    if i >= fields.len() {
        return None;
    }
    let f = &fields[i];
    let hit = f.kind == FieldKind::Child && has_tag_ex(&f.tags, t, 0);
    if hit {
        Some(i)
    } else {
        child_index(fields, t, i + 1)
    }
}

/// The first flattened-text field at or after `i` with tag `t`, if any.
fn flatten_index(fields: &Vec<FieldDescriptor>, t: &String, i: usize) -> (r: Option<usize>)
    ensures
        match r {
            Some(j) => i <= j < fields@.len() && flatten_field_index(fields@, t@, i as int)
                == j as int,
            None => flatten_field_index(fields@, t@, i as int) == -1,
        },
    decreases fields@.len() - i,
{
    if i >= fields.len() {
        return None;
    }
    let f = &fields[i];
    let hit = f.kind == FieldKind::FlattenText && f.tags.len() >= 1 && f.tags[0] == *t;
    if hit {
        Some(i)
    } else {
        flatten_index(fields, t, i + 1)
    }
}

/// The first raw-text field at or after `i`, if any.
fn text_index(fields: &Vec<FieldDescriptor>, i: usize) -> (r: Option<usize>)
    ensures
        match r {
            Some(j) => i <= j < fields@.len() && text_field_index(fields@, i as int) == j as int,
            None => text_field_index(fields@, i as int) == -1,
        },
    decreases fields@.len() - i,
{
    if i >= fields.len() {
        return None;
    }
    if fields[i].kind == FieldKind::Text {
        Some(i)
    } else {
        text_index(fields, i + 1)
    }
}

/// Store a freshly decoded item into the accumulator: a `Repeated` field
/// appends in document order, any other field overwrites (last write
/// wins).
fn store(acc: &mut Vec<Acc>, i: usize, it: Item, card: Cardinality)
    requires
        i < old(acc)@.len(),
    ensures
        final(acc)@.len() == old(acc)@.len(),
        view_accs(*final(acc)) == store_v(view_accs(*old(acc)), i as int, view_item(it), card),
{
    let ghost before = view_accs(*old(acc));
    let ghost itv = view_item(it);
    if card == Cardinality::Repeated {
        let a = acc.remove(i);
        let mut vs = match a {
            Acc::Many(v) => v,
            _ => Vec::new(),
        };
        let ghost vsv = view_items(vs);
        proof {
            assert(match view_acc(a) {
                AccV::ManyV(s) => vsv == s,
                _ => vsv =~= Seq::<ItemV>::empty(),
            });
        }
        vs.push(it);
        proof {
            assert(view_items(vs) =~= vsv.push(itv));
        }
        acc.insert(i, Acc::Many(vs));
        proof {
            assert(view_accs(*acc) =~= store_v(before, i as int, itv, card));
        }
    } else {
        acc.set(i, Acc::One(it));
        proof {
            assert(view_accs(*acc) =~= store_v(before, i as int, itv, card));
        }
    }
}

/// The accumulator a decode starts from: every `Repeated` field an empty
/// sequence, every other field unset.
fn init_acc(fields: &Vec<FieldDescriptor>) -> (acc: Vec<Acc>)
    ensures
        acc@.len() == fields@.len(),
        view_accs(acc) == init_acc_v(fields@),
{
    let mut acc: Vec<Acc> = Vec::new();
    let mut i: usize = 0;
    while i < fields.len()
        invariant
            i <= fields@.len(),
            acc@.len() == i as int,
            forall|j: int| 0 <= j < i ==> view_acc(acc@[j]) == init_acc_v(fields@)[j],
        decreases fields@.len() - i,
    {
        if fields[i].cardinality == Cardinality::Repeated {
            let e: Vec<Item> = Vec::new();
            proof {
                assert(view_items(e) =~= Seq::<ItemV>::empty());
            }
            acc.push(Acc::Many(e));
        } else {
            acc.push(Acc::Unset);
        }
        i = i + 1;
    }
    proof {
        assert(view_accs(acc) =~= init_acc_v(fields@));
    }
    acc
}

/// Resolve one field at finalization, as the model
/// [`resolve_field_v`] says.
fn resolve_field(f: &FieldDescriptor, rname: &String, a: Acc) -> (r: Result<
    FieldValue,
    DecodeError,
>)
    ensures
        match resolve_field_v(*f, rname@, view_acc(a)) {
            Ok(v) => r matches Ok(fv) && view_field_value(fv) == v,
            Err(e) => r matches Err(de) && view_error(de) == e,
        },
{
    match f.cardinality {
        Cardinality::Repeated => {
            let vs = match a {
                Acc::Many(v) => v,
                _ => Vec::new(),
            };
            proof {
                if !(view_acc(a) matches AccV::ManyV(s)) {
                    assert(view_items(vs) =~= Seq::<ItemV>::empty());
                }
            }
            Ok(FieldValue::Many(vs))
        },
        Cardinality::Optional => match a {
            Acc::One(it) => Ok(FieldValue::Opt(Some(it))),
            _ => Ok(FieldValue::Opt(None)),
        },
        Cardinality::Single => match a {
            Acc::One(it) => Ok(FieldValue::One(it)),
            _ => {
                if f.default_on_missing {
                    Ok(FieldValue::One(Item::Scalar(scalar_default(f.scalar))))
                } else {
                    Err(
                        DecodeError::MissingField {
                            record: rname.clone(),
                            field: f.name.clone(),
                        },
                    )
                }
            },
        },
    }
}

/// Resolve the fields from `i` on, consuming the matching tail of the
/// accumulator, as the model [`finalize_fields`] says.
fn finalize_from(
    fields: &Vec<FieldDescriptor>,
    rname: &String,
    acc: Vec<Acc>,
    i: usize,
    Ghost(full): Ghost<Seq<AccV>>,
) -> (r: Result<Vec<FieldValue>, DecodeError>)
    requires
        i as int + acc@.len() == fields@.len(),
        view_accs(acc) == full.skip(i as int),
        full.len() == fields@.len(),
    ensures
        match finalize_fields(fields@, rname@, full, i as int) {
            Ok(vs) => r matches Ok(out) && view_field_values(out) == vs,
            Err(e) => r matches Err(de) && view_error(de) == e,
        },
    decreases fields@.len() - i,
{
    let mut acc = acc;
    if i >= fields.len() {
        let out: Vec<FieldValue> = Vec::new();
        proof {
            assert(view_field_values(out) =~= Seq::<FieldValueV>::empty());
        }
        return Ok(out);
    }
    let ghost acc0 = acc;
    let a = acc.remove(0);
    proof {
        assert(acc0@[0] == a);
        assert(view_accs(acc0)[0] == view_acc(acc0@[0]));
        assert(full.skip(i as int)[0] == full[i as int]);
        assert(view_acc(a) == full[i as int]);
        assert forall|j: int| 0 <= j < acc@.len() implies view_accs(acc)[j] == full.skip(
            i as int + 1,
        )[j] by {
            assert(acc@[j] == acc0@[j + 1]);
            assert(view_accs(acc0)[j + 1] == view_acc(acc0@[j + 1]));
            assert(full.skip(i as int)[j + 1] == full[i as int + 1 + j]);
            assert(full.skip(i as int + 1)[j] == full[i as int + 1 + j]);
        }
        assert(view_accs(acc) =~= full.skip(i as int + 1));
    }
    match resolve_field(&fields[i], rname, a) {
        Err(de) => Err(de),
        Ok(v) => match finalize_from(fields, rname, acc, i + 1, Ghost(full)) {
            Err(de) => Err(de),
            Ok(rest) => {
                let mut rest = rest;
                rest.insert(0, v);
                proof {
                    let vs_tail = match finalize_fields(fields@, rname@, full, i as int + 1) {
                        Ok(vs) => vs,
                        Err(e) => Seq::empty(),
                    };
                    assert(view_field_values(rest) =~= seq![
                        view_field_value(rest@[0]),
                    ] + vs_tail);
                }
                Ok(rest)
            },
        },
    }
}

/// Finalize a whole record from its accumulator, as the model
/// [`finalize_v`] says.
fn finalize(schema: &RecordSchema, acc: Vec<Acc>) -> (r: Result<Record, DecodeError>)
    requires
        acc@.len() == schema.fields@.len(),
    ensures
        match finalize_v(*schema, view_accs(acc)) {
            Ok(rv) => r matches Ok(rec) && view_record(rec) == rv,
            Err(e) => r matches Err(de) && view_error(de) == e,
        },
{
    let ghost full = view_accs(acc);
    proof {
        assert(view_accs(acc) =~= full.skip(0));
    }
    match finalize_from(&schema.fields, &schema.name, acc, 0, Ghost(full)) {
        Err(de) => Err(de),
        Ok(values) => Ok(Record { name: schema.name.clone(), values }),
    }
}

/// The attribute phase: pull attribute events while they last, parsing
/// and storing the known keys (last write wins) and ignoring unknown
/// ones, as the model [`run_attrs`] says.
fn attrs_phase(
    fields: &Vec<FieldDescriptor>,
    rname: &String,
    acc: &mut Vec<Acc>,
    src: &mut TokenSource,
) -> (r: Result<(), DecodeError>)
    requires
        old(src).wf(),
        old(acc)@.len() == fields@.len(),
    ensures
        final(src).wf(),
        final(src).evs() == old(src).evs(),
        old(src).at() <= final(src).at(),
        final(acc)@.len() == old(acc)@.len(),
        match run_attrs(fields@, rname@, view_accs(*old(acc)), old(src).evs(), old(src).at()) {
            Ok(ap) => r matches Ok(u) && view_accs(*final(acc)) == ap.0 && final(src).at() == ap.1,
            Err(e) => r matches Err(de) && view_error(de) == e,
        },
    decreases old(src).evs().len() - old(src).at(),
{
    match find_attribute(src) {
        None => Ok(()),
        Some(kv) => {
            let (k, v) = kv;
            match attr_index(fields, &k, 0) {
                None => attrs_phase(fields, rname, acc, src),
                Some(j) => match parse_scalar(fields[j].scalar, &v) {
                    Err(_u) => Err(
                        DecodeError::ParseFailed {
                            record: rname.clone(),
                            field: fields[j].name.clone(),
                        },
                    ),
                    Ok(s) => {
                        store(acc, j, Item::Scalar(s), fields[j].cardinality);
                        attrs_phase(fields, rname, acc, src)
                    },
                },
            }
        },
    }
}

/// Decode the content of an element whose start tag was just consumed,
/// as the model [`decode_content_v`] says; on success the source stands
/// just past the element's end.
fn decode_content(
    schemas: &Vec<RecordSchema>,
    idx: usize,
    tag: &String,
    src: &mut TokenSource,
) -> (r: Result<Record, DecodeError>)
    requires
        old(src).wf(),
        idx < schemas@.len(),
        wf_schema_set(schemas@),
    ensures
        final(src).wf(),
        final(src).evs() == old(src).evs(),
        old(src).at() <= final(src).at(),
        view_result(r) == decode_content_v(
            schemas@,
            idx as int,
            tag@,
            old(src).evs(),
            old(src).at(),
        ),
        r matches Ok(rec) ==> scan_end(old(src).evs(), old(src).at(), true, 0) == Some(
            final(src).at(),
        ),
    decreases old(src).evs().len() - old(src).at(), 1int,
{
    let ghost events = old(src).evs();
    let ghost pos0 = old(src).at();
    let schema = &schemas[idx];
    let mut acc = init_acc(&schema.fields);
    match attrs_phase(&schema.fields, &schema.name, &mut acc, src) {
        Err(de) => {
            return Err(de);
        },
        Ok(_u) => {},
    }
    let ghost p1 = src.at();
    proof {
        lemma_run_attrs_scan(
            schema.fields@,
            schema.name@,
            init_acc_v(schema.fields@),
            events,
            pos0,
            0,
        );
    }
    if schema.is_text_only {
        match text_index(&schema.fields, 0) {
            None => Err(DecodeError::MalformedStream),
            Some(ti) => match read_text(src, tag) {
                Err(_u) => Err(DecodeError::MalformedStream),
                Ok(txt) => {
                    proof {
                        lemma_read_text_scan(events, tag@, p1);
                    }
                    match parse_scalar(schema.fields[ti].scalar, &txt) {
                        Err(_u) => Err(
                            DecodeError::ParseFailed {
                                record: schema.name.clone(),
                                field: schema.fields[ti].name.clone(),
                            },
                        ),
                        Ok(s) => {
                            store(&mut acc, ti, Item::Scalar(s), schema.fields[ti].cardinality);
                            finalize(schema, acc)
                        },
                    }
                },
            },
        }
    } else {
        if src.done() {
            return Err(DecodeError::MalformedStream);
        }
        // 0: self-closing, finalize at once; 1: open, enter the child
        // loop; 2: inconsistent.
        let step: u8 = match src.cur() {
            Event::Empty => 0,
            Event::Open => 1,
            _ => 2,
        };
        if step == 2 {
            return Err(DecodeError::MalformedStream);
        }
        src.bump();
        if step == 0 {
            finalize(schema, acc)
        } else {
            child_loop(schemas, idx, tag, acc, src)
        }
    }
}

/// The child loop: dispatch each found child to its field — a nested
/// record, a flattened text, or a skipped unknown subtree — until the
/// enclosing element closes, as the model [`child_loop_v`] says.
fn child_loop(
    schemas: &Vec<RecordSchema>,
    idx: usize,
    tag: &String,
    acc: Vec<Acc>,
    src: &mut TokenSource,
) -> (r: Result<Record, DecodeError>)
    requires
        old(src).wf(),
        idx < schemas@.len(),
        wf_schema_set(schemas@),
        acc@.len() == schemas@[idx as int].fields@.len(),
    ensures
        final(src).wf(),
        final(src).evs() == old(src).evs(),
        old(src).at() <= final(src).at(),
        view_result(r) == child_loop_v(
            schemas@,
            idx as int,
            tag@,
            view_accs(acc),
            old(src).evs(),
            old(src).at(),
        ),
        r matches Ok(rec) ==> scan_end(old(src).evs(), old(src).at(), false, 1) == Some(
            final(src).at(),
        ),
    decreases old(src).evs().len() - old(src).at(), 0int,
{
    let ghost events = old(src).evs();
    let ghost pos0 = old(src).at();
    let ghost accv = view_accs(acc);
    let mut acc = acc;
    proof {
        lemma_find_elem_advances(events, tag@, pos0);
        lemma_find_elem_scan(events, tag@, pos0);
    }
    match find_element_start(src, tag) {
        FindOutcome::Bad => Err(DecodeError::MalformedStream),
        FindOutcome::End => finalize(&schemas[idx], acc),
        FindOutcome::Found(t) => {
            let ghost p = src.at();
            match child_index(&schemas[idx].fields, &t, 0) {
                Some(ci) => {
                    let cs = schemas[idx].fields[ci].child_schema;
                    proof {
                        assert(wf_schema(schemas@[idx as int], schemas@.len() as int));
                        assert(wf_field(
                            schemas@[idx as int].fields@[ci as int],
                            schemas@.len() as int,
                        ));
                    }
                    match decode_content(schemas, cs, &t, src) {
                        Err(de) => Err(de),
                        Ok(rec) => {
                            let ghost se = src.at();
                            proof {
                                lemma_scan_end_advances(events, p, true, 0);
                                lemma_scan_shift(events, p, true, 0, 1);
                            }
                            store(
                                &mut acc,
                                ci,
                                Item::Rec(rec),
                                schemas[idx].fields[ci].cardinality,
                            );
                            child_loop(schemas, idx, tag, acc, src)
                        },
                    }
                },
                None => match flatten_index(&schemas[idx].fields, &t, 0) {
                    Some(fi) => match read_text(src, &t) {
                        Err(_u) => Err(DecodeError::MalformedStream),
                        Ok(txt) => match parse_scalar(schemas[idx].fields[fi].scalar, &txt) {
                            Err(_u) => Err(
                                DecodeError::ParseFailed {
                                    record: schemas[idx].name.clone(),
                                    field: schemas[idx].fields[fi].name.clone(),
                                },
                            ),
                            Ok(s) => {
                                proof {
                                    lemma_read_text_advances(events, t@, p);
                                    lemma_read_text_scan(events, t@, p);
                                    lemma_scan_shift(events, p, true, 0, 1);
                                }
                                store(
                                    &mut acc,
                                    fi,
                                    Item::Scalar(s),
                                    schemas[idx].fields[fi].cardinality,
                                );
                                child_loop(schemas, idx, tag, acc, src)
                            },
                        },
                    },
                    None => {
                        proof {
                            lemma_scan_end_advances(events, p, true, 0);
                            lemma_scan_shift(events, p, true, 0, 1);
                        }
                        if scan_to_end(src, true, 0) {
                            child_loop(schemas, idx, tag, acc, src)
                        } else {
                            Err(DecodeError::MalformedStream)
                        }
                    },
                },
            }
        },
    }
}

/// Decode one record: advance the source to the schema's element start —
/// failing with `ElementNotFound` when the stream ends first — and decode
/// the element, as the model [`decode_v`] says.
pub fn decode(schemas: &Vec<RecordSchema>, idx: usize, src: &mut TokenSource) -> (r: Result<
    Record,
    DecodeError,
>)
    requires
        old(src).wf(),
        idx < schemas@.len(),
        wf_schema_set(schemas@),
    ensures
        final(src).wf(),
        final(src).evs() == old(src).evs(),
        old(src).at() <= final(src).at(),
        view_result(r) == decode_v(schemas@, idx as int, old(src).evs(), old(src).at()),
        r matches Ok(rec) ==> match find_start(
            old(src).evs(),
            schemas@[idx as int].tag@,
            old(src).at(),
        ) {
            Some(p) => scan_end(old(src).evs(), p, true, 0) == Some(final(src).at()),
            None => false,
        },
{
    let schema_tag = &schemas[idx].tag;
    if read_till_element_start(src, schema_tag) {
        decode_content(schemas, idx, schema_tag, src)
    } else {
        Err(DecodeError::ElementNotFound)
    }
}

} // verus!
