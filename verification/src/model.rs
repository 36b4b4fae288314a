//! The mathematical model of decoding: spec functions that say, for every
//! event stream and schema table, exactly what the decoder returns and how
//! far it reads.  The executable decoder in [`crate::decode`] is proved to
//! return precisely what these functions say.

use vstd::prelude::*;

use crate::events::Event;
use crate::scalar::parse_scalar_v;
use crate::schema::{Cardinality, FieldDescriptor, FieldKind, RecordSchema};
use crate::value::{scalar_default_v, FieldValueV, ItemV, RecordV};

verus! {

/// The model of a decode error.
pub enum ErrorV {
    /// The expected element's start tag never appeared.
    ElementNotFound,
    /// A required `Single` field was never populated.
    MissingField { record: Seq<char>, field: Seq<char> },
    /// A scalar parser rejected a raw text.
    ParseFailed { record: Seq<char>, field: Seq<char> },
    /// The event stream was structurally inconsistent.
    MalformedStream,
}

/// The model of the per-decode working storage for one field: unset, one
/// value (last write wins), or an ordered sequence of values.
pub enum AccV {
    UnsetV,
    OneV(ItemV),
    ManyV(Seq<ItemV>),
}

/// The accumulator a decode starts from: every `Repeated` field an empty
/// sequence, every other field unset.
pub open spec fn init_acc_v(fields: Seq<FieldDescriptor>) -> Seq<AccV> {
    Seq::new(
        fields.len(),
        |i: int|
            if 0 <= i < fields.len() && fields[i].cardinality == Cardinality::Repeated {
                AccV::ManyV(Seq::empty())
            } else {
                AccV::UnsetV
            },
    )
}

/// Storing one freshly decoded item: a `Repeated` field appends in
/// document order, any other field overwrites (last write wins).
pub open spec fn store_v(acc: Seq<AccV>, i: int, it: ItemV, card: Cardinality) -> Seq<AccV> {
    if 0 <= i < acc.len() {
        if card == Cardinality::Repeated {
            acc.update(
                i,
                AccV::ManyV(
                    match acc[i] {
                        AccV::ManyV(s) => s.push(it),
                        _ => seq![it],
                    },
                ),
            )
        } else {
            acc.update(i, AccV::OneV(it))
        }
    } else {
        acc
    }
}

/// The first field at or after `i` that is an attribute field matching
/// `key`, or `-1`.
pub open spec fn attr_field_index(fields: Seq<FieldDescriptor>, key: Seq<char>, i: int) -> int
    decreases fields.len() - i,
{
    if i < 0 || i >= fields.len() {
        -1
    } else if fields[i].kind == FieldKind::Attribute && fields[i].tags@.len() >= 1
        && fields[i].tags@[0]@ == key {
        i
    } else {
        attr_field_index(fields, key, i + 1)
    }
}

/// Whether some tag at or after `j` in the list equals `t`.
pub open spec fn has_tag(tags: Seq<String>, t: Seq<char>, j: int) -> bool
    decreases tags.len() - j,
{
    if j < 0 || j >= tags.len() {
        false
    } else if tags[j]@ == t {
        true
    } else {
        has_tag(tags, t, j + 1)
    }
}

/// The first field at or after `i` that is a child field with `t` among
/// its alias tags, or `-1`.
pub open spec fn child_field_index(fields: Seq<FieldDescriptor>, t: Seq<char>, i: int) -> int
    decreases fields.len() - i,
{
    if i < 0 || i >= fields.len() {
        -1
    } else if fields[i].kind == FieldKind::Child && has_tag(fields[i].tags@, t, 0) {
        i
    } else {
        child_field_index(fields, t, i + 1)
    }
}

/// The first field at or after `i` that is a flattened-text field with tag
/// `t`, or `-1`.
pub open spec fn flatten_field_index(fields: Seq<FieldDescriptor>, t: Seq<char>, i: int) -> int
    decreases fields.len() - i,
{
    if i < 0 || i >= fields.len() {
        -1
    } else if fields[i].kind == FieldKind::FlattenText && fields[i].tags@.len() >= 1
        && fields[i].tags@[0]@ == t {
        i
    } else {
        flatten_field_index(fields, t, i + 1)
    }
}

/// The first field at or after `i` that is the raw-text field, or `-1`.
pub open spec fn text_field_index(fields: Seq<FieldDescriptor>, i: int) -> int
    decreases fields.len() - i,
{
    if i < 0 || i >= fields.len() {
        -1
    } else if fields[i].kind == FieldKind::Text {
        i
    } else {
        text_field_index(fields, i + 1)
    }
}

/// Scanning forward for an element start with the given tag: the position
/// just after it, or `None` when the stream ends first.
pub open spec fn find_start(events: Seq<Event>, tag: Seq<char>, pos: int) -> Option<int>
    decreases events.len() - pos,
{
    if pos < 0 || pos >= events.len() {
        None
    } else {
        match events[pos] {
            Event::Start(t) => if t@ == tag {
                Some(pos + 1)
            } else {
                find_start(events, tag, pos + 1)
            },
            _ => find_start(events, tag, pos + 1),
        }
    }
}

/// The attribute phase: pull attribute events while they last.  A known
/// key's value is parsed and stored (last write wins); an unknown key is
/// ignored; a parse failure is the phase's only error.  The result also
/// says where the phase stopped.
pub open spec fn run_attrs(
    fields: Seq<FieldDescriptor>,
    rname: Seq<char>,
    acc: Seq<AccV>,
    events: Seq<Event>,
    pos: int,
) -> Result<(Seq<AccV>, int), ErrorV>
    decreases events.len() - pos,
{
    if pos < 0 || pos >= events.len() {
        Ok((acc, pos))
    } else {
        match events[pos] {
            Event::Attr(k, v) => {
                let i = attr_field_index(fields, k@, 0);
                if i < 0 {
                    run_attrs(fields, rname, acc, events, pos + 1)
                } else {
                    match parse_scalar_v(fields[i].scalar, v@) {
                        None => Err(ErrorV::ParseFailed { record: rname, field: fields[i].name@ }),
                        Some(sv) => run_attrs(
                            fields,
                            rname,
                            store_v(acc, i, ItemV::Scalar(sv), fields[i].cardinality),
                            events,
                            pos + 1,
                        ),
                    }
                }
            },
            _ => Ok((acc, pos)),
        }
    }
}

/// Collecting text runs up to the element's close tag, concatenated.
pub open spec fn collect_text(events: Seq<Event>, tag: Seq<char>, pos: int, acc: Seq<char>) -> Option<
    (Seq<char>, int),
>
    decreases events.len() - pos,
{
    if pos < 0 || pos >= events.len() {
        None
    } else {
        match events[pos] {
            Event::Text(t) => collect_text(events, tag, pos + 1, acc + t@),
            Event::Close(c) => if c@ == tag {
                Some((acc, pos + 1))
            } else {
                None
            },
            _ => None,
        }
    }
}

/// Reading the raw text content of an element whose start tag was just
/// consumed: any attributes are passed over, a self-closing element reads
/// as empty text, and otherwise the text runs up to the close tag.
pub open spec fn read_text_v(events: Seq<Event>, tag: Seq<char>, pos: int) -> Option<
    (Seq<char>, int),
>
    decreases events.len() - pos,
{
    if pos < 0 || pos >= events.len() {
        None
    } else {
        match events[pos] {
            Event::Attr(_k, _v) => read_text_v(events, tag, pos + 1),
            Event::Empty => Some((Seq::empty(), pos + 1)),
            Event::Open => collect_text(events, tag, pos + 1, Seq::empty()),
            _ => None,
        }
    }
}

/// Where the element whose start tag was just consumed ends: the position
/// just after its matching close, counting nesting depth, or `None` when
/// the stream is inconsistent.  `in_head` says whether the scan stands
/// among the attributes of an opening tag; `depth` counts the elements
/// opened and not yet closed around the scan, not counting the one whose
/// head it stands in.
pub open spec fn scan_end(events: Seq<Event>, pos: int, in_head: bool, depth: int) -> Option<int>
    decreases events.len() - pos,
{
    if pos < 0 || pos >= events.len() {
        None
    } else if in_head {
        match events[pos] {
            Event::Attr(_k, _v) => scan_end(events, pos + 1, true, depth),
            Event::Empty => if depth == 0 {
                Some(pos + 1)
            } else {
                scan_end(events, pos + 1, false, depth)
            },
            Event::Open => scan_end(events, pos + 1, false, depth + 1),
            _ => None,
        }
    } else {
        match events[pos] {
            Event::Text(_t) => scan_end(events, pos + 1, false, depth),
            Event::Start(_t) => scan_end(events, pos + 1, true, depth),
            Event::Close(_c) => if depth == 1 {
                Some(pos + 1)
            } else if depth > 1 {
                scan_end(events, pos + 1, false, depth - 1)
            } else {
                None
            },
            _ => None,
        }
    }
}

/// What the scoped lookahead for the next child finds.
pub enum FindV {
    /// A child element's start tag was consumed; its tag, and the
    /// position just after the start event.
    FoundV(Seq<char>, int),
    /// The enclosing element's close tag was consumed; the position just
    /// after it.
    EndV(int),
    /// The stream is inconsistent here.
    BadV,
}

/// The scoped lookahead: skip text runs; an element start is a candidate
/// child; the enclosing element's matching close ends the search.
pub open spec fn find_elem_v(events: Seq<Event>, tag: Seq<char>, pos: int) -> FindV
    decreases events.len() - pos,
{
    if pos < 0 || pos >= events.len() {
        FindV::BadV
    } else {
        match events[pos] {
            Event::Text(_t) => find_elem_v(events, tag, pos + 1),
            Event::Start(t) => FindV::FoundV(t@, pos + 1),
            Event::Close(c) => if c@ == tag {
                FindV::EndV(pos + 1)
            } else {
                FindV::BadV
            },
            _ => FindV::BadV,
        }
    }
}

/// Resolving one field at finalization: `Repeated` keeps its sequence,
/// `Optional` is present iff a value arrived, a set `Single` keeps its
/// value, an unset `Single` takes the scalar kind's default when the field
/// says so and is a `MissingField` error otherwise.
pub open spec fn resolve_field_v(f: FieldDescriptor, rname: Seq<char>, a: AccV) -> Result<
    FieldValueV,
    ErrorV,
> {
    match f.cardinality {
        Cardinality::Repeated => Ok(
            FieldValueV::Many(
                match a {
                    AccV::ManyV(s) => s,
                    _ => Seq::empty(),
                },
            ),
        ),
        Cardinality::Optional => Ok(
            FieldValueV::Opt(
                match a {
                    AccV::OneV(it) => Some(it),
                    _ => None,
                },
            ),
        ),
        Cardinality::Single => match a {
            AccV::OneV(it) => Ok(FieldValueV::One(it)),
            _ => if f.default_on_missing {
                Ok(FieldValueV::One(ItemV::Scalar(scalar_default_v(f.scalar))))
            } else {
                Err(ErrorV::MissingField { record: rname, field: f.name@ })
            },
        },
    }
}

/// Resolving the fields from `i` on, in declaration order; the first
/// failing field's error wins.
pub open spec fn finalize_fields(
    fields: Seq<FieldDescriptor>,
    rname: Seq<char>,
    acc: Seq<AccV>,
    i: int,
) -> Result<Seq<FieldValueV>, ErrorV>
    decreases fields.len() - i,
{
    if i < 0 || i >= fields.len() {
        Ok(Seq::empty())
    } else {
        match resolve_field_v(fields[i], rname, acc[i]) {
            Err(e) => Err(e),
            Ok(v) => match finalize_fields(fields, rname, acc, i + 1) {
                Err(e) => Err(e),
                Ok(rest) => Ok(seq![v] + rest),
            },
        }
    }
}

/// Finalizing a whole record from its accumulator.
pub open spec fn finalize_v(schema: RecordSchema, acc: Seq<AccV>) -> Result<RecordV, ErrorV> {
    match finalize_fields(schema.fields@, schema.name@, acc, 0) {
        Err(e) => Err(e),
        Ok(vs) => Ok(RecordV { name: schema.name@, values: vs }),
    }
}

/// The attribute phase stops at or after where it starts, within the
/// stream.
pub proof fn lemma_run_attrs_advances(
    fields: Seq<FieldDescriptor>,
    rname: Seq<char>,
    acc: Seq<AccV>,
    events: Seq<Event>,
    pos: int,
)
    requires
        0 <= pos <= events.len(),
    ensures
        run_attrs(fields, rname, acc, events, pos) matches Ok(r) ==> pos <= r.1
            <= events.len(),
    decreases events.len() - pos,
{
    if pos < events.len() {
        match events[pos] {
            Event::Attr(k, v) => {
                let i = attr_field_index(fields, k@, 0);
                if i < 0 {
                    lemma_run_attrs_advances(fields, rname, acc, events, pos + 1);
                } else {
                    match parse_scalar_v(fields[i].scalar, v@) {
                        None => {},
                        Some(sv) => {
                            lemma_run_attrs_advances(
                                fields,
                                rname,
                                store_v(acc, i, ItemV::Scalar(sv), fields[i].cardinality),
                                events,
                                pos + 1,
                            );
                        },
                    }
                }
            },
            _ => {},
        }
    }
}

/// Collecting text stops strictly after where it starts, within the
/// stream.
pub proof fn lemma_collect_text_advances(
    events: Seq<Event>,
    tag: Seq<char>,
    pos: int,
    acc: Seq<char>,
)
    requires
        0 <= pos,
    ensures
        collect_text(events, tag, pos, acc) matches Some(r) ==> pos + 1 <= r.1 <= events.len(),
    decreases events.len() - pos,
{
    if pos < events.len() {
        match events[pos] {
            Event::Text(t) => lemma_collect_text_advances(events, tag, pos + 1, acc + t@),
            _ => {},
        }
    }
}

/// Reading raw text stops strictly after where it starts, within the
/// stream.
pub proof fn lemma_read_text_advances(events: Seq<Event>, tag: Seq<char>, pos: int)
    requires
        0 <= pos,
    ensures
        read_text_v(events, tag, pos) matches Some(r) ==> pos + 1 <= r.1 <= events.len(),
    decreases events.len() - pos,
{
    if 0 <= pos < events.len() {
        match events[pos] {
            Event::Attr(_k, _v) => lemma_read_text_advances(events, tag, pos + 1),
            Event::Open => lemma_collect_text_advances(events, tag, pos + 1, Seq::empty()),
            _ => {},
        }
    }
}

/// The end of an element lies strictly after the scan's start, within the
/// stream.
pub proof fn lemma_scan_end_advances(events: Seq<Event>, pos: int, in_head: bool, depth: int)
    requires
        0 <= pos,
    ensures
        scan_end(events, pos, in_head, depth) matches Some(q) ==> pos + 1 <= q <= events.len(),
    decreases events.len() - pos,
{
    if pos < events.len() {
        if in_head {
            match events[pos] {
                Event::Attr(_k, _v) => lemma_scan_end_advances(events, pos + 1, true, depth),
                Event::Empty => lemma_scan_end_advances(events, pos + 1, false, depth),
                Event::Open => lemma_scan_end_advances(events, pos + 1, false, depth + 1),
                _ => {},
            }
        } else {
            match events[pos] {
                Event::Text(_t) => lemma_scan_end_advances(events, pos + 1, false, depth),
                Event::Start(_t) => lemma_scan_end_advances(events, pos + 1, true, depth),
                Event::Close(_c) => lemma_scan_end_advances(events, pos + 1, false, depth - 1),
                _ => {},
            }
        }
    }
}

/// The scoped lookahead stops strictly after where it starts, within the
/// stream.
pub proof fn lemma_find_elem_advances(events: Seq<Event>, tag: Seq<char>, pos: int)
    requires
        0 <= pos,
    ensures
        find_elem_v(events, tag, pos) matches FindV::FoundV(t, p) ==> pos + 1 <= p <= events.len(),
        find_elem_v(events, tag, pos) matches FindV::EndV(p) ==> pos + 1 <= p <= events.len(),
    decreases events.len() - pos,
{
    if pos < events.len() {
        match events[pos] {
            Event::Text(_t) => lemma_find_elem_advances(events, tag, pos + 1),
            _ => {},
        }
    }
}

/// The attribute phase walks exactly the attribute region: an element-end
/// scan started alongside it stops in the same place.
pub proof fn lemma_run_attrs_scan(
    fields: Seq<FieldDescriptor>,
    rname: Seq<char>,
    acc: Seq<AccV>,
    events: Seq<Event>,
    pos: int,
    d0: int,
)
    requires
        0 <= pos <= events.len(),
    ensures
        run_attrs(fields, rname, acc, events, pos) matches Ok(r) ==> scan_end(
            events,
            pos,
            true,
            d0,
        ) == scan_end(events, r.1, true, d0),
    decreases events.len() - pos,
{
    if pos < events.len() {
        match events[pos] {
            Event::Attr(k, v) => {
                let i = attr_field_index(fields, k@, 0);
                if i < 0 {
                    lemma_run_attrs_scan(fields, rname, acc, events, pos + 1, d0);
                } else {
                    match parse_scalar_v(fields[i].scalar, v@) {
                        None => {},
                        Some(sv) => {
                            lemma_run_attrs_scan(
                                fields,
                                rname,
                                store_v(acc, i, ItemV::Scalar(sv), fields[i].cardinality),
                                events,
                                pos + 1,
                                d0,
                            );
                        },
                    }
                }
            },
            _ => {},
        }
    }
}

/// Collecting text walks exactly to the element's close: an element-end
/// scan from the same place stops just there.
pub proof fn lemma_collect_text_scan(events: Seq<Event>, tag: Seq<char>, pos: int, acc: Seq<char>)
    requires
        0 <= pos,
    ensures
        collect_text(events, tag, pos, acc) matches Some(r) ==> scan_end(events, pos, false, 1)
            == Some(r.1),
    decreases events.len() - pos,
{
    if 0 <= pos < events.len() {
        match events[pos] {
            Event::Text(t) => lemma_collect_text_scan(events, tag, pos + 1, acc + t@),
            _ => {},
        }
    }
}

/// Reading raw text consumes exactly the element: the element-end scan
/// from the same place stops where the read stops.
pub proof fn lemma_read_text_scan(events: Seq<Event>, tag: Seq<char>, pos: int)
    requires
        0 <= pos,
    ensures
        read_text_v(events, tag, pos) matches Some(r) ==> scan_end(events, pos, true, 0) == Some(
            r.1,
        ),
    decreases events.len() - pos,
{
    if 0 <= pos < events.len() {
        match events[pos] {
            Event::Attr(_k, _v) => lemma_read_text_scan(events, tag, pos + 1),
            Event::Open => lemma_collect_text_scan(events, tag, pos + 1, Seq::empty()),
            _ => {},
        }
    }
}

/// Scanning at a depth raised by `d` walks the same inner element and
/// then goes on in content mode at depth `d`.
pub proof fn lemma_scan_shift(events: Seq<Event>, pos: int, in_head: bool, d0: int, d: int)
    requires
        0 <= pos,
        0 <= d0,
        1 <= d,
    ensures
        match scan_end(events, pos, in_head, d0) {
            Some(q) => scan_end(events, pos, in_head, d0 + d) == scan_end(events, q, false, d),
            None => true,
        },
    decreases events.len() - pos,
{
    if 0 <= pos < events.len() {
        if in_head {
            match events[pos] {
                Event::Attr(_k, _v) => lemma_scan_shift(events, pos + 1, true, d0, d),
                Event::Empty => {
                    if d0 == 0 {
                    } else {
                        lemma_scan_shift(events, pos + 1, false, d0, d);
                    }
                },
                Event::Open => lemma_scan_shift(events, pos + 1, false, d0 + 1, d),
                _ => {},
            }
        } else {
            match events[pos] {
                Event::Text(_t) => lemma_scan_shift(events, pos + 1, false, d0, d),
                Event::Start(_t) => lemma_scan_shift(events, pos + 1, true, d0, d),
                Event::Close(_c) => {
                    if d0 == 1 {
                    } else if d0 > 1 {
                        lemma_scan_shift(events, pos + 1, false, d0 - 1, d);
                    }
                },
                _ => {},
            }
        }
    }
}

/// The scoped lookahead walks only text runs: an element-end scan started
/// alongside it reaches the close it reaches, or stands just after the
/// found child's start tag, one level deeper.
pub proof fn lemma_find_elem_scan(events: Seq<Event>, tag: Seq<char>, pos: int)
    requires
        0 <= pos,
    ensures
        find_elem_v(events, tag, pos) matches FindV::EndV(p) ==> scan_end(events, pos, false, 1)
            == Some(p),
        find_elem_v(events, tag, pos) matches FindV::FoundV(t, p) ==> scan_end(
            events,
            pos,
            false,
            1,
        ) == scan_end(events, p, true, 1),
    decreases events.len() - pos,
{
    if 0 <= pos < events.len() {
        match events[pos] {
            Event::Text(_t) => lemma_find_elem_scan(events, tag, pos + 1),
            _ => {},
        }
    }
}

/// Decoding the content of an element whose start tag was just consumed:
/// the attribute phase first; then a text element reads its raw text,
/// while a structured element finalizes at once when self-closing and
/// otherwise enters the child loop.
pub open spec fn decode_content_v(
    schemas: Seq<RecordSchema>,
    idx: int,
    tag: Seq<char>,
    events: Seq<Event>,
    pos: int,
) -> Result<RecordV, ErrorV>
    decreases events.len() - pos, 1int,
    when 0 <= pos <= events.len()
{
    let schema = schemas[idx];
    match run_attrs(schema.fields@, schema.name@, init_acc_v(schema.fields@), events, pos) {
        Err(e) => Err(e),
        Ok(r) => {
            let acc = r.0;
            let p1 = r.1;
            if schema.is_text_only {
                let ti = text_field_index(schema.fields@, 0);
                if ti < 0 {
                    Err(ErrorV::MalformedStream)
                } else {
                    match read_text_v(events, tag, p1) {
                        None => Err(ErrorV::MalformedStream),
                        Some(tp) => match parse_scalar_v(schema.fields@[ti].scalar, tp.0) {
                            None => Err(
                                ErrorV::ParseFailed {
                                    record: schema.name@,
                                    field: schema.fields@[ti].name@,
                                },
                            ),
                            Some(sv) => finalize_v(
                                schema,
                                store_v(
                                    acc,
                                    ti,
                                    ItemV::Scalar(sv),
                                    schema.fields@[ti].cardinality,
                                ),
                            ),
                        },
                    }
                }
            } else {
                if p1 >= events.len() {
                    Err(ErrorV::MalformedStream)
                } else {
                    match events[p1] {
                        Event::Empty => finalize_v(schema, acc),
                        Event::Open => {
                            proof {
                                lemma_run_attrs_advances(
                                    schema.fields@,
                                    schema.name@,
                                    init_acc_v(schema.fields@),
                                    events,
                                    pos,
                                );
                            }
                            child_loop_v(schemas, idx, tag, acc, events, p1 + 1)
                        },
                        _ => Err(ErrorV::MalformedStream),
                    }
                }
            }
        },
    }
}

/// The child loop: look ahead for the next element start inside the
/// enclosing element.  A child field's tag decodes a nested record with
/// its own schema; a flattened-text field's tag reads that child's raw
/// text; an unrecognized tag has its whole subtree skipped; the enclosing
/// close tag finalizes the record.
pub open spec fn child_loop_v(
    schemas: Seq<RecordSchema>,
    idx: int,
    tag: Seq<char>,
    acc: Seq<AccV>,
    events: Seq<Event>,
    pos: int,
) -> Result<RecordV, ErrorV>
    decreases events.len() - pos, 0int,
    when 0 <= pos <= events.len()
{
    match find_elem_v(events, tag, pos) {
        FindV::BadV => Err(ErrorV::MalformedStream),
        FindV::EndV(_p) => finalize_v(schemas[idx], acc),
        FindV::FoundV(t, p) => {
            let fields = schemas[idx].fields@;
            let ci = child_field_index(fields, t, 0);
            if ci >= 0 {
                let f = fields[ci];
                proof {
                    lemma_find_elem_advances(events, tag, pos);
                }
                match decode_content_v(schemas, f.child_schema as int, t, events, p) {
                    Err(e) => Err(e),
                    Ok(rv) => match scan_end(events, p, true, 0) {
                        None => Err(ErrorV::MalformedStream),
                        Some(se) => {
                            proof {
                                lemma_scan_end_advances(events, p, true, 0);
                            }
                            child_loop_v(
                                schemas,
                                idx,
                                tag,
                                store_v(acc, ci, ItemV::Rec(rv), f.cardinality),
                                events,
                                se,
                            )
                        },
                    },
                }
            } else {
                let fi = flatten_field_index(fields, t, 0);
                if fi >= 0 {
                    let f = fields[fi];
                    match read_text_v(events, t, p) {
                        None => Err(ErrorV::MalformedStream),
                        Some(tp) => match parse_scalar_v(f.scalar, tp.0) {
                            None => Err(
                                ErrorV::ParseFailed { record: schemas[idx].name@, field: f.name@ },
                            ),
                            Some(sv) => {
                                proof {
                                    lemma_find_elem_advances(events, tag, pos);
                                    lemma_read_text_advances(events, t, p);
                                }
                                child_loop_v(
                                    schemas,
                                    idx,
                                    tag,
                                    store_v(acc, fi, ItemV::Scalar(sv), f.cardinality),
                                    events,
                                    tp.1,
                                )
                            },
                        },
                    }
                } else {
                    match scan_end(events, p, true, 0) {
                        None => Err(ErrorV::MalformedStream),
                        Some(se) => {
                            proof {
                                lemma_find_elem_advances(events, tag, pos);
                                lemma_scan_end_advances(events, p, true, 0);
                            }
                            child_loop_v(schemas, idx, tag, acc, events, se)
                        },
                    }
                }
            }
        },
    }
}

/// The whole decode of one record: advance to the matching element start
/// — its absence is the `ElementNotFound` error — then decode the
/// element's content.
pub open spec fn decode_v(
    schemas: Seq<RecordSchema>,
    idx: int,
    events: Seq<Event>,
    pos: int,
) -> Result<RecordV, ErrorV> {
    match find_start(events, schemas[idx].tag@, pos) {
        None => Err(ErrorV::ElementNotFound),
        Some(p) => decode_content_v(schemas, idx, schemas[idx].tag@, events, p),
    }
}

// What stands below: the decoder reads nothing before its position, so
// two streams that agree from their positions on decode alike.  Together
// with the skip laws this makes unknown-content removal transparent.

/// Two streams agree from the given positions on: same remaining length,
/// same events.
pub open spec fn suffixes_match(e1: Seq<Event>, p1: int, e2: Seq<Event>, p2: int) -> bool {
    &&& 0 <= p1 <= e1.len()
    &&& 0 <= p2 <= e2.len()
    &&& e1.len() - p1 == e2.len() - p2
    &&& forall|k: int| 0 <= k < e1.len() - p1 ==> #[trigger] e1[p1 + k] == e2[p2 + k]
}

/// Agreement from a position carries over to any later position, in step.
pub proof fn lemma_suffixes_match_step(e1: Seq<Event>, p1: int, e2: Seq<Event>, p2: int, d: int)
    requires
        suffixes_match(e1, p1, e2, p2),
        0 <= d <= e1.len() - p1,
    ensures
        suffixes_match(e1, p1 + d, e2, p2 + d),
{
    assert forall|k: int| 0 <= k < e1.len() - (p1 + d) implies #[trigger] e1[p1 + d + k] == e2[p2
        + d + k] by {
        assert(e1[p1 + (d + k)] == e2[p2 + (d + k)]);
    }
}

/// The attribute phase reads nothing before its position.
pub proof fn lemma_run_attrs_frame(
    fields: Seq<FieldDescriptor>,
    rname: Seq<char>,
    acc: Seq<AccV>,
    e1: Seq<Event>,
    p1: int,
    e2: Seq<Event>,
    p2: int,
)
    requires
        suffixes_match(e1, p1, e2, p2),
    ensures
        match (run_attrs(fields, rname, acc, e1, p1), run_attrs(fields, rname, acc, e2, p2)) {
            (Ok(r1), Ok(r2)) => r1.0 == r2.0 && r1.1 - p1 == r2.1 - p2,
            (Err(a), Err(b)) => a == b,
            _ => false,
        },
    decreases e1.len() - p1,
{
    if p1 < e1.len() {
        assert(e1[p1 + 0] == e2[p2 + 0]);
        match e1[p1] {
            Event::Attr(k, v) => {
                let i = attr_field_index(fields, k@, 0);
                lemma_suffixes_match_step(e1, p1, e2, p2, 1);
                if i < 0 {
                    lemma_run_attrs_frame(fields, rname, acc, e1, p1 + 1, e2, p2 + 1);
                } else {
                    match parse_scalar_v(fields[i].scalar, v@) {
                        None => {},
                        Some(sv) => {
                            lemma_run_attrs_frame(
                                fields,
                                rname,
                                store_v(acc, i, ItemV::Scalar(sv), fields[i].cardinality),
                                e1,
                                p1 + 1,
                                e2,
                                p2 + 1,
                            );
                        },
                    }
                }
            },
            _ => {},
        }
    }
}

/// Collecting text reads nothing before its position.
pub proof fn lemma_collect_text_frame(
    tag: Seq<char>,
    acc: Seq<char>,
    e1: Seq<Event>,
    p1: int,
    e2: Seq<Event>,
    p2: int,
)
    requires
        suffixes_match(e1, p1, e2, p2),
    ensures
        match (collect_text(e1, tag, p1, acc), collect_text(e2, tag, p2, acc)) {
            (Some(r1), Some(r2)) => r1.0 == r2.0 && r1.1 - p1 == r2.1 - p2,
            (None, None) => true,
            _ => false,
        },
    decreases e1.len() - p1,
{
    if p1 < e1.len() {
        assert(e1[p1 + 0] == e2[p2 + 0]);
        match e1[p1] {
            Event::Text(t) => {
                lemma_suffixes_match_step(e1, p1, e2, p2, 1);
                lemma_collect_text_frame(tag, acc + t@, e1, p1 + 1, e2, p2 + 1);
            },
            _ => {},
        }
    }
}

/// Reading raw text reads nothing before its position.
pub proof fn lemma_read_text_frame(
    tag: Seq<char>,
    e1: Seq<Event>,
    p1: int,
    e2: Seq<Event>,
    p2: int,
)
    requires
        suffixes_match(e1, p1, e2, p2),
    ensures
        match (read_text_v(e1, tag, p1), read_text_v(e2, tag, p2)) {
            (Some(r1), Some(r2)) => r1.0 == r2.0 && r1.1 - p1 == r2.1 - p2,
            (None, None) => true,
            _ => false,
        },
    decreases e1.len() - p1,
{
    if p1 < e1.len() {
        assert(e1[p1 + 0] == e2[p2 + 0]);
        match e1[p1] {
            Event::Attr(_k, _v) => {
                lemma_suffixes_match_step(e1, p1, e2, p2, 1);
                lemma_read_text_frame(tag, e1, p1 + 1, e2, p2 + 1);
            },
            Event::Open => {
                lemma_suffixes_match_step(e1, p1, e2, p2, 1);
                lemma_collect_text_frame(tag, Seq::empty(), e1, p1 + 1, e2, p2 + 1);
            },
            _ => {},
        }
    }
}

/// The element-end scan reads nothing before its position.
pub proof fn lemma_scan_end_frame(
    in_head: bool,
    depth: int,
    e1: Seq<Event>,
    p1: int,
    e2: Seq<Event>,
    p2: int,
)
    requires
        suffixes_match(e1, p1, e2, p2),
    ensures
        match (scan_end(e1, p1, in_head, depth), scan_end(e2, p2, in_head, depth)) {
            (Some(q1), Some(q2)) => q1 - p1 == q2 - p2,
            (None, None) => true,
            _ => false,
        },
    decreases e1.len() - p1,
{
    if p1 < e1.len() {
        assert(e1[p1 + 0] == e2[p2 + 0]);
        lemma_suffixes_match_step(e1, p1, e2, p2, 1);
        if in_head {
            match e1[p1] {
                Event::Attr(_k, _v) => lemma_scan_end_frame(true, depth, e1, p1 + 1, e2, p2 + 1),
                Event::Empty => {
                    if depth != 0 {
                        lemma_scan_end_frame(false, depth, e1, p1 + 1, e2, p2 + 1);
                    }
                },
                Event::Open => lemma_scan_end_frame(false, depth + 1, e1, p1 + 1, e2, p2 + 1),
                _ => {},
            }
        } else {
            match e1[p1] {
                Event::Text(_t) => lemma_scan_end_frame(false, depth, e1, p1 + 1, e2, p2 + 1),
                Event::Start(_t) => lemma_scan_end_frame(true, depth, e1, p1 + 1, e2, p2 + 1),
                Event::Close(_c) => {
                    if depth != 1 && depth > 1 {
                        lemma_scan_end_frame(false, depth - 1, e1, p1 + 1, e2, p2 + 1);
                    }
                },
                _ => {},
            }
        }
    }
}

/// The scoped lookahead reads nothing before its position.
pub proof fn lemma_find_elem_frame(
    tag: Seq<char>,
    e1: Seq<Event>,
    p1: int,
    e2: Seq<Event>,
    p2: int,
)
    requires
        suffixes_match(e1, p1, e2, p2),
    ensures
        match (find_elem_v(e1, tag, p1), find_elem_v(e2, tag, p2)) {
            (FindV::FoundV(t1, q1), FindV::FoundV(t2, q2)) => t1 == t2 && q1 - p1 == q2 - p2,
            (FindV::EndV(q1), FindV::EndV(q2)) => q1 - p1 == q2 - p2,
            (FindV::BadV, FindV::BadV) => true,
            _ => false,
        },
    decreases e1.len() - p1,
{
    if p1 < e1.len() {
        assert(e1[p1 + 0] == e2[p2 + 0]);
        match e1[p1] {
            Event::Text(_t) => {
                lemma_suffixes_match_step(e1, p1, e2, p2, 1);
                lemma_find_elem_frame(tag, e1, p1 + 1, e2, p2 + 1);
            },
            _ => {},
        }
    }
}


/// Decoding an element's content reads nothing before its position: two
/// streams that agree from their positions on decode to the same result.
pub proof fn lemma_decode_content_frame(
    schemas: Seq<RecordSchema>,
    idx: int,
    tag: Seq<char>,
    e1: Seq<Event>,
    p1: int,
    e2: Seq<Event>,
    p2: int,
)
    requires
        suffixes_match(e1, p1, e2, p2),
    ensures
        decode_content_v(schemas, idx, tag, e1, p1) == decode_content_v(schemas, idx, tag, e2, p2),
    decreases e1.len() - p1, 1int,
{
    let schema = schemas[idx];
    let acc0 = init_acc_v(schema.fields@);
    lemma_run_attrs_frame(schema.fields@, schema.name@, acc0, e1, p1, e2, p2);
    match run_attrs(schema.fields@, schema.name@, acc0, e1, p1) {
        Err(_e) => {},
        Ok(r1) => {
            let q1 = r1.1;
            lemma_run_attrs_advances(schema.fields@, schema.name@, acc0, e1, p1);
            let q2 = p2 + (q1 - p1);
            lemma_suffixes_match_step(e1, p1, e2, p2, q1 - p1);
            if schema.is_text_only {
                lemma_read_text_frame(tag, e1, q1, e2, q2);
            } else {
                if q1 < e1.len() {
                    assert(e1[q1 + 0] == e2[q2 + 0]);
                    match e1[q1] {
                        Event::Open => {
                            lemma_suffixes_match_step(e1, q1, e2, q2, 1);
                            lemma_child_loop_frame(schemas, idx, tag, r1.0, e1, q1 + 1, e2, q2 + 1);
                        },
                        _ => {},
                    }
                }
            }
        },
    }
}

/// The child loop reads nothing before its position: two streams that
/// agree from their positions on decode to the same result.
pub proof fn lemma_child_loop_frame(
    schemas: Seq<RecordSchema>,
    idx: int,
    tag: Seq<char>,
    acc: Seq<AccV>,
    e1: Seq<Event>,
    p1: int,
    e2: Seq<Event>,
    p2: int,
)
    requires
        suffixes_match(e1, p1, e2, p2),
    ensures
        child_loop_v(schemas, idx, tag, acc, e1, p1) == child_loop_v(schemas, idx, tag, acc, e2, p2),
    decreases e1.len() - p1, 0int,
{
    lemma_find_elem_frame(tag, e1, p1, e2, p2);
    match find_elem_v(e1, tag, p1) {
        FindV::BadV => {},
        FindV::EndV(_q) => {},
        FindV::FoundV(t, q1) => {
            lemma_find_elem_advances(e1, tag, p1);
            let q2 = p2 + (q1 - p1);
            lemma_suffixes_match_step(e1, p1, e2, p2, q1 - p1);
            let fields = schemas[idx].fields@;
            let ci = child_field_index(fields, t, 0);
            if ci >= 0 {
                let f = fields[ci];
                lemma_decode_content_frame(schemas, f.child_schema as int, t, e1, q1, e2, q2);
                match decode_content_v(schemas, f.child_schema as int, t, e1, q1) {
                    Err(_e) => {},
                    Ok(rv) => {
                        lemma_scan_end_frame(true, 0, e1, q1, e2, q2);
                        match scan_end(e1, q1, true, 0) {
                            None => {},
                            Some(se1) => {
                                lemma_scan_end_advances(e1, q1, true, 0);
                                lemma_suffixes_match_step(e1, q1, e2, q2, se1 - q1);
                                lemma_child_loop_frame(
                                    schemas,
                                    idx,
                                    tag,
                                    store_v(acc, ci, ItemV::Rec(rv), f.cardinality),
                                    e1,
                                    se1,
                                    e2,
                                    q2 + (se1 - q1),
                                );
                            },
                        }
                    },
                }
            } else {
                let fi = flatten_field_index(fields, t, 0);
                if fi >= 0 {
                    let f = fields[fi];
                    lemma_read_text_frame(t, e1, q1, e2, q2);
                    match read_text_v(e1, t, q1) {
                        None => {},
                        Some(tp) => match parse_scalar_v(f.scalar, tp.0) {
                            None => {},
                            Some(sv) => {
                                lemma_read_text_advances(e1, t, q1);
                                lemma_suffixes_match_step(e1, q1, e2, q2, tp.1 - q1);
                                lemma_child_loop_frame(
                                    schemas,
                                    idx,
                                    tag,
                                    store_v(acc, fi, ItemV::Scalar(sv), f.cardinality),
                                    e1,
                                    tp.1,
                                    e2,
                                    q2 + (tp.1 - q1),
                                );
                            },
                        },
                    }
                } else {
                    lemma_scan_end_frame(true, 0, e1, q1, e2, q2);
                    match scan_end(e1, q1, true, 0) {
                        None => {},
                        Some(se1) => {
                            lemma_scan_end_advances(e1, q1, true, 0);
                            lemma_suffixes_match_step(e1, q1, e2, q2, se1 - q1);
                            lemma_child_loop_frame(
                                schemas,
                                idx,
                                tag,
                                acc,
                                e1,
                                se1,
                                e2,
                                q2 + (se1 - q1),
                            );
                        },
                    }
                }
            }
        },
    }
}


/// What the scoped lookahead walked over: when it finds a child, only
/// text runs stand between its start and the child's start tag.
pub proof fn lemma_find_elem_texts(events: Seq<Event>, tag: Seq<char>, pos: int)
    requires
        0 <= pos,
    ensures
        match find_elem_v(events, tag, pos) {
            FindV::FoundV(t, q) => pos + 1 <= q <= events.len() && (events[q - 1] matches
                Event::Start(tt) && tt@ == t) && forall|j: int|
                pos <= j < q - 1 ==> (#[trigger] events[j]) matches Event::Text(x),
            _ => true,
        },
    decreases events.len() - pos,
{
    if 0 <= pos < events.len() {
        match events[pos] {
            Event::Text(_t) => lemma_find_elem_texts(events, tag, pos + 1),
            _ => {},
        }
    }
}

/// The scoped lookahead passes text runs over: it finds the same thing
/// from anywhere inside a run of text events.
pub proof fn lemma_find_elem_texts_prefix(events: Seq<Event>, tag: Seq<char>, pos: int, r: int)
    requires
        0 <= pos <= r <= events.len(),
        forall|j: int| pos <= j < r ==> (#[trigger] events[j]) matches Event::Text(x),
    ensures
        find_elem_v(events, tag, pos) == find_elem_v(events, tag, r),
    decreases r - pos,
{
    if pos < r {
        lemma_find_elem_texts_prefix(events, tag, pos + 1, r);
    }
}

} // verus!
