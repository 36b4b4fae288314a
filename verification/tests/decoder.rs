//! End-to-end tests of the schema-driven decoder: the concrete scenarios,
//! the boolean vocabulary, the required/default policy, forward
//! compatibility, and the error cases.

use xmldecode::decode::{decode, DecodeError};
use xmldecode::events::{Event, TokenSource};
use xmldecode::scalar::parse_scalar;
use xmldecode::schema::{Cardinality, FieldDescriptor, FieldKind, RecordSchema, ScalarKind};
use xmldecode::value::{FieldValue, Item, Record, Scalar};

fn s(x: &str) -> String {
    x.to_string()
}

fn field(
    name: &str,
    kind: FieldKind,
    tags: &[&str],
    cardinality: Cardinality,
    default_on_missing: bool,
    scalar: ScalarKind,
    child_schema: usize,
) -> FieldDescriptor {
    FieldDescriptor {
        name: s(name),
        kind,
        tags: tags.iter().map(|t| s(t)).collect(),
        cardinality,
        default_on_missing,
        scalar,
        child_schema,
    }
}

/// Schema 0: `Person` — `attr age:int` required, `child name` (a
/// text-only record, schema 1) required, `child nickname` (schema 2)
/// optional, flattened-text `tags` repeated.
/// Schema 1: `Name`, a text-only record with tag `name`.
/// Schema 2: `Nick`, a text-only record with tag `nick`.
fn person_schemas() -> Vec<RecordSchema> {
    vec![
        RecordSchema {
            name: s("Person"),
            tag: s("person"),
            is_text_only: false,
            fields: vec![
                field("age", FieldKind::Attribute, &["age"], Cardinality::Single, false, ScalarKind::Int, 0),
                field("name", FieldKind::Child, &["name"], Cardinality::Single, false, ScalarKind::Str, 1),
                field("nickname", FieldKind::Child, &["nick"], Cardinality::Optional, false, ScalarKind::Str, 2),
                field("tags", FieldKind::FlattenText, &["tag"], Cardinality::Repeated, false, ScalarKind::Str, 0),
            ],
        },
        RecordSchema {
            name: s("Name"),
            tag: s("name"),
            is_text_only: true,
            fields: vec![
                field("value", FieldKind::Text, &["name"], Cardinality::Single, false, ScalarKind::Str, 0),
            ],
        },
        RecordSchema {
            name: s("Nick"),
            tag: s("nick"),
            is_text_only: true,
            fields: vec![
                field("value", FieldKind::Text, &["nick"], Cardinality::Single, false, ScalarKind::Str, 0),
            ],
        },
    ]
}

fn text_record(name: &str, value: &str) -> Record {
    Record {
        name: s(name),
        values: vec![FieldValue::One(Item::Scalar(Scalar::Str(s(value))))],
    }
}

/// `<person age="7"><name>Ann</name><tag>x</tag><tag>y</tag></person>`
fn person_events() -> Vec<Event> {
    vec![
        Event::Start(s("person")),
        Event::Attr(s("age"), s("7")),
        Event::Open,
        Event::Start(s("name")),
        Event::Open,
        Event::Text(s("Ann")),
        Event::Close(s("name")),
        Event::Start(s("tag")),
        Event::Open,
        Event::Text(s("x")),
        Event::Close(s("tag")),
        Event::Start(s("tag")),
        Event::Open,
        Event::Text(s("y")),
        Event::Close(s("tag")),
        Event::Close(s("person")),
    ]
}

fn expected_person() -> Record {
    Record {
        name: s("Person"),
        values: vec![
            FieldValue::One(Item::Scalar(Scalar::Int(7))),
            FieldValue::One(Item::Rec(text_record("Name", "Ann"))),
            FieldValue::Opt(None),
            FieldValue::Many(vec![
                Item::Scalar(Scalar::Str(s("x"))),
                Item::Scalar(Scalar::Str(s("y"))),
            ]),
        ],
    }
}

fn run(schemas: &Vec<RecordSchema>, idx: usize, events: Vec<Event>) -> Result<Record, DecodeError> {
    let mut src = TokenSource::new(events);
    decode(schemas, idx, &mut src)
}

#[test]
fn person_scenario_decodes() {
    let schemas = person_schemas();
    let r = run(&schemas, 0, person_events());
    assert_eq!(r, Ok(expected_person()));
}

#[test]
fn person_missing_required_age_fails() {
    let schemas = person_schemas();
    let events = vec![
        Event::Start(s("person")),
        Event::Open,
        Event::Start(s("name")),
        Event::Open,
        Event::Text(s("Ann")),
        Event::Close(s("name")),
        Event::Close(s("person")),
    ];
    let r = run(&schemas, 0, events);
    assert_eq!(
        r,
        Err(DecodeError::MissingField { record: s("Person"), field: s("age") })
    );
}

#[test]
fn unknown_child_subtree_is_transparent() {
    let schemas = person_schemas();
    let mut with_extra = person_events();
    // an unexpected <extra a="1"><extra>deep</extra>text</extra> child,
    // nesting an element of the same tag, inserted before the tags
    let extra = vec![
        Event::Start(s("extra")),
        Event::Attr(s("a"), s("1")),
        Event::Open,
        Event::Start(s("extra")),
        Event::Open,
        Event::Text(s("deep")),
        Event::Close(s("extra")),
        Event::Text(s("text")),
        Event::Close(s("extra")),
    ];
    for (i, e) in extra.into_iter().enumerate() {
        with_extra.insert(7 + i, e);
    }
    let with_it = run(&schemas, 0, with_extra);
    let without = run(&schemas, 0, person_events());
    assert_eq!(with_it, without);
    assert_eq!(with_it, Ok(expected_person()));
}

#[test]
fn unknown_attribute_is_ignored() {
    let schemas = person_schemas();
    let mut events = person_events();
    events.insert(1, Event::Attr(s("color"), s("blue")));
    assert_eq!(run(&schemas, 0, events), Ok(expected_person()));
}

#[test]
fn duplicate_single_attribute_last_write_wins() {
    let schemas = person_schemas();
    let mut events = person_events();
    events.insert(2, Event::Attr(s("age"), s("9")));
    let r = run(&schemas, 0, events).unwrap();
    assert_eq!(r.values[0], FieldValue::One(Item::Scalar(Scalar::Int(9))));
}

#[test]
fn optional_child_present_when_tag_appears() {
    let schemas = person_schemas();
    let mut events = person_events();
    let nick = vec![
        Event::Start(s("nick")),
        Event::Open,
        Event::Text(s("Nan")),
        Event::Close(s("nick")),
    ];
    for (i, e) in nick.into_iter().enumerate() {
        events.insert(7 + i, e);
    }
    let r = run(&schemas, 0, events).unwrap();
    assert_eq!(
        r.values[2],
        FieldValue::Opt(Some(Item::Rec(text_record("Nick", "Nan"))))
    );
}

#[test]
fn self_closing_element_resolves_by_policy() {
    // <gadget id="3"/>: the optional label is absent, the repeated notes
    // are empty, the defaulted count is zero
    let schemas = vec![RecordSchema {
        name: s("Gadget"),
        tag: s("gadget"),
        is_text_only: false,
        fields: vec![
            field("id", FieldKind::Attribute, &["id"], Cardinality::Single, false, ScalarKind::Int, 0),
            field("count", FieldKind::Attribute, &["count"], Cardinality::Single, true, ScalarKind::Int, 0),
            field("label", FieldKind::Attribute, &["label"], Cardinality::Optional, false, ScalarKind::Str, 0),
            field("notes", FieldKind::FlattenText, &["note"], Cardinality::Repeated, false, ScalarKind::Str, 0),
        ],
    }];
    let events = vec![
        Event::Start(s("gadget")),
        Event::Attr(s("id"), s("3")),
        Event::Empty,
    ];
    let r = run(&schemas, 0, events).unwrap();
    assert_eq!(
        r,
        Record {
            name: s("Gadget"),
            values: vec![
                FieldValue::One(Item::Scalar(Scalar::Int(3))),
                FieldValue::One(Item::Scalar(Scalar::Int(0))),
                FieldValue::Opt(None),
                FieldValue::Many(vec![]),
            ],
        }
    );
}

#[test]
fn element_not_found_when_tag_absent() {
    let schemas = person_schemas();
    let events = vec![
        Event::Start(s("animal")),
        Event::Open,
        Event::Close(s("animal")),
    ];
    assert_eq!(run(&schemas, 0, events), Err(DecodeError::ElementNotFound));
}

#[test]
fn truncated_stream_is_malformed() {
    let schemas = person_schemas();
    let events = vec![
        Event::Start(s("person")),
        Event::Attr(s("age"), s("7")),
        Event::Open,
    ];
    assert_eq!(run(&schemas, 0, events), Err(DecodeError::MalformedStream));
}

#[test]
fn bad_scalar_text_reports_parse_failure() {
    let schemas = person_schemas();
    let mut events = person_events();
    events[1] = Event::Attr(s("age"), s("abc"));
    assert_eq!(
        run(&schemas, 0, events),
        Err(DecodeError::ParseFailed { record: s("Person"), field: s("age") })
    );
}

#[test]
fn text_only_record_reads_raw_text() {
    let schemas = person_schemas();
    let events = vec![
        Event::Start(s("name")),
        Event::Open,
        Event::Text(s("Bo")),
        Event::Close(s("name")),
    ];
    assert_eq!(run(&schemas, 1, events), Ok(text_record("Name", "Bo")));
}

#[test]
fn self_closing_text_element_reads_empty_text() {
    let schemas = person_schemas();
    let events = vec![Event::Start(s("name")), Event::Empty];
    assert_eq!(run(&schemas, 1, events), Ok(text_record("Name", "")));
}

#[test]
fn structured_records_nest() {
    // a team holds whole person records as repeated children
    let mut schemas = person_schemas();
    schemas.push(RecordSchema {
        name: s("Team"),
        tag: s("team"),
        is_text_only: false,
        fields: vec![field(
            "members",
            FieldKind::Child,
            &["person"],
            Cardinality::Repeated,
            false,
            ScalarKind::Str,
            0,
        )],
    });
    let mut events = vec![Event::Start(s("team")), Event::Open];
    events.extend(person_events());
    events.push(Event::Close(s("team")));
    let r = run(&schemas, 3, events).unwrap();
    assert_eq!(
        r,
        Record {
            name: s("Team"),
            values: vec![FieldValue::Many(vec![Item::Rec(expected_person())])],
        }
    );
}

#[test]
fn boolean_vocabulary_truthy() {
    for t in ["t", "true", "y", "yes", "on", "1"] {
        assert_eq!(
            parse_scalar(ScalarKind::Bool, &s(t)),
            Ok(Scalar::Bool(true)),
            "token {}",
            t
        );
    }
}

#[test]
fn boolean_vocabulary_falsy() {
    for t in ["f", "false", "n", "no", "off", "0"] {
        assert_eq!(
            parse_scalar(ScalarKind::Bool, &s(t)),
            Ok(Scalar::Bool(false)),
            "token {}",
            t
        );
    }
}

#[test]
fn boolean_vocabulary_rejects_other_tokens() {
    for t in ["maybe", "TRUE", "Yes", "", " true", "2"] {
        assert_eq!(parse_scalar(ScalarKind::Bool, &s(t)), Err(()), "token {}", t);
    }
}

#[test]
fn integer_parsing_exact_values() {
    assert_eq!(parse_scalar(ScalarKind::Int, &s("7")), Ok(Scalar::Int(7)));
    assert_eq!(parse_scalar(ScalarKind::Int, &s("-12")), Ok(Scalar::Int(-12)));
    assert_eq!(parse_scalar(ScalarKind::Int, &s("+5")), Ok(Scalar::Int(5)));
    assert_eq!(parse_scalar(ScalarKind::Int, &s("007")), Ok(Scalar::Int(7)));
    assert_eq!(
        parse_scalar(ScalarKind::Int, &s("9223372036854775807")),
        Ok(Scalar::Int(i64::MAX))
    );
    assert_eq!(
        parse_scalar(ScalarKind::Int, &s("-9223372036854775808")),
        Ok(Scalar::Int(i64::MIN))
    );
    assert_eq!(parse_scalar(ScalarKind::Int, &s("9223372036854775808")), Err(()));
    assert_eq!(parse_scalar(ScalarKind::Int, &s("x")), Err(()));
    assert_eq!(parse_scalar(ScalarKind::Int, &s("")), Err(()));
    assert_eq!(parse_scalar(ScalarKind::Int, &s("1 2")), Err(()));
}

#[test]
fn raw_string_scalar_is_identity() {
    assert_eq!(
        parse_scalar(ScalarKind::Str, &s("any text")),
        Ok(Scalar::Str(s("any text")))
    );
}

#[test]
fn attribute_on_flattened_text_child_is_ignored() {
    let schemas = person_schemas();
    let mut events = person_events();
    // <tag lang="en">x</tag>: the unknown attribute never causes failure
    events.insert(8, Event::Attr(s("lang"), s("en")));
    assert_eq!(run(&schemas, 0, events), Ok(expected_person()));
}

#[test]
fn repeated_boolean_children_accumulate_in_order() {
    let schemas = vec![RecordSchema {
        name: s("Poll"),
        tag: s("poll"),
        is_text_only: false,
        fields: vec![field(
            "votes",
            FieldKind::FlattenText,
            &["vote"],
            Cardinality::Repeated,
            false,
            ScalarKind::Bool,
            0,
        )],
    }];
    let events = vec![
        Event::Start(s("poll")),
        Event::Open,
        Event::Start(s("vote")),
        Event::Open,
        Event::Text(s("yes")),
        Event::Close(s("vote")),
        Event::Start(s("vote")),
        Event::Open,
        Event::Text(s("off")),
        Event::Close(s("vote")),
        Event::Close(s("poll")),
    ];
    let r = run(&schemas, 0, events).unwrap();
    assert_eq!(
        r.values[0],
        FieldValue::Many(vec![
            Item::Scalar(Scalar::Bool(true)),
            Item::Scalar(Scalar::Bool(false)),
        ])
    );
}
