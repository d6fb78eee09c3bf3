use serde_more::adapter::flatten_into;
use serde_more::errors::ConfigError;
use serde_more::errors::SerError;
use serde_more::merge::merge_serialize;
use serde_more::merge::Accessor;
use serde_more::merge::Entity;
use serde_more::record::serialize_record_standalone;
use serde_more::resolve::resolve_entity;
use serde_more::resolve::EntityShape;
use serde_more::resolve::RawDecl;
use serde_more::resolve::RawParam;
use serde_more::value::Entry;
use serde_more::value::OwnField;
use serde_more::value::Value;
use serde_more::writer::MapWriter;

fn param(n: &str, v: &str) -> RawParam {
    RawParam { name: n.to_string(), value: v.to_string() }
}

fn more(params: Vec<RawParam>) -> RawDecl {
    RawDecl { marker: "more".to_string(), params }
}

fn field(name: &str, value: Value) -> OwnField {
    OwnField { name: name.to_string(), rename: None, skip_if_null: false, value }
}

fn acc(name: &str, result: Value) -> Accessor {
    Accessor { name: name.to_string(), result }
}

fn entry(key: &str, value: Value) -> Entry {
    Entry { key: key.to_string(), value }
}

fn resolve_ok(decls: Vec<RawDecl>) -> serde_more::resolve::Resolution {
    resolve_entity("Index", EntityShape::NamedFields, &decls).unwrap()
}

#[test]
fn one_field_one_back_extra() {
    let r = resolve_ok(vec![more(vec![param("key", "doubled"), param("value", "doubled")])]);
    let entity = Entity {
        fields: vec![field("count", Value::Int(7))],
        accessors: vec![acc("doubled", Value::Int(14))],
    };
    let out = merge_serialize(&entity, &r.front, &r.back, false).unwrap();
    assert_eq!(out, vec![entry("count", Value::Int(7)), entry("doubled", Value::Int(14))]);
}

#[test]
fn two_back_extras_keep_declared_order() {
    let r = resolve_ok(vec![
        more(vec![param("key", "a"), param("value", "get_a")]),
        more(vec![param("key", "b"), param("value", "get_b")]),
    ]);
    let entity = Entity {
        fields: vec![field("x", Value::Int(3))],
        accessors: vec![acc("get_b", Value::Int(2)), acc("get_a", Value::Int(1))],
    };
    let out = merge_serialize(&entity, &r.front, &r.back, false).unwrap();
    assert_eq!(
        out,
        vec![entry("x", Value::Int(3)), entry("a", Value::Int(1)), entry("b", Value::Int(2))]
    );
}

#[test]
fn front_extra_precedes_own_fields() {
    let r = resolve_ok(vec![more(vec![param("key", "id"), param("position", "front")])]);
    let entity = Entity {
        fields: vec![field("name", Value::Str("x".to_string()))],
        accessors: vec![acc("id", Value::Int(42))],
    };
    let out = merge_serialize(&entity, &r.front, &r.back, false).unwrap();
    assert_eq!(out, vec![entry("id", Value::Int(42)), entry("name", Value::Str("x".to_string()))]);
}

#[test]
fn skipped_absent_field_leaves_only_extra() {
    let r = resolve_ok(vec![more(vec![param("key", "tag")])]);
    let entity = Entity {
        fields: vec![OwnField {
            name: "opt_value".to_string(),
            rename: None,
            skip_if_null: true,
            value: Value::Null,
        }],
        accessors: vec![acc("tag", Value::Str("t".to_string()))],
    };
    let out = merge_serialize(&entity, &r.front, &r.back, false).unwrap();
    assert_eq!(out, vec![entry("tag", Value::Str("t".to_string()))]);
}

#[test]
fn invalid_position_token_is_rejected() {
    let err = resolve_entity(
        "Index",
        EntityShape::NamedFields,
        &vec![more(vec![param("key", "x"), param("position", "sideways")])],
    )
    .unwrap_err();
    assert_eq!(
        err,
        ConfigError::InvalidPosition {
            entity: "Index".to_string(),
            token: "sideways".to_string()
        }
    );
}

#[test]
fn position_tokens_ignore_ascii_case() {
    let r = resolve_ok(vec![
        more(vec![param("key", "a"), param("position", "FRONT")]),
        more(vec![param("key", "b"), param("position", "BaCk")]),
        more(vec![param("key", "c"), param("position", "Front")]),
    ]);
    assert_eq!(r.front.len(), 2);
    assert_eq!(r.back.len(), 1);
    assert_eq!(r.front[0].key, "a");
    assert_eq!(r.front[1].key, "c");
    assert_eq!(r.back[0].key, "b");
}

#[test]
fn unknown_parameter_is_rejected() {
    let err = resolve_entity(
        "Index",
        EntityShape::NamedFields,
        &vec![more(vec![param("frobnicate", "x")])],
    )
    .unwrap_err();
    assert_eq!(
        err,
        ConfigError::UnknownParam {
            entity: "Index".to_string(),
            param: "frobnicate".to_string()
        }
    );
}

#[test]
fn non_record_shapes_are_rejected() {
    let enum_err = resolve_entity("Choice", EntityShape::TaggedUnion, &vec![]).unwrap_err();
    assert_eq!(enum_err, ConfigError::UnsupportedShape { entity: "Choice".to_string() });
    let union_err = resolve_entity("Raw", EntityShape::UntaggedUnion, &vec![]).unwrap_err();
    assert_eq!(union_err, ConfigError::UnsupportedShape { entity: "Raw".to_string() });
    let tuple_err = resolve_entity("Pair", EntityShape::PositionalFields, &vec![]).unwrap_err();
    assert_eq!(tuple_err, ConfigError::UnsupportedFields { entity: "Pair".to_string() });
    let unit_err = resolve_entity("Unit", EntityShape::NoFields, &vec![]).unwrap_err();
    assert_eq!(unit_err, ConfigError::UnsupportedFields { entity: "Unit".to_string() });
}

#[test]
fn declaration_errors_come_before_the_shape_check() {
    let err = resolve_entity(
        "Choice",
        EntityShape::TaggedUnion,
        &vec![more(vec![param("key", "x"), param("position", "sideways")])],
    )
    .unwrap_err();
    assert_eq!(
        err,
        ConfigError::InvalidPosition {
            entity: "Choice".to_string(),
            token: "sideways".to_string()
        }
    );
}

#[test]
fn keyless_declarations_contribute_nothing() {
    let r = resolve_ok(vec![
        more(vec![]),
        more(vec![param("position", "front")]),
        more(vec![param("value", "orphan")]),
    ]);
    assert_eq!(r.front.len(), 0);
    assert_eq!(r.back.len(), 0);
    let entity = Entity { fields: vec![field("x", Value::Int(1))], accessors: vec![] };
    let out = merge_serialize(&entity, &r.front, &r.back, false).unwrap();
    assert_eq!(out, vec![entry("x", Value::Int(1))]);
}

#[test]
fn key_alone_defaults_the_accessor_to_the_key() {
    let short = resolve_ok(vec![more(vec![param("k", "name")])]);
    let long = resolve_ok(vec![more(vec![param("k", "name"), param("v", "name")])]);
    assert_eq!(short.front, long.front);
    assert_eq!(short.back, long.back);
    let entity = Entity {
        fields: vec![field("current", Value::Int(5))],
        accessors: vec![acc("name", Value::Str("Index".to_string()))],
    };
    let out_short = merge_serialize(&entity, &short.front, &short.back, false).unwrap();
    let out_long = merge_serialize(&entity, &long.front, &long.back, false).unwrap();
    assert_eq!(out_short, out_long);
}

#[test]
fn later_parameters_overwrite_earlier_ones() {
    let r = resolve_ok(vec![more(vec![
        param("key", "first"),
        param("key", "second"),
        param("position", "front"),
        param("position", "back"),
    ])]);
    assert_eq!(r.front.len(), 0);
    assert_eq!(r.back.len(), 1);
    assert_eq!(r.back[0].key, "second");
    assert_eq!(r.back[0].accessor, "second");
}

#[test]
fn pass_through_declarations_are_forwarded_verbatim() {
    let decls = vec![
        RawDecl { marker: "serde".to_string(), params: vec![param("rename_all", "kebab-case")] },
        more(vec![param("key", "extra")]),
    ];
    let r = resolve_entity("Index", EntityShape::NamedFields, &decls).unwrap();
    let expected = RawDecl {
        marker: "serde".to_string(),
        params: vec![param("rename_all", "kebab-case")],
    };
    assert_eq!(r.passthrough, vec![expected]);
    assert_eq!(r.back.len(), 1);
}

#[test]
fn renamed_and_skipped_fields_pass_through_the_merge() {
    let r = resolve_ok(vec![more(vec![param("k", "extraVal"), param("v", "extra_val")])]);
    let entity = Entity {
        fields: vec![
            OwnField {
                name: "field_name".to_string(),
                rename: Some("field-name".to_string()),
                skip_if_null: false,
                value: Value::Int(1),
            },
            OwnField {
                name: "opt_value".to_string(),
                rename: None,
                skip_if_null: true,
                value: Value::Null,
            },
        ],
        accessors: vec![acc("extra_val", Value::Str("ok".to_string()))],
    };
    let out = merge_serialize(&entity, &r.front, &r.back, false).unwrap();
    assert_eq!(
        out,
        vec![entry("field-name", Value::Int(1)), entry("extraVal", Value::Str("ok".to_string()))]
    );
}

#[test]
fn merged_and_standalone_field_output_agree() {
    let fields = vec![
        OwnField {
            name: "a".to_string(),
            rename: Some("renamed-a".to_string()),
            skip_if_null: false,
            value: Value::Int(10),
        },
        OwnField {
            name: "gone".to_string(),
            rename: None,
            skip_if_null: true,
            value: Value::Null,
        },
        field("b", Value::Bool(true)),
    ];
    let standalone = serialize_record_standalone(&fields, false).unwrap();
    let r = resolve_ok(vec![
        more(vec![param("key", "front_x"), param("position", "front")]),
        more(vec![param("key", "back_y")]),
    ]);
    let entity = Entity {
        fields,
        accessors: vec![acc("front_x", Value::Int(0)), acc("back_y", Value::Int(9))],
    };
    let out = merge_serialize(&entity, &r.front, &r.back, false).unwrap();
    assert_eq!(out.len(), 1 + standalone.len() + 1);
    assert_eq!(&out[1..1 + standalone.len()], &standalone[..]);
}

#[test]
fn missing_accessor_aborts_the_merge() {
    let r = resolve_ok(vec![more(vec![param("key", "ghost_entry")])]);
    let entity = Entity { fields: vec![field("x", Value::Int(1))], accessors: vec![] };
    let err = merge_serialize(&entity, &r.front, &r.back, false).unwrap_err();
    assert_eq!(err, SerError::UnknownAccessor { accessor: "ghost_entry".to_string() });
}

#[test]
fn rejected_value_aborts_the_merge() {
    let entity = Entity {
        fields: vec![field("present", Value::Int(1)), field("absent", Value::Null)],
        accessors: vec![],
    };
    let err = merge_serialize(&entity, &vec![], &vec![], true).unwrap_err();
    assert_eq!(err, SerError::ValueRejected);
}

#[test]
fn skipped_null_is_never_written_so_never_rejected() {
    let entity = Entity {
        fields: vec![OwnField {
            name: "absent".to_string(),
            rename: None,
            skip_if_null: true,
            value: Value::Null,
        }],
        accessors: vec![],
    };
    let out = merge_serialize(&entity, &vec![], &vec![], true).unwrap();
    assert_eq!(out, vec![]);
}

#[test]
fn adapter_rejects_every_non_record_shape() {
    let samples = vec![
        Value::Null,
        Value::Bool(true),
        Value::Int(3),
        Value::Str("s".to_string()),
        Value::OptSome(Box::new(Value::Int(1))),
        Value::List(vec![Value::Int(1)]),
        Value::Dict(vec![entry("k", Value::Int(1))]),
        Value::Tagged("variant".to_string(), Box::new(Value::Int(1))),
    ];
    for v in samples {
        let mut w = MapWriter::begin(None, false);
        assert_eq!(flatten_into(&v, &mut w), Err(SerError::ExpectedRecord));
        assert_eq!(w.finish(), vec![]);
    }
}

#[test]
fn adapter_forwards_record_fields_into_the_open_map() {
    let mut w = MapWriter::begin(None, false);
    w.write_entry("already".to_string(), Value::Int(0)).unwrap();
    let v = Value::Rec(vec![field("a", Value::Int(1)), field("b", Value::Int(2))]);
    flatten_into(&v, &mut w).unwrap();
    assert_eq!(
        w.finish(),
        vec![
            entry("already", Value::Int(0)),
            entry("a", Value::Int(1)),
            entry("b", Value::Int(2))
        ]
    );
}

#[test]
fn writer_rejection_leaves_the_map_unchanged() {
    let mut w = MapWriter::begin(None, true);
    w.write_entry("ok".to_string(), Value::Int(1)).unwrap();
    let err = w.write_entry("bad".to_string(), Value::Null).unwrap_err();
    assert_eq!(err, SerError::ValueRejected);
    assert_eq!(w.finish(), vec![entry("ok", Value::Int(1))]);
}

#[test]
fn duplicate_keys_are_emitted_not_deduplicated() {
    let r = resolve_ok(vec![more(vec![param("key", "x"), param("value", "extra_x")])]);
    let entity = Entity {
        fields: vec![field("x", Value::Int(1))],
        accessors: vec![acc("extra_x", Value::Int(2))],
    };
    let out = merge_serialize(&entity, &r.front, &r.back, false).unwrap();
    assert_eq!(out, vec![entry("x", Value::Int(1)), entry("x", Value::Int(2))]);
}

#[test]
fn same_accessor_can_back_two_extras() {
    let r = resolve_ok(vec![
        more(vec![param("key", "n1"), param("value", "n")]),
        more(vec![param("key", "n2"), param("value", "n")]),
    ]);
    let entity = Entity {
        fields: vec![field("x", Value::Int(0))],
        accessors: vec![acc("n", Value::Int(7))],
    };
    let out = merge_serialize(&entity, &r.front, &r.back, false).unwrap();
    assert_eq!(
        out,
        vec![entry("x", Value::Int(0)), entry("n1", Value::Int(7)), entry("n2", Value::Int(7))]
    );
}

#[test]
fn readme_style_index_entity_orders_all_positions() {
    let r = resolve_ok(vec![
        more(vec![param("key", "next"), param("value", "get_next")]),
        more(vec![param("k", "description"), param("v", "get_description")]),
        more(vec![param("k", "name")]),
        more(vec![param("key", "previous"), param("position", "front")]),
    ]);
    let entity = Entity {
        fields: vec![field("current", Value::Int(5))],
        accessors: vec![
            acc("get_next", Value::Int(6)),
            acc("get_description", Value::Str("Index struct".to_string())),
            acc("name", Value::Str("Index".to_string())),
            acc("previous", Value::Int(4)),
        ],
    };
    let out = merge_serialize(&entity, &r.front, &r.back, false).unwrap();
    assert_eq!(
        out,
        vec![
            entry("previous", Value::Int(4)),
            entry("current", Value::Int(5)),
            entry("next", Value::Int(6)),
            entry("description", Value::Str("Index struct".to_string())),
            entry("name", Value::Str("Index".to_string())),
        ]
    );
}

#[test]
fn flatten_stops_at_the_first_rejected_value() {
    let mut w = MapWriter::begin(None, true);
    let v = Value::Rec(vec![
        field("a", Value::Int(1)),
        field("bad", Value::Null),
        field("c", Value::Int(3)),
    ]);
    assert_eq!(flatten_into(&v, &mut w), Err(SerError::ValueRejected));
    assert_eq!(w.finish(), vec![entry("a", Value::Int(1))]);
}
