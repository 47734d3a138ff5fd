use takumi::{
    Components, DefaultTypeMapper, EnumValue, FieldType, JsonValue, MediaType, OpenApiSpec,
    Operation, Parameter, PathItem, RefResolver, RequestBody, Response, Schema, TypeMapper,
    schema_to_field_type, schema_to_field_type_in,
};

// Builds the library's model of a document from what `sekkei` parsed.

fn json_value(v: &serde_json::Value) -> JsonValue {
    match v {
        serde_json::Value::Null => JsonValue::Null,
        serde_json::Value::Bool(b) => JsonValue::Bool(*b),
        serde_json::Value::Number(n) => JsonValue::Number {
            as_i64: n.as_i64(),
            text: n.to_string(),
        },
        serde_json::Value::String(s) => JsonValue::String(s.clone()),
        serde_json::Value::Array(_) => JsonValue::Array(v.to_string()),
        serde_json::Value::Object(_) => JsonValue::Object(v.to_string()),
    }
}

fn schema_of(s: &sekkei::Schema) -> Schema {
    Schema {
        schema_type: s.schema_type.clone(),
        type_union: s.type_union.clone(),
        description: s.description.clone(),
        properties: s
            .properties
            .iter()
            .map(|(k, v)| (k.clone(), schema_of(v)))
            .collect(),
        items: s.items.as_ref().map(|i| Box::new(schema_of(i))),
        required: s.required.clone(),
        enum_values: s
            .enum_values
            .as_ref()
            .map(|vs| vs.iter().map(json_value).collect()),
        const_value: s.const_value.as_ref().map(json_value),
        ref_path: s.ref_path.clone(),
        all_of: s.all_of.iter().map(schema_of).collect(),
        one_of: s.one_of.iter().map(schema_of).collect(),
        any_of: s.any_of.iter().map(schema_of).collect(),
        nullable: s.nullable,
        additional_properties: s
            .additional_properties
            .as_ref()
            .map(|a| Box::new(schema_of(a))),
        title: s.title.clone(),
    }
}

fn parameter_of(p: &sekkei::Parameter) -> Parameter {
    Parameter {
        name: p.name.clone(),
        location: p.location.clone(),
        required: p.required,
        description: p.description.clone(),
        schema: p.schema.as_ref().map(schema_of),
        ref_path: p.ref_path.clone(),
    }
}

fn content_of(c: &std::collections::BTreeMap<String, sekkei::MediaType>) -> Vec<(String, MediaType)> {
    c.iter()
        .map(|(k, m)| {
            (
                k.clone(),
                MediaType {
                    schema: m.schema.as_ref().map(schema_of),
                },
            )
        })
        .collect()
}

fn request_body_of(b: &sekkei::RequestBody) -> RequestBody {
    RequestBody {
        required: b.required,
        content: content_of(&b.content),
        description: b.description.clone(),
        ref_path: b.ref_path.clone(),
    }
}

fn response_of(r: &sekkei::Response) -> Response {
    Response {
        content: r.content.as_ref().map(content_of),
        ref_path: r.ref_path.clone(),
    }
}

fn operation_of(o: &sekkei::Operation) -> Operation {
    Operation {
        operation_id: o.operation_id.clone(),
        summary: o.summary.clone(),
        description: o.description.clone(),
        parameters: o.parameters.iter().map(parameter_of).collect(),
        request_body: o.request_body.as_ref().map(request_body_of),
        responses: o
            .responses
            .iter()
            .map(|(k, r)| (k.clone(), response_of(r)))
            .collect(),
        tags: o.tags.clone(),
    }
}

fn spec_of(s: &sekkei::OpenApiSpec) -> OpenApiSpec {
    OpenApiSpec {
        paths: s
            .paths
            .iter()
            .map(|(k, item)| {
                (
                    k.clone(),
                    PathItem {
                        get: item.get.as_ref().map(operation_of),
                        post: item.post.as_ref().map(operation_of),
                        put: item.put.as_ref().map(operation_of),
                        delete: item.delete.as_ref().map(operation_of),
                        patch: item.patch.as_ref().map(operation_of),
                        parameters: item.parameters.iter().map(parameter_of).collect(),
                    },
                )
            })
            .collect(),
        components: s.components.as_ref().map(|c| Components {
            schemas: c
                .schemas
                .iter()
                .map(|(k, v)| (k.clone(), schema_of(v)))
                .collect(),
            parameters: c
                .parameters
                .iter()
                .map(|(k, v)| (k.clone(), parameter_of(v)))
                .collect(),
            request_bodies: c
                .request_bodies
                .iter()
                .map(|(k, v)| (k.clone(), request_body_of(v)))
                .collect(),
            responses: c
                .responses
                .iter()
                .map(|(k, v)| (k.clone(), response_of(v)))
                .collect(),
        }),
    }
}

fn int_value(i: i64) -> JsonValue {
    JsonValue::Number {
        as_i64: Some(i),
        text: i.to_string(),
    }
}
fn string_schema() -> Schema {
    Schema {
        schema_type: Some("string".to_string()),
        ..Default::default()
    }
}

fn integer_schema() -> Schema {
    Schema {
        schema_type: Some("integer".to_string()),
        ..Default::default()
    }
}

#[test]
fn basic_string() {
    assert_eq!(schema_to_field_type(&string_schema()), FieldType::String);
}

#[test]
fn basic_integer() {
    assert_eq!(schema_to_field_type(&integer_schema()), FieldType::Integer);
}

#[test]
fn basic_number() {
    let s = Schema {
        schema_type: Some("number".to_string()),
        ..Default::default()
    };
    assert_eq!(schema_to_field_type(&s), FieldType::Number);
}

#[test]
fn basic_boolean() {
    let s = Schema {
        schema_type: Some("boolean".to_string()),
        ..Default::default()
    };
    assert_eq!(schema_to_field_type(&s), FieldType::Boolean);
}

#[test]
fn array_of_strings() {
    let s = Schema {
        schema_type: Some("array".to_string()),
        items: Some(Box::new(string_schema())),
        ..Default::default()
    };
    assert_eq!(
        schema_to_field_type(&s),
        FieldType::Array(Box::new(FieldType::String))
    );
}

#[test]
fn object_with_additional_properties() {
    let s = Schema {
        schema_type: Some("object".to_string()),
        additional_properties: Some(Box::new(string_schema())),
        ..Default::default()
    };
    assert_eq!(
        schema_to_field_type(&s),
        FieldType::StringMap(Box::new(FieldType::String))
    );
}

#[test]
fn ref_schema() {
    let s = Schema {
        ref_path: Some("#/components/schemas/Pet".to_string()),
        ..Default::default()
    };
    assert_eq!(
        schema_to_field_type(&s),
        FieldType::Object("Pet".to_string())
    );
}

#[test]
fn enum_schema() {
    let s = Schema {
        schema_type: Some("string".to_string()),
        enum_values: Some(vec![
            JsonValue::String("a".to_string()),
            JsonValue::String("b".to_string()),
        ]),
        ..Default::default()
    };
    assert_eq!(
        schema_to_field_type(&s),
        FieldType::Enum {
            values: vec!["a".into(), "b".into()],
            underlying: Box::new(FieldType::String),
        }
    );
}

#[test]
fn unknown_type_is_any() {
    let s = Schema::default();
    assert_eq!(schema_to_field_type(&s), FieldType::Any);
}

#[test]
fn empty_object_is_any() {
    let s = Schema {
        schema_type: Some("object".to_string()),
        ..Default::default()
    };
    assert_eq!(schema_to_field_type(&s), FieldType::Any);
}

#[test]
fn nested_array() {
    let inner = Schema {
        schema_type: Some("array".to_string()),
        items: Some(Box::new(integer_schema())),
        ..Default::default()
    };
    let outer = Schema {
        schema_type: Some("array".to_string()),
        items: Some(Box::new(inner)),
        ..Default::default()
    };
    assert_eq!(
        schema_to_field_type(&outer),
        FieldType::Array(Box::new(FieldType::Array(Box::new(FieldType::Integer))))
    );
}

#[test]
fn all_of_with_ref() {
    let s = Schema {
        all_of: vec![Schema {
            ref_path: Some("#/components/schemas/Base".to_string()),
            ..Default::default()
        }],
        ..Default::default()
    };
    assert_eq!(
        schema_to_field_type(&s),
        FieldType::Object("Base".to_string())
    );
}

#[test]
fn object_with_properties_uses_title() {
    let props = vec![("field".to_string(), string_schema())];
    let s = Schema {
        schema_type: Some("object".to_string()),
        title: Some("MyType".to_string()),
        properties: props,
        ..Default::default()
    };
    assert_eq!(
        schema_to_field_type(&s),
        FieldType::Object("MyType".to_string())
    );
}

#[test]
fn object_with_properties_no_title() {
    let props = vec![("field".to_string(), string_schema())];
    let s = Schema {
        schema_type: Some("object".to_string()),
        properties: props,
        ..Default::default()
    };
    assert_eq!(
        schema_to_field_type(&s),
        FieldType::Object("InlineObject".to_string())
    );
}

#[test]
fn array_without_items_is_array_any() {
    let s = Schema {
        schema_type: Some("array".to_string()),
        ..Default::default()
    };
    assert_eq!(
        schema_to_field_type(&s),
        FieldType::Array(Box::new(FieldType::Any))
    );
}

// ── FieldType Display ────────────────────────────────────────

#[test]
fn field_type_display_string() {
    assert_eq!(FieldType::String.to_string(), "String");
}

#[test]
fn field_type_display_integer() {
    assert_eq!(FieldType::Integer.to_string(), "Integer");
}

#[test]
fn field_type_display_number() {
    assert_eq!(FieldType::Number.to_string(), "Number");
}

#[test]
fn field_type_display_boolean() {
    assert_eq!(FieldType::Boolean.to_string(), "Boolean");
}

#[test]
fn field_type_display_any() {
    assert_eq!(FieldType::Any.to_string(), "Any");
}

#[test]
fn field_type_display_array() {
    assert_eq!(
        FieldType::Array(Box::new(FieldType::Integer)).to_string(),
        "Array<Integer>"
    );
}

#[test]
fn field_type_display_nested_array() {
    let nested = FieldType::Array(Box::new(FieldType::Array(Box::new(FieldType::String))));
    assert_eq!(nested.to_string(), "Array<Array<String>>");
}

#[test]
fn field_type_display_map() {
    assert_eq!(
        FieldType::StringMap(Box::new(FieldType::String)).to_string(),
        "Map<String, String>"
    );
}

#[test]
fn field_type_display_enum() {
    let e = FieldType::Enum {
        values: vec!["a".into(), "b".into()],
        underlying: Box::new(FieldType::String),
    };
    assert_eq!(e.to_string(), "Enum(a|b)");
}

#[test]
fn field_type_display_object() {
    assert_eq!(FieldType::Object("Pet".to_string()).to_string(), "Pet");
}

// ── FieldType helpers ────────────────────────────────────────

#[test]
fn field_type_is_primitive() {
    assert!(FieldType::String.is_primitive());
    assert!(FieldType::Integer.is_primitive());
    assert!(FieldType::Number.is_primitive());
    assert!(FieldType::Boolean.is_primitive());
    assert!(!FieldType::Any.is_primitive());
    assert!(!FieldType::Array(Box::new(FieldType::String)).is_primitive());
    assert!(!FieldType::StringMap(Box::new(FieldType::String)).is_primitive());
    assert!(!FieldType::Object("Foo".to_string()).is_primitive());
}

#[test]
fn field_type_is_collection() {
    assert!(FieldType::Array(Box::new(FieldType::String)).is_collection());
    assert!(FieldType::StringMap(Box::new(FieldType::Integer)).is_collection());
    assert!(!FieldType::String.is_collection());
    assert!(!FieldType::Any.is_collection());
    assert!(!FieldType::Object("Foo".to_string()).is_collection());
}

#[test]
fn field_type_inner_type_array() {
    let arr = FieldType::Array(Box::new(FieldType::Integer));
    assert_eq!(arr.inner_type(), Some(&FieldType::Integer));
}

#[test]
fn field_type_inner_type_map() {
    let map = FieldType::StringMap(Box::new(FieldType::Boolean));
    assert_eq!(map.inner_type(), Some(&FieldType::Boolean));
}

#[test]
fn field_type_inner_type_none() {
    assert_eq!(FieldType::String.inner_type(), None);
    assert_eq!(FieldType::Any.inner_type(), None);
    assert_eq!(FieldType::Object("X".to_string()).inner_type(), None);
}

#[test]
fn field_type_enum_values_some() {
    let e = FieldType::Enum {
        values: vec!["x".into(), "y".into()],
        underlying: Box::new(FieldType::String),
    };
    assert_eq!(
        e.enum_values(),
        Some(vec![EnumValue::from("x"), EnumValue::from("y")].as_slice())
    );
}

#[test]
fn field_type_enum_values_none() {
    assert_eq!(FieldType::String.enum_values(), None);
    assert_eq!(FieldType::Integer.enum_values(), None);
    assert_eq!(
        FieldType::Array(Box::new(FieldType::Any)).enum_values(),
        None
    );
}

// ── TypeMapper trait ─────────────────────────────────────────

#[test]
fn default_type_mapper_override_bool() {
    let mapper = DefaultTypeMapper;
    assert_eq!(mapper.map_override("bool"), Some(FieldType::Boolean));
    assert_eq!(mapper.map_override("boolean"), Some(FieldType::Boolean));
}

#[test]
fn default_type_mapper_override_int() {
    let mapper = DefaultTypeMapper;
    assert_eq!(mapper.map_override("int"), Some(FieldType::Integer));
    assert_eq!(mapper.map_override("int64"), Some(FieldType::Integer));
    assert_eq!(mapper.map_override("integer"), Some(FieldType::Integer));
}

#[test]
fn default_type_mapper_override_float() {
    let mapper = DefaultTypeMapper;
    assert_eq!(mapper.map_override("float"), Some(FieldType::Number));
    assert_eq!(mapper.map_override("float64"), Some(FieldType::Number));
    assert_eq!(mapper.map_override("number"), Some(FieldType::Number));
}

#[test]
fn default_type_mapper_override_string() {
    let mapper = DefaultTypeMapper;
    assert_eq!(mapper.map_override("string"), Some(FieldType::String));
}

#[test]
fn default_type_mapper_override_list() {
    let mapper = DefaultTypeMapper;
    assert_eq!(
        mapper.map_override("list"),
        Some(FieldType::Array(Box::new(FieldType::String)))
    );
}

#[test]
fn default_type_mapper_override_unknown() {
    let mapper = DefaultTypeMapper;
    assert_eq!(mapper.map_override("custom"), None);
    assert_eq!(mapper.map_override(""), None);
    assert_eq!(mapper.map_override("map"), None);
}

#[test]
fn default_type_mapper_map_schema() {
    let mapper = DefaultTypeMapper;
    assert_eq!(mapper.map_schema(&string_schema()), FieldType::String);
    assert_eq!(mapper.map_schema(&integer_schema()), FieldType::Integer);
}

#[test]
fn ref_takes_precedence_over_type() {
    let s = Schema {
        schema_type: Some("string".to_string()),
        ref_path: Some("#/components/schemas/Name".to_string()),
        ..Default::default()
    };
    assert_eq!(
        schema_to_field_type(&s),
        FieldType::Object("Name".to_string())
    );
}

#[test]
fn all_of_without_ref_is_any() {
    let s = Schema {
        all_of: vec![Schema {
            schema_type: Some("object".to_string()),
            ..Default::default()
        }],
        ..Default::default()
    };
    assert_eq!(schema_to_field_type(&s), FieldType::Any);
}

#[test]
fn all_of_multiple_refs_uses_first() {
    let s = Schema {
        all_of: vec![
            Schema {
                ref_path: Some("#/components/schemas/First".to_string()),
                ..Default::default()
            },
            Schema {
                ref_path: Some("#/components/schemas/Second".to_string()),
                ..Default::default()
            },
        ],
        ..Default::default()
    };
    assert_eq!(
        schema_to_field_type(&s),
        FieldType::Object("First".to_string())
    );
}

#[test]
fn enum_with_empty_values_is_base_type() {
    let s = Schema {
        schema_type: Some("string".to_string()),
        enum_values: Some(vec![]),
        ..Default::default()
    };
    assert_eq!(schema_to_field_type(&s), FieldType::String);
}

#[test]
fn integer_enum_is_preserved_not_erased() {
    let s = Schema {
        schema_type: Some("integer".to_string()),
        enum_values: Some(vec![
            int_value(1),
            int_value(2),
        ]),
        ..Default::default()
    };
    // This assertion is the inverse of the one it replaces. The old test
    // pinned `FieldType::Integer` -- an all-numeric enum used to filter
    // down to an empty list and then vanish into its base type, so the
    // members were gone with no error. Discord declares 165 integer enum
    // members, and its unions are discriminated by an integer enum of
    // length one, so that erasure removed every discriminant in the spec.
    assert_eq!(
        schema_to_field_type(&s),
        FieldType::Enum {
            values: vec![EnumValue::Int(1), EnumValue::Int(2)],
            underlying: Box::new(FieldType::Integer),
        }
    );
}

// ── nullability ────────────────────────────────────────────────────

fn json(src: &str) -> Schema {
    schema_of(&serde_json::from_str::<sekkei::Schema>(src).unwrap())
}

#[test]
fn one_of_with_a_null_member_is_option_not_a_one_variant_union() {
    // 305 sites in Discord's spec spell nullability this way. Classified as
    // a union first, each becomes a union of one -- the most common wrong
    // answer available -- so the peel must precede every union test.
    // r##"..."## because the JSON pointer contains `"#`, which would
    // terminate a single-hash raw string.
    let s = json(r##"{"oneOf":[{"$ref":"#/components/schemas/Pet"},{"type":"null"}]}"##);
    assert_eq!(
        schema_to_field_type(&s),
        FieldType::Nullable(Box::new(FieldType::Object("Pet".into())))
    );
}

#[test]
fn type_array_and_one_of_null_reach_the_same_type() {
    let a = json(r#"{"type":["string","null"]}"#);
    let b = json(r#"{"oneOf":[{"type":"string"},{"type":"null"}]}"#);
    let want = FieldType::Nullable(Box::new(FieldType::String));
    assert_eq!(schema_to_field_type(&a), want);
    assert_eq!(schema_to_field_type(&b), want);
}

#[test]
fn a_bare_null_schema_is_null_not_any() {
    assert_eq!(
        schema_to_field_type(&json(r#"{"type":"null"}"#)),
        FieldType::Null
    );
}

#[test]
fn const_null_is_indistinguishable_from_absent_a_known_limit() {
    // `sekkei::Schema.const_value` is `Option<Value>`, and serde maps a JSON
    // `null` onto `None` — so `{"const": null}` and a schema with no `const`
    // at all arrive identically, and `is_null_literal` cannot see it.
    //
    // Recorded rather than fixed: `const: null` occurs ZERO times in
    // Discord's spec (measured), so distinguishing it would be speculative
    // work on a shape nothing produces. Fixing it needs a custom
    // deserializer on that field in sekkei, and this test is where that
    // change should announce itself by failing.
    assert_eq!(
        schema_to_field_type(&json(r#"{"const":null}"#)),
        FieldType::Any,
        "if this now returns Null, sekkei gained a null-distinguishing \
         deserializer and is_null_literal's const arm became reachable"
    );
}

#[test]
fn nullable_never_nests() {
    // `type:["string","null"]` sets sekkei's `nullable` AND is a type array;
    // both paths must not each add a wrapper.
    let s = json(r#"{"oneOf":[{"type":["string","null"]},{"type":"null"}]}"#);
    let t = schema_to_field_type(&s);
    assert_eq!(t, FieldType::Nullable(Box::new(FieldType::String)));
    assert!(!matches!(t.non_null(), FieldType::Nullable(_)));
}

#[test]
fn a_one_member_one_of_recurses_rather_than_wrapping() {
    let s = json(r#"{"oneOf":[{"type":"integer"}]}"#);
    assert_eq!(schema_to_field_type(&s), FieldType::Integer);
}

#[test]
fn nullability_composes_through_a_container() {
    // Option<Vec<Option<T>>> -- 8 such sites exist in Discord's spec, and a
    // field-level `nullable: bool` can encode only one of the two levels.
    let s = json(r#"{"type":["array","null"],"items":{"type":["string","null"]}}"#);
    let t = schema_to_field_type(&s);
    assert!(t.is_nullable(), "outer");
    assert!(t.inner_type().unwrap().is_nullable(), "items");
}

// ── accessors on the new variants ──────────────────────────────────
//
// `Display` is the ONLY exhaustive match on FieldType; every accessor below
// uses `matches!` or a wildcard, so a new variant is accepted silently with
// a wrong answer instead of failing to compile. These assertions are the
// forcing function the compiler does not provide.

#[test]
fn nullable_is_transparent_to_every_accessor() {
    let e = FieldType::Nullable(Box::new(FieldType::Enum {
        values: vec![EnumValue::Int(2)],
        underlying: Box::new(FieldType::Integer),
    }));
    // The sharpest one: the discriminant search reads `pinned_value`, and
    // 8 of Discord's buried discriminants are nullable-wrapped. Returning
    // None here would silently cost those unions their tag.
    assert_eq!(e.pinned_value(), Some(&EnumValue::Int(2)));
    assert!(e.is_enum());
    assert_eq!(e.enum_values().unwrap().len(), 1);

    let arr = FieldType::Nullable(Box::new(FieldType::Array(Box::new(FieldType::String))));
    assert!(arr.is_collection());
    assert_eq!(arr.inner_type(), Some(&FieldType::String));
    assert_eq!(arr.depth(), 1, "nullability is not a nesting level");

    let obj = FieldType::Nullable(Box::new(FieldType::Object("Pet".into())));
    assert!(obj.is_object());
    assert_eq!(obj.object_name(), Some("Pet"));

    assert!(FieldType::Nullable(Box::new(FieldType::String)).is_primitive());
    assert!(FieldType::Nullable(Box::new(FieldType::String)).is_nullable());
    assert!(FieldType::Null.is_nullable());
    assert!(!FieldType::Null.is_primitive());
}

// ── $ref resolution ────────────────────────────────────────────────

fn spec_with(schemas: &str) -> OpenApiSpec {
    let doc = format!(
        r#"{{"openapi":"3.1.0","info":{{"title":"t","version":"1"}},
            "paths":{{}},"components":{{"schemas":{schemas}}}}}"#
    );
    spec_of(&serde_json::from_str::<sekkei::OpenApiSpec>(&doc).unwrap())
}

#[test]
fn a_ref_chain_resolves_to_its_terminal_target_not_its_first_hop() {
    // Single-hop resolution stops at `Alias`, whose properties are empty --
    // a phantom type, emitted with no error anywhere.
    let spec = spec_with(
        r##"{"Alias":{"$ref":"#/components/schemas/Real"},
             "Real":{"type":"object","properties":{"a":{"type":"string"}}}}"##,
    );
    let mut r = RefResolver::new(&spec);
    let (target, pointer) = r.resolve_named("#/components/schemas/Alias").unwrap();
    assert_eq!(sekkei::ref_name(&pointer), "Real");
    assert!(
        target.properties.iter().any(|(k, _)| k == "a"),
        "reached the real body"
    );

    let field = json(r##"{"$ref":"#/components/schemas/Alias"}"##);
    assert_eq!(
        schema_to_field_type_in(&mut RefResolver::new(&spec), &field),
        FieldType::Object("Real".into())
    );
}

#[test]
fn a_cycle_is_refused_rather_than_looping() {
    let spec = spec_with(
        r##"{"A":{"$ref":"#/components/schemas/B"},
             "B":{"$ref":"#/components/schemas/A"}}"##,
    );
    let mut r = RefResolver::new(&spec);
    // `is_none()` rather than `assert_eq!(.., None)`: sekkei::Schema does
    // not derive PartialEq, so the Option cannot be compared directly.
    assert!(r.resolve("#/components/schemas/A").is_none());
    assert_eq!(r.depth(), 0, "the path is unwound even on refusal");
}

#[test]
fn a_shared_revisit_is_not_a_cycle() {
    // THE distinction that makes this a stack and not a seen-set. A schema
    // graph is a DAG with heavy sharing -- Discord re-enters
    // ActionRowComponentResponse from five distinct parents -- and a guard
    // that never forgets would call the second visit a cycle and hand back
    // the same phantom the resolver exists to prevent.
    let spec = spec_with(r#"{"Shared":{"type":"object"}}"#);
    let mut r = RefResolver::new(&spec);
    assert!(r.resolve("#/components/schemas/Shared").is_some());
    assert!(
        r.resolve("#/components/schemas/Shared").is_some(),
        "a second, sibling visit must still resolve"
    );
    // And nested under an unrelated path, it still resolves.
    r.within("Parent", |r| {
        assert!(r.resolve("#/components/schemas/Shared").is_some());
    });
    assert_eq!(r.depth(), 0);
}

#[test]
fn a_dangling_ref_keeps_the_written_name() {
    let spec = spec_with(r#"{"Real":{"type":"object"}}"#);
    let field = json(r##"{"$ref":"#/components/schemas/Ghost"}"##);
    assert_eq!(
        schema_to_field_type_in(&mut RefResolver::new(&spec), &field),
        FieldType::Object("Ghost".into()),
        "the written name is still the most useful thing to call it"
    );
}

#[test]
fn new_variants_render() {
    assert_eq!(FieldType::Null.to_string(), "Null");
    assert_eq!(
        FieldType::Nullable(Box::new(FieldType::String)).to_string(),
        "Nullable<String>"
    );
}

#[test]
fn const_is_an_enum_of_one() {
    let s = Schema {
        schema_type: Some("integer".to_string()),
        const_value: Some(int_value(2)),
        ..Default::default()
    };
    let t = schema_to_field_type(&s);
    assert_eq!(t.pinned_value(), Some(&EnumValue::Int(2)));
}

#[test]
fn single_member_enum_is_pinned_the_same_as_const() {
    // Discord writes its discriminants this way -- `{"enum":[2], ...}` --
    // and never as `const`, so both spellings must reach `pinned_value`
    // or a discriminator search finds nothing.
    let s = Schema {
        schema_type: Some("integer".to_string()),
        enum_values: Some(vec![int_value(2)]),
        ..Default::default()
    };
    assert_eq!(
        schema_to_field_type(&s).pinned_value(),
        Some(&EnumValue::Int(2))
    );
}

#[test]
fn a_multi_member_enum_is_not_pinned() {
    let s = Schema {
        schema_type: Some("integer".to_string()),
        enum_values: Some(vec![int_value(1), int_value(2)]),
        ..Default::default()
    };
    assert_eq!(schema_to_field_type(&s).pinned_value(), None);
}

#[test]
fn map_with_integer_values() {
    let s = Schema {
        schema_type: Some("object".to_string()),
        additional_properties: Some(Box::new(integer_schema())),
        ..Default::default()
    };
    assert_eq!(
        schema_to_field_type(&s),
        FieldType::StringMap(Box::new(FieldType::Integer))
    );
}

#[test]
fn map_with_nested_object_values() {
    let s = Schema {
        schema_type: Some("object".to_string()),
        additional_properties: Some(Box::new(Schema {
            ref_path: Some("#/components/schemas/Widget".to_string()),
            ..Default::default()
        })),
        ..Default::default()
    };
    assert_eq!(
        schema_to_field_type(&s),
        FieldType::StringMap(Box::new(FieldType::Object("Widget".to_string())))
    );
}

#[test]
fn array_of_refs() {
    let s = Schema {
        schema_type: Some("array".to_string()),
        items: Some(Box::new(Schema {
            ref_path: Some("#/components/schemas/Tag".to_string()),
            ..Default::default()
        })),
        ..Default::default()
    };
    assert_eq!(
        schema_to_field_type(&s),
        FieldType::Array(Box::new(FieldType::Object("Tag".to_string())))
    );
}

#[test]
fn unrecognized_type_string_is_any() {
    let s = Schema {
        schema_type: Some("custom".to_string()),
        ..Default::default()
    };
    assert_eq!(schema_to_field_type(&s), FieldType::Any);
}

// ── FieldType enum edge cases ────────────────────────────────

#[test]
fn field_type_enum_not_primitive() {
    let e = FieldType::Enum {
        values: vec!["a".into()],
        underlying: Box::new(FieldType::String),
    };
    assert!(!e.is_primitive());
}

#[test]
fn field_type_enum_not_collection() {
    let e = FieldType::Enum {
        values: vec!["a".into()],
        underlying: Box::new(FieldType::String),
    };
    assert!(!e.is_collection());
}

#[test]
fn field_type_enum_no_inner_type() {
    let e = FieldType::Enum {
        values: vec!["a".into()],
        underlying: Box::new(FieldType::String),
    };
    assert!(e.inner_type().is_none());
}

#[test]
fn field_type_display_single_enum_value() {
    let e = FieldType::Enum {
        values: vec!["only".into()],
        underlying: Box::new(FieldType::String),
    };
    assert_eq!(e.to_string(), "Enum(only)");
}

#[test]
fn field_type_display_map_with_complex_value() {
    let ft = FieldType::StringMap(Box::new(FieldType::Array(Box::new(FieldType::Integer))));
    assert_eq!(ft.to_string(), "Map<String, Array<Integer>>");
}

// ── Custom TypeMapper ────────────────────────────────────────

struct CustomMapper;
impl TypeMapper for CustomMapper {
    fn map_schema(&self, _schema: &Schema) -> FieldType {
        FieldType::String
    }

    fn map_override(&self, override_str: &str) -> Option<FieldType> {
        if override_str == "uuid" {
            Some(FieldType::String)
        } else {
            None
        }
    }
}

#[test]
fn custom_type_mapper_map_schema() {
    let mapper = CustomMapper;
    assert_eq!(mapper.map_schema(&integer_schema()), FieldType::String);
}

#[test]
fn custom_type_mapper_map_override() {
    let mapper = CustomMapper;
    assert_eq!(mapper.map_override("uuid"), Some(FieldType::String));
    assert_eq!(mapper.map_override("int"), None);
}

#[test]
fn type_mapper_as_trait_object() {
    let mapper: Box<dyn TypeMapper> = Box::new(DefaultTypeMapper);
    assert_eq!(mapper.map_schema(&string_schema()), FieldType::String);
    assert_eq!(mapper.map_override("int"), Some(FieldType::Integer));
}

// ── FieldType equality ───────────────────────────────────────

#[test]
fn field_type_equality() {
    assert_eq!(FieldType::String, FieldType::String);
    assert_ne!(FieldType::String, FieldType::Integer);
    assert_ne!(
        FieldType::Array(Box::new(FieldType::String)),
        FieldType::Array(Box::new(FieldType::Integer))
    );
    assert_eq!(
        FieldType::Object("A".to_string()),
        FieldType::Object("A".to_string())
    );
    assert_ne!(
        FieldType::Object("A".to_string()),
        FieldType::Object("B".to_string())
    );
}

#[test]
fn field_type_clone() {
    let ft = FieldType::Array(Box::new(FieldType::Object("Test".to_string())));
    let cloned = ft.clone();
    assert_eq!(ft, cloned);
}

#[test]
fn field_type_debug() {
    let ft = FieldType::String;
    let debug = format!("{ft:?}");
    assert!(debug.contains("String"));
}

// ── Default impl ────────────────────────────────────────────

#[test]
fn field_type_default_is_any() {
    assert_eq!(FieldType::default(), FieldType::Any);
}

// ── FromStr round-trip ──────────────────────────────────────

#[test]
fn field_type_from_str_primitives() {
    assert_eq!("String".parse::<FieldType>().unwrap(), FieldType::String);
    assert_eq!("Integer".parse::<FieldType>().unwrap(), FieldType::Integer);
    assert_eq!("Number".parse::<FieldType>().unwrap(), FieldType::Number);
    assert_eq!("Boolean".parse::<FieldType>().unwrap(), FieldType::Boolean);
    assert_eq!("Any".parse::<FieldType>().unwrap(), FieldType::Any);
}

#[test]
fn field_type_from_str_object() {
    assert_eq!(
        "Pet".parse::<FieldType>().unwrap(),
        FieldType::Object("Pet".to_string())
    );
}

#[test]
fn field_type_display_from_str_roundtrip() {
    for ft in [
        FieldType::String,
        FieldType::Integer,
        FieldType::Number,
        FieldType::Boolean,
        FieldType::Any,
    ] {
        let s = ft.to_string();
        let parsed: FieldType = s.parse().unwrap();
        assert_eq!(ft, parsed);
    }
}

// ── From<&Schema> ───────────────────────────────────────────

#[test]
fn field_type_from_schema() {
    let s = string_schema();
    let ft: FieldType = (&s).into();
    assert_eq!(ft, FieldType::String);
}

#[test]
fn field_type_from_schema_integer() {
    let s = integer_schema();
    let ft: FieldType = FieldType::from(&s);
    assert_eq!(ft, FieldType::Integer);
}

// ── is_object / is_enum / object_name ───────────────────────

#[test]
fn field_type_is_object() {
    assert!(FieldType::Object("Pet".to_string()).is_object());
    assert!(!FieldType::String.is_object());
    assert!(!FieldType::Array(Box::new(FieldType::Any)).is_object());
}

#[test]
fn field_type_is_enum() {
    let e = FieldType::Enum {
        values: vec!["a".into()],
        underlying: Box::new(FieldType::String),
    };
    assert!(e.is_enum());
    assert!(!FieldType::String.is_enum());
}

#[test]
fn field_type_object_name() {
    assert_eq!(
        FieldType::Object("User".to_string()).object_name(),
        Some("User")
    );
    assert_eq!(FieldType::String.object_name(), None);
}

// ── depth ────────────────────────────────────────────────────

#[test]
fn field_type_depth_scalar() {
    assert_eq!(FieldType::String.depth(), 0);
    assert_eq!(FieldType::Integer.depth(), 0);
    assert_eq!(FieldType::Any.depth(), 0);
    assert_eq!(FieldType::Object("X".to_string()).depth(), 0);
}

#[test]
fn field_type_depth_array() {
    assert_eq!(FieldType::Array(Box::new(FieldType::String)).depth(), 1);
}

#[test]
fn field_type_depth_nested() {
    let nested = FieldType::Array(Box::new(FieldType::StringMap(Box::new(FieldType::Integer))));
    assert_eq!(nested.depth(), 2);
}

#[test]
fn field_type_depth_enum() {
    let e = FieldType::Enum {
        values: vec!["a".into()],
        underlying: Box::new(FieldType::String),
    };
    assert_eq!(e.depth(), 0);
}

// ── Hash ────────────────────────────────────────────────────

#[test]
fn field_type_hashable() {
    let mut set = std::collections::HashSet::new();
    set.insert(FieldType::String);
    set.insert(FieldType::Integer);
    set.insert(FieldType::String);
    assert_eq!(set.len(), 2);
}

// ── schema_to_field_type: oneOf / anyOf composition ─────────

#[test]
fn one_of_with_ref_is_any() {
    // oneOf without allOf ref pattern falls through to Any
    let s = Schema {
        one_of: vec![
            Schema {
                ref_path: Some("#/components/schemas/Cat".to_string()),
                ..Default::default()
            },
            Schema {
                ref_path: Some("#/components/schemas/Dog".to_string()),
                ..Default::default()
            },
        ],
        ..Default::default()
    };
    // oneOf doesn't have special handling, falls to default branch
    assert_eq!(schema_to_field_type(&s), FieldType::Any);
}

#[test]
fn any_of_without_type_is_any() {
    let s = Schema {
        any_of: vec![
            Schema {
                schema_type: Some("string".to_string()),
                ..Default::default()
            },
            Schema {
                schema_type: Some("integer".to_string()),
                ..Default::default()
            },
        ],
        ..Default::default()
    };
    assert_eq!(schema_to_field_type(&s), FieldType::Any);
}

// ── schema_to_field_type: allOf with non-ref first ──────────

#[test]
fn all_of_ref_not_first_finds_it() {
    let s = Schema {
        all_of: vec![
            Schema {
                schema_type: Some("object".to_string()),
                ..Default::default()
            },
            Schema {
                ref_path: Some("#/components/schemas/Mixin".to_string()),
                ..Default::default()
            },
        ],
        ..Default::default()
    };
    assert_eq!(
        schema_to_field_type(&s),
        FieldType::Object("Mixin".to_string())
    );
}

// ── schema_to_field_type: enum on non-string type ───────────

#[test]
fn enum_on_integer_with_string_values() {
    let s = Schema {
        schema_type: Some("integer".to_string()),
        enum_values: Some(vec![
            JsonValue::String("1".to_string()),
            JsonValue::String("2".to_string()),
        ]),
        ..Default::default()
    };
    assert_eq!(
        schema_to_field_type(&s),
        FieldType::Enum {
            values: vec!["1".into(), "2".into()],
            underlying: Box::new(FieldType::Integer),
        }
    );
}

#[test]
fn enum_with_mixed_values_keeps_every_member() {
    let s = Schema {
        schema_type: Some("string".to_string()),
        enum_values: Some(vec![
            JsonValue::String("valid".to_string()),
            int_value(42),
            JsonValue::Null,
            JsonValue::String("also_valid".to_string()),
        ]),
        ..Default::default()
    };
    match schema_to_field_type(&s) {
        FieldType::Enum {
            values, underlying, ..
        } => {
            // The old test asserted `["valid", "also_valid"]` -- two of the
            // four members, silently. Order is preserved too, because a
            // member's position is meaningful in some encodings.
            assert_eq!(
                values,
                vec![
                    EnumValue::Str("valid".to_string()),
                    EnumValue::Int(42),
                    EnumValue::Null,
                    EnumValue::Str("also_valid".to_string()),
                ]
            );
            assert_eq!(*underlying, FieldType::String);
        }
        other => panic!("expected Enum, got: {other:?}"),
    }
}

#[test]
fn a_value_no_scalar_arm_can_hold_is_kept_as_text_not_dropped() {
    let s = Schema {
        schema_type: Some("number".to_string()),
        enum_values: Some(vec![
                JsonValue::Number {
                    as_i64: None,
                    text: "1.5".to_string(),
                },
                JsonValue::Array("[1,2]".to_string()),
            ]),
        ..Default::default()
    };
    // `FieldType` derives Hash + Eq so a float cannot be held natively;
    // keeping the JSON text is the honest alternative to discarding it,
    // and it stays visible to a generator as a value it must handle.
    assert_eq!(
        schema_to_field_type(&s).enum_values(),
        Some(
            [
                EnumValue::Other("1.5".to_string()),
                EnumValue::Other("[1,2]".to_string()),
            ]
            .as_slice()
        )
    );
}

// ── nested type conversions ─────────────────────────────────

#[test]
fn array_of_array_of_objects() {
    let s = Schema {
        schema_type: Some("array".to_string()),
        items: Some(Box::new(Schema {
            schema_type: Some("array".to_string()),
            items: Some(Box::new(Schema {
                ref_path: Some("#/components/schemas/Cell".to_string()),
                ..Default::default()
            })),
            ..Default::default()
        })),
        ..Default::default()
    };
    let ft = schema_to_field_type(&s);
    assert_eq!(
        ft,
        FieldType::Array(Box::new(FieldType::Array(Box::new(FieldType::Object(
            "Cell".to_string()
        )))))
    );
    assert_eq!(ft.depth(), 2);
}

#[test]
fn map_of_arrays() {
    let s = Schema {
        schema_type: Some("object".to_string()),
        additional_properties: Some(Box::new(Schema {
            schema_type: Some("array".to_string()),
            items: Some(Box::new(Schema {
                schema_type: Some("string".to_string()),
                ..Default::default()
            })),
            ..Default::default()
        })),
        ..Default::default()
    };
    assert_eq!(
        schema_to_field_type(&s),
        FieldType::StringMap(Box::new(FieldType::Array(Box::new(FieldType::String))))
    );
}

// ── From<&Schema> trait with complex types ──────────────────

#[test]
fn from_schema_array_of_refs() {
    let s = Schema {
        schema_type: Some("array".to_string()),
        items: Some(Box::new(Schema {
            ref_path: Some("#/components/schemas/Item".to_string()),
            ..Default::default()
        })),
        ..Default::default()
    };
    let ft: FieldType = (&s).into();
    assert_eq!(
        ft,
        FieldType::Array(Box::new(FieldType::Object("Item".to_string())))
    );
}

#[test]
fn from_schema_enum() {
    let s = Schema {
        schema_type: Some("string".to_string()),
        enum_values: Some(vec![
            JsonValue::String("x".to_string()),
            JsonValue::String("y".to_string()),
        ]),
        ..Default::default()
    };
    let ft = FieldType::from(&s);
    assert!(ft.is_enum());
    assert_eq!(ft.enum_values().unwrap(), &["x", "y"]);
}

// ── TypeMapper trait with complex schemas ────────────────────

#[test]
fn default_type_mapper_maps_array_schema() {
    let mapper = DefaultTypeMapper;
    let s = Schema {
        schema_type: Some("array".to_string()),
        items: Some(Box::new(Schema {
            schema_type: Some("boolean".to_string()),
            ..Default::default()
        })),
        ..Default::default()
    };
    assert_eq!(
        mapper.map_schema(&s),
        FieldType::Array(Box::new(FieldType::Boolean))
    );
}

#[test]
fn default_type_mapper_maps_ref_schema() {
    let mapper = DefaultTypeMapper;
    let s = Schema {
        ref_path: Some("#/components/schemas/Widget".to_string()),
        ..Default::default()
    };
    assert_eq!(
        mapper.map_schema(&s),
        FieldType::Object("Widget".to_string())
    );
}

// ── FieldType depth edge cases ──────────────────────────────

#[test]
fn field_type_depth_map() {
    assert_eq!(FieldType::StringMap(Box::new(FieldType::String)).depth(), 1);
}

#[test]
fn field_type_depth_deeply_nested() {
    let ft = FieldType::Array(Box::new(FieldType::Array(Box::new(FieldType::StringMap(
        Box::new(FieldType::Integer),
    )))));
    assert_eq!(ft.depth(), 3);
}

#[test]
fn field_type_depth_enum_with_underlying_array() {
    let e = FieldType::Enum {
        values: vec!["a".into()],
        underlying: Box::new(FieldType::Array(Box::new(FieldType::String))),
    };
    // Enum depth delegates to underlying
    assert_eq!(e.depth(), 1);
}

// ── Serde roundtrip for complex nested types ────────────────

#[test]
fn field_type_from_str_empty_string_is_object() {
    let ft: FieldType = "".parse().unwrap();
    assert_eq!(ft, FieldType::Object(String::new()));
}

#[test]
fn field_type_from_str_case_sensitive() {
    // "string" (lowercase) is not "String", so it becomes Object
    let ft: FieldType = "string".parse().unwrap();
    assert_eq!(ft, FieldType::Object("string".to_string()));
}

// ── TypeMapper map_override edge cases ───────────────────────

#[test]
fn default_type_mapper_override_all_aliases() {
    let mapper = DefaultTypeMapper;
    // Verify all documented aliases
    let bool_aliases = ["bool", "boolean"];
    for alias in &bool_aliases {
        assert_eq!(
            mapper.map_override(alias),
            Some(FieldType::Boolean),
            "alias '{alias}' should map to Boolean"
        );
    }
    let int_aliases = ["int", "int64", "integer"];
    for alias in &int_aliases {
        assert_eq!(
            mapper.map_override(alias),
            Some(FieldType::Integer),
            "alias '{alias}' should map to Integer"
        );
    }
    let num_aliases = ["float", "float64", "number"];
    for alias in &num_aliases {
        assert_eq!(
            mapper.map_override(alias),
            Some(FieldType::Number),
            "alias '{alias}' should map to Number"
        );
    }
}

#[test]
fn enum_value_integer_text_edges() {
    assert_eq!(EnumValue::Int(-42).to_string(), "-42");
    assert_eq!(EnumValue::Int(0).to_string(), "0");
    assert_eq!(EnumValue::Int(i64::MIN).to_string(), "-9223372036854775808");
    assert_eq!(EnumValue::Int(i64::MAX).to_string(), "9223372036854775807");
    assert_eq!(EnumValue::Null.to_string(), "null");
    assert_eq!(EnumValue::Bool(false).to_string(), "false");
}

#[test]
fn nullable_wrapper_is_transparent_to_accessors() {
    let inner = FieldType::Array(Box::new(FieldType::Integer));
    let wrapped = FieldType::Nullable(Box::new(inner.clone()));
    assert_eq!(wrapped.non_null(), &inner);
    assert_eq!(wrapped.non_null().non_null(), wrapped.non_null());
    assert_eq!(wrapped.depth(), inner.depth());
    assert_eq!(wrapped.is_collection(), inner.is_collection());
    assert_eq!(wrapped.inner_type(), inner.inner_type());
    assert!(wrapped.is_nullable());
    assert!(!inner.is_nullable());
}

#[test]
fn nullable_union_of_nullable_member_does_not_nest() {
    let s = Schema {
        one_of: vec![
            Schema {
                schema_type: Some("string".to_string()),
                nullable: true,
                ..Default::default()
            },
            Schema {
                schema_type: Some("null".to_string()),
                nullable: true,
                ..Default::default()
            },
        ],
        nullable: true,
        ..Default::default()
    };
    assert_eq!(
        schema_to_field_type(&s),
        FieldType::Nullable(Box::new(FieldType::String))
    );
}

#[test]
fn const_and_single_enum_classify_alike() {
    let with_const = Schema {
        const_value: Some(JsonValue::String("dog".to_string())),
        ..Default::default()
    };
    let with_enum = Schema {
        enum_values: Some(vec![JsonValue::String("dog".to_string())]),
        ..Default::default()
    };
    assert_eq!(schema_to_field_type(&with_const), schema_to_field_type(&with_enum));
    let null_const = Schema {
        const_value: Some(JsonValue::Null),
        ..Default::default()
    };
    let null_enum = Schema {
        enum_values: Some(vec![JsonValue::Null]),
        ..Default::default()
    };
    assert_eq!(schema_to_field_type(&null_const), FieldType::Null);
    assert_ne!(schema_to_field_type(&null_const), schema_to_field_type(&null_enum));
}

#[test]
fn render_then_parse_round_trips() {
    for t in [
        FieldType::String,
        FieldType::Integer,
        FieldType::Number,
        FieldType::Boolean,
        FieldType::Any,
        FieldType::Object("Pet".to_string()),
    ] {
        let text = t.to_string();
        let back: FieldType = text.parse().unwrap();
        assert_eq!(back, t);
    }
}

#[test]
fn ref_name_is_last_pointer_segment() {
    let s = Schema {
        ref_path: Some("#/components/schemas/Deep/Name".to_string()),
        ..Default::default()
    };
    assert_eq!(schema_to_field_type(&s), FieldType::Object("Name".to_string()));
}

#[test]
fn a_nullable_ref_with_the_document_in_hand_stays_nullable() {
    let spec = spec_with(
        r##"{"Alias":{"$ref":"#/components/schemas/Real"},
             "Real":{"type":"object","properties":{"a":{"type":"string"}}}}"##,
    );
    let field = Schema {
        ref_path: Some("#/components/schemas/Alias".to_string()),
        nullable: true,
        ..Default::default()
    };
    assert_eq!(
        schema_to_field_type(&field),
        FieldType::Nullable(Box::new(FieldType::Object("Alias".into())))
    );
    let mut r = RefResolver::new(&spec);
    assert_eq!(
        schema_to_field_type_in(&mut r, &field),
        FieldType::Nullable(Box::new(FieldType::Object("Real".into())))
    );
    assert_eq!(r.depth(), 0);
}

#[test]
fn an_empty_enum_list_is_ignored_and_const_pins_alone() {
    let plain = Schema {
        schema_type: Some("integer".to_string()),
        enum_values: Some(vec![]),
        ..Default::default()
    };
    assert_eq!(schema_to_field_type(&plain), FieldType::Integer);
    let pinned = Schema {
        schema_type: Some("integer".to_string()),
        enum_values: Some(vec![]),
        const_value: Some(int_value(3)),
        ..Default::default()
    };
    assert_eq!(
        schema_to_field_type(&pinned),
        FieldType::Enum {
            values: vec![EnumValue::Int(3)],
            underlying: Box::new(FieldType::Integer)
        }
    );
}

#[test]
fn a_union_of_two_real_members_maps_as_without_its_union() {
    let s = Schema {
        schema_type: Some("string".to_string()),
        one_of: vec![string_schema(), integer_schema()],
        ..Default::default()
    };
    assert_eq!(schema_to_field_type(&s), FieldType::String);
}

#[test]
fn nullable_items_do_not_nest_inside_an_array() {
    let items = Schema {
        one_of: vec![
            Schema {
                schema_type: Some("string".to_string()),
                nullable: true,
                ..Default::default()
            },
            Schema {
                schema_type: Some("null".to_string()),
                ..Default::default()
            },
        ],
        nullable: true,
        ..Default::default()
    };
    let s = Schema {
        schema_type: Some("array".to_string()),
        items: Some(Box::new(items)),
        ..Default::default()
    };
    assert_eq!(
        schema_to_field_type(&s),
        FieldType::Array(Box::new(FieldType::Nullable(Box::new(FieldType::String))))
    );
}
