use jtd::json::Json;
use jtd::number::Number;
use jtd::schema::Schema;
use jtd::schema::Type;
use jtd::serde_schema::SerdeSchema;
use jtd::validity::SchemaValidateError;
use jtd::wire::FromSerdeSchemaError;

fn to_json(value: &serde_json::Value) -> Json {
    match value {
        serde_json::Value::Null => Json::Null,
        serde_json::Value::Bool(b) => Json::Bool(*b),
        serde_json::Value::Number(n) => Json::Number(if let Some(u) = n.as_u64() {
            Number::PosInt(u)
        } else if let Some(i) = n.as_i64() {
            Number::NegInt(i)
        } else {
            Number::Float(n.as_f64().unwrap().to_bits())
        }),
        serde_json::Value::String(s) => Json::String(s.clone()),
        serde_json::Value::Array(items) => Json::Array(items.iter().map(to_json).collect()),
        serde_json::Value::Object(members) => Json::Object(
            members
                .iter()
                .map(|(name, value)| (name.clone(), to_json(value)))
                .collect(),
        ),
    }
}

fn to_entries(value: &serde_json::Value) -> Vec<(String, SerdeSchema)> {
    value
        .as_object()
        .unwrap()
        .iter()
        .map(|(name, value)| (name.clone(), to_wire(value)))
        .collect()
}

fn to_wire(value: &serde_json::Value) -> SerdeSchema {
    let mut wire = SerdeSchema::default();
    for (keyword, value) in value.as_object().unwrap() {
        match keyword.as_str() {
            "metadata" => {
                wire.metadata = Some(
                    value
                        .as_object()
                        .unwrap()
                        .iter()
                        .map(|(name, value)| (name.clone(), to_json(value)))
                        .collect(),
                )
            }
            "definitions" => wire.definitions = Some(to_entries(value)),
            "nullable" => wire.nullable = Some(value.as_bool().unwrap()),
            "ref" => wire.ref_ = Some(value.as_str().unwrap().to_owned()),
            "type" => wire.type_ = Some(value.as_str().unwrap().to_owned()),
            "enum" => {
                wire.enum_ = Some(
                    value
                        .as_array()
                        .unwrap()
                        .iter()
                        .map(|v| v.as_str().unwrap().to_owned())
                        .collect(),
                )
            }
            "elements" => wire.elements = Some(Box::new(to_wire(value))),
            "properties" => wire.properties = Some(to_entries(value)),
            "optionalProperties" => wire.optional_properties = Some(to_entries(value)),
            "additionalProperties" => wire.additional_properties = Some(value.as_bool().unwrap()),
            "values" => wire.values = Some(Box::new(to_wire(value))),
            "discriminator" => wire.discriminator = Some(value.as_str().unwrap().to_owned()),
            "mapping" => wire.mapping = Some(to_entries(value)),
            other => panic!("unknown keyword: {}", other),
        }
    }
    wire
}

fn wire(text: &str) -> SerdeSchema {
    to_wire(&serde_json::from_str(text).unwrap())
}

fn assert_roundtrip_try_into_from(text: &str) {
    let serde_schema = wire(text);
    let schema = Schema::from_serde_schema(serde_schema.clone()).unwrap();
    assert_eq!(serde_schema, SerdeSchema::from(schema.clone()));
    assert_eq!(serde_schema, schema.clone().into_serde_schema());
    assert_eq!(
        schema,
        Schema::from_serde_schema(schema.clone().into_serde_schema()).unwrap()
    );
}

#[test]
fn from_empty() {
    assert_roundtrip_try_into_from(r#"{}"#);
}

#[test]
fn from_ref() {
    assert_roundtrip_try_into_from(r#"{"ref": "foo"}"#);
    assert_roundtrip_try_into_from(r#"{"ref": "foo", "nullable": true}"#);
}

#[test]
fn from_type() {
    assert_roundtrip_try_into_from(r#"{"type": "boolean"}"#);
    assert_roundtrip_try_into_from(r#"{"type": "boolean", "nullable": true}"#);

    assert_roundtrip_try_into_from(r#"{"type": "int8"}"#);
    assert_roundtrip_try_into_from(r#"{"type": "uint8"}"#);
    assert_roundtrip_try_into_from(r#"{"type": "int16"}"#);
    assert_roundtrip_try_into_from(r#"{"type": "uint16"}"#);
    assert_roundtrip_try_into_from(r#"{"type": "int32"}"#);
    assert_roundtrip_try_into_from(r#"{"type": "uint32"}"#);
    assert_roundtrip_try_into_from(r#"{"type": "string"}"#);
    assert_roundtrip_try_into_from(r#"{"type": "timestamp"}"#);
}

#[test]
fn from_enum() {
    assert_roundtrip_try_into_from(r#"{ "enum": ["foo"] }"#);
    assert_roundtrip_try_into_from(r#"{ "enum": ["foo"], "nullable": true }"#);
}

#[test]
fn from_elements() {
    assert_roundtrip_try_into_from(r#"{ "elements": { "type": "boolean" } }"#);
    assert_roundtrip_try_into_from(r#"{ "elements": { "type": "boolean" }, "nullable": true }"#);
}

#[test]
fn from_properties() {
    assert_roundtrip_try_into_from(r#"{ "properties": { "foo": { "type": "boolean" }}}"#);
    assert_roundtrip_try_into_from(r#"{ "optionalProperties": { "foo": { "type": "boolean" }}}"#);
    assert_roundtrip_try_into_from(
        r#"{ "properties": { "foo": { "type": "boolean" }}, "nullable": true }"#,
    );
    assert_roundtrip_try_into_from(
        r#"{ "optionalProperties": { "foo": { "type": "boolean" }}, "nullable": true }"#,
    );
    assert_roundtrip_try_into_from(
        r#"{
            "properties": { "foo": { "type": "boolean" }},
            "optionalProperties": { "bar": { "type": "boolean" }}
        }"#,
    );
    assert_roundtrip_try_into_from(
        r#"{
            "properties": { "foo": { "type": "boolean" }},
            "optionalProperties": { "bar": { "type": "boolean" }},
            "nullable": true
        }"#,
    );
}

#[test]
fn from_values() {
    assert_roundtrip_try_into_from(r#"{ "values": { "type": "boolean" } }"#);
    assert_roundtrip_try_into_from(r#"{ "values": { "type": "boolean" }, "nullable": true }"#);
}

#[test]
fn from_discriminator() {
    assert_roundtrip_try_into_from(
        r#"{
            "discriminator": "foo",
            "mapping": {
                "foo": {
                    "properties": { "bar": { "type": "boolean" }}
                }
            }
        }"#,
    );

    assert_roundtrip_try_into_from(
        r#"{
            "discriminator": "foo",
            "mapping": {
                "foo": {
                    "properties": { "bar": { "type": "boolean" }}
                }
            },
            "nullable": true
        }"#,
    );
}

#[test]
fn round_trip_of_everything_at_once() {
    assert_roundtrip_try_into_from(
        r#"{
            "definitions": {
                "a": { "type": "float32" },
                "b": { "enum": ["x", "y"], "metadata": { "note": [1, 2.5, null, {"k": "v"}] } }
            },
            "metadata": { "m": true },
            "properties": {
                "p": { "ref": "a" },
                "q": { "elements": { "values": { "type": "float64", "nullable": true } } }
            },
            "optionalProperties": {
                "r": { "discriminator": "t", "mapping": { "u": { "properties": {}, "additionalProperties": true } } }
            },
            "additionalProperties": true,
            "nullable": true
        }"#,
    );
}

#[test]
fn defaults_are_left_out_on_the_way_back() {
    let back = |text: &str| Schema::from_serde_schema(wire(text)).unwrap().into_serde_schema();
    assert_eq!(wire(r#"{}"#), back(r#"{"nullable": false}"#));
    assert_eq!(wire(r#"{}"#), back(r#"{"nullable": true}"#));
    assert_eq!(wire(r#"{}"#), back(r#"{"definitions": {}, "metadata": {}}"#));
    assert_eq!(
        wire(r#"{"type": "string"}"#),
        back(r#"{"type": "string", "nullable": false}"#)
    );
    assert_eq!(
        wire(r#"{"properties": {}}"#),
        back(r#"{"properties": {}, "optionalProperties": {}, "additionalProperties": false}"#)
    );
    assert_eq!(
        wire(r#"{"properties": {}, "additionalProperties": true}"#),
        back(r#"{"properties": {}, "additionalProperties": true}"#)
    );
    assert_eq!(
        wire(r#"{"properties": {"a": {}}}"#),
        back(r#"{"properties": {"a": {}}, "optionalProperties": {}}"#)
    );
}

#[test]
fn empty_optional_properties_alone_show_the_form() {
    assert_roundtrip_try_into_from(r#"{"optionalProperties": {}}"#);
    assert_roundtrip_try_into_from(r#"{"optionalProperties": {}, "nullable": true}"#);
    assert_roundtrip_try_into_from(r#"{"optionalProperties": {}, "additionalProperties": true}"#);
    assert_roundtrip_try_into_from(r#"{"elements": {"optionalProperties": {}}}"#);
    let strict = Schema::Properties {
        definitions: vec![],
        metadata: vec![],
        nullable: false,
        properties: vec![],
        optional_properties: vec![],
        properties_is_present: false,
        additional_properties: false,
    };
    let loose = strict.clone().into_serde_schema();
    assert_eq!(
        SerdeSchema {
            optional_properties: Some(vec![]),
            ..Default::default()
        },
        loose
    );
    assert_eq!(Ok(strict), Schema::from_serde_schema(loose));
}

#[test]
fn enum_values_and_entries_are_kept_sorted() {
    let schema = Schema::from_serde_schema(wire(r#"{"enum": ["foo", "bar", "baz"]}"#)).unwrap();
    match &schema {
        Schema::Enum { enum_, nullable, .. } => {
            assert_eq!(
                &vec!["bar".to_owned(), "baz".to_owned(), "foo".to_owned()],
                enum_
            );
            assert!(!nullable);
        }
        other => panic!("not an enum: {:?}", other),
    }
    assert_eq!(
        wire(r#"{"enum": ["bar", "baz", "foo"]}"#),
        schema.into_serde_schema()
    );

    let mut loose = SerdeSchema::default();
    loose.properties = Some(vec![
        ("b".to_owned(), wire(r#"{"type": "int8"}"#)),
        ("a".to_owned(), wire(r#"{"type": "int16"}"#)),
        ("ab".to_owned(), wire(r#"{"type": "int32"}"#)),
        ("a".to_owned(), wire(r#"{"type": "string"}"#)),
        ("".to_owned(), wire(r#"{}"#)),
        ("é".to_owned(), wire(r#"{}"#)),
        ("z".to_owned(), wire(r#"{}"#)),
    ]);
    match Schema::from_serde_schema(loose).unwrap() {
        Schema::Properties {
            properties,
            properties_is_present,
            optional_properties,
            additional_properties,
            ..
        } => {
            let names: Vec<&str> = properties.iter().map(|(k, _)| k.as_str()).collect();
            assert_eq!(vec!["", "a", "ab", "b", "z", "é"], names);
            assert!(matches!(
                properties[1].1,
                Schema::Type {
                    type_: Type::String,
                    ..
                }
            ));
            assert!(properties_is_present);
            assert!(optional_properties.is_empty());
            assert!(!additional_properties);
        }
        other => panic!("not of the properties form: {:?}", other),
    }
}

#[test]
fn forms_by_their_keywords() {
    let form = |text: &str| Schema::from_serde_schema(wire(text));
    assert!(matches!(form(r#"{}"#), Ok(Schema::Empty { .. })));
    assert!(matches!(form(r#"{"ref": "a"}"#), Ok(Schema::Ref { .. })));
    assert!(matches!(
        form(r#"{"type": "uint16"}"#),
        Ok(Schema::Type {
            type_: Type::Uint16,
            nullable: false,
            ..
        })
    ));
    assert!(matches!(form(r#"{"enum": []}"#), Ok(Schema::Enum { .. })));
    assert!(matches!(
        form(r#"{"elements": {}}"#),
        Ok(Schema::Elements { .. })
    ));
    assert!(matches!(
        form(r#"{"properties": {}}"#),
        Ok(Schema::Properties {
            properties_is_present: true,
            additional_properties: false,
            ..
        })
    ));
    assert!(matches!(
        form(r#"{"optionalProperties": {}}"#),
        Ok(Schema::Properties {
            properties_is_present: false,
            ..
        })
    ));
    assert!(matches!(
        form(r#"{"properties": {}, "optionalProperties": {}}"#),
        Ok(Schema::Properties { .. })
    ));
    assert!(matches!(
        form(r#"{"properties": {}, "additionalProperties": true}"#),
        Ok(Schema::Properties {
            additional_properties: true,
            ..
        })
    ));
    assert!(matches!(
        form(r#"{"optionalProperties": {}, "additionalProperties": false}"#),
        Ok(Schema::Properties { .. })
    ));
    assert!(matches!(
        form(r#"{"properties": {}, "optionalProperties": {}, "additionalProperties": true}"#),
        Ok(Schema::Properties { .. })
    ));
    assert!(matches!(form(r#"{"values": {}}"#), Ok(Schema::Values { .. })));
    assert!(matches!(
        form(r#"{"discriminator": "t", "mapping": {}}"#),
        Ok(Schema::Discriminator { .. })
    ));
}

#[test]
fn other_keywords_together_are_no_form() {
    for text in [
        r#"{"additionalProperties": true}"#,
        r#"{"discriminator": "t"}"#,
        r#"{"mapping": {}}"#,
        r#"{"ref": "a", "type": "string"}"#,
        r#"{"type": "string", "enum": ["a"]}"#,
        r#"{"elements": {}, "values": {}}"#,
        r#"{"properties": {}, "values": {}}"#,
        r#"{"optionalProperties": {}, "ref": "a"}"#,
        r#"{"elements": {}, "additionalProperties": true}"#,
        r#"{"discriminator": "t", "mapping": {}, "properties": {}}"#,
        r#"{"discriminator": "t", "mapping": {}, "type": "string"}"#,
        r#"{"elements": {"ref": "a", "enum": []}}"#,
        r#"{"definitions": {"a": {"mapping": {}}}}"#,
    ] {
        assert_eq!(
            Err(FromSerdeSchemaError::InvalidForm),
            Schema::from_serde_schema(wire(text)),
            "{}",
            text
        );
    }
}

#[test]
fn classifier_errors() {
    assert_eq!(
        Err(FromSerdeSchemaError::InvalidType("Boolean".to_owned())),
        Schema::from_serde_schema(wire(r#"{"type": "Boolean"}"#))
    );
    assert_eq!(
        Err(FromSerdeSchemaError::InvalidType("".to_owned())),
        Schema::from_serde_schema(wire(r#"{"values": {"type": ""}}"#))
    );
    assert_eq!(
        Err(FromSerdeSchemaError::DuplicatedEnumValue("a".to_owned())),
        Schema::from_serde_schema(wire(r#"{"enum": ["a", "b", "a", "b"]}"#))
    );
    // the definitions are converted before the keywords are held against the forms
    assert_eq!(
        Err(FromSerdeSchemaError::InvalidType("x".to_owned())),
        Schema::from_serde_schema(wire(
            r#"{"definitions": {"a": {"type": "x"}}, "ref": "a", "type": "string"}"#
        ))
    );
    // required properties come before optional ones
    assert_eq!(
        Err(FromSerdeSchemaError::DuplicatedEnumValue("r".to_owned())),
        Schema::from_serde_schema(wire(
            r#"{"optionalProperties": {"a": {"type": "x"}}, "properties": {"z": {"enum": ["r", "r"]}}}"#
        ))
    );
}

fn check(text: &str) -> Result<(), SchemaValidateError> {
    Schema::from_serde_schema(wire(text)).unwrap().validate()
}

#[test]
fn well_formed_schemas() {
    for text in [
        r#"{}"#,
        r#"{"definitions": {"a": {"ref": "b"}, "b": {"ref": "a"}}, "elements": {"ref": "a"}}"#,
        r#"{"enum": ["a"]}"#,
        r#"{"properties": {"a": {}}, "optionalProperties": {"b": {}}}"#,
        r#"{"discriminator": "t", "mapping": {"x": {"properties": {"a": {}}}, "y": {"optionalProperties": {"b": {}}}}}"#,
        r#"{"values": {"elements": {"type": "timestamp"}}}"#,
    ] {
        assert_eq!(Ok(()), check(text), "{}", text);
    }
}

#[test]
fn what_is_wrong_with_a_schema() {
    assert_eq!(
        Err(SchemaValidateError::NoSuchDefinition("a".to_owned())),
        check(r#"{"ref": "a"}"#)
    );
    assert_eq!(
        Err(SchemaValidateError::NoSuchDefinition("b".to_owned())),
        check(r#"{"definitions": {"a": {"ref": "b"}}}"#)
    );
    assert_eq!(
        Err(SchemaValidateError::NonRootDefinitions),
        check(r#"{"elements": {"definitions": {"a": {}}}}"#)
    );
    assert_eq!(Ok(()), check(r#"{"elements": {"definitions": {}}}"#));
    assert_eq!(
        Err(SchemaValidateError::NonRootDefinitions),
        check(r#"{"definitions": {"a": {"definitions": {"b": {}}}}}"#)
    );
    assert_eq!(
        Err(SchemaValidateError::EmptyEnum),
        check(r#"{"enum": []}"#)
    );
    assert_eq!(
        Err(SchemaValidateError::RepeatedProperty("b".to_owned())),
        check(
            r#"{"properties": {"a": {}, "b": {}, "c": {}}, "optionalProperties": {"c": {}, "b": {}}}"#
        )
    );
    assert_eq!(
        Err(SchemaValidateError::NullableMapping),
        check(r#"{"discriminator": "t", "mapping": {"x": {"properties": {}, "nullable": true}}}"#)
    );
    assert_eq!(
        Err(SchemaValidateError::NonPropertiesMapping),
        check(r#"{"discriminator": "t", "mapping": {"x": {}}}"#)
    );
    assert_eq!(
        Err(SchemaValidateError::NonPropertiesMapping),
        check(
            r#"{"discriminator": "t", "mapping": {"x": {"discriminator": "u", "mapping": {}}}}"#
        )
    );
    assert_eq!(
        Err(SchemaValidateError::RepeatedDiscriminator("t".to_owned())),
        check(r#"{"discriminator": "t", "mapping": {"x": {"properties": {"t": {}}}}}"#)
    );
    assert_eq!(
        Err(SchemaValidateError::RepeatedDiscriminator("t".to_owned())),
        check(r#"{"discriminator": "t", "mapping": {"x": {"optionalProperties": {"t": {}}}}}"#)
    );
}

#[test]
fn the_first_thing_wrong_is_reported() {
    // the definitions come before the form
    assert_eq!(
        Err(SchemaValidateError::EmptyEnum),
        check(r#"{"definitions": {"a": {"enum": []}}, "ref": "b"}"#)
    );
    // what is wrong with a schema as the schema of a mapping comes before
    // what is wrong within it
    assert_eq!(
        Err(SchemaValidateError::NullableMapping),
        check(
            r#"{"discriminator": "t", "mapping": {"x": {"properties": {"a": {"enum": []}}, "nullable": true}}}"#
        )
    );
    assert_eq!(
        Err(SchemaValidateError::EmptyEnum),
        check(
            r#"{"discriminator": "t", "mapping": {"w": {"properties": {"a": {"enum": []}}}, "x": {}}}"#
        )
    );
    // a repeated property comes before what is wrong within the properties
    assert_eq!(
        Err(SchemaValidateError::RepeatedProperty("b".to_owned())),
        check(r#"{"properties": {"a": {"enum": []}, "b": {}}, "optionalProperties": {"b": {}}}"#)
    );
}

#[test]
fn getters() {
    let schema = Schema::from_serde_schema(wire(
        r#"{"definitions": {"a": {}}, "metadata": {"m": 1}, "type": "string", "nullable": true}"#,
    ))
    .unwrap();
    assert_eq!(1, schema.definitions().len());
    assert_eq!("a", schema.definitions()[0].0);
    assert_eq!(
        &vec![("m".to_owned(), Json::Number(Number::PosInt(1)))],
        schema.metadata()
    );
    assert!(schema.nullable());
    assert!(Schema::from_serde_schema(wire(r#"{}"#)).unwrap().nullable());
    assert!(!Schema::from_serde_schema(wire(r#"{"ref": "a"}"#))
        .unwrap()
        .nullable());
    for (text, expected) in [
        (r#"{"enum": ["a"], "nullable": true}"#, true),
        (r#"{"elements": {}, "nullable": false}"#, false),
        (r#"{"properties": {}, "nullable": true}"#, true),
        (r#"{"values": {}}"#, false),
        (r#"{"discriminator": "t", "mapping": {}, "nullable": true}"#, true),
    ] {
        assert_eq!(
            expected,
            Schema::from_serde_schema(wire(text)).unwrap().nullable()
        );
    }
}

#[test]
fn references_in_a_circle_do_not_end() {
    let ends = |text: &str| Schema::from_serde_schema(wire(text)).unwrap().refs_end();
    assert!(ends(r#"{}"#));
    assert!(ends(r#"{"definitions": {"a": {"ref": "b"}, "b": {"ref": "c"}, "c": {}}}"#));
    assert!(ends(
        r#"{"definitions": {"a": {"elements": {"ref": "a"}}}, "ref": "a"}"#
    ));
    assert!(!ends(r#"{"definitions": {"a": {"ref": "a"}}}"#));
    assert!(!ends(
        r#"{"definitions": {"a": {"ref": "b"}, "b": {"ref": "c"}, "c": {"ref": "a"}, "d": {}}}"#
    ));
    assert!(!ends(
        r#"{"definitions": {"a": {"ref": "b", "nullable": true}, "b": {"ref": "b"}}}"#
    ));
}

#[test]
fn copies_are_equal() {
    let loose = wire(
        r#"{"definitions": {"a": {"enum": ["x"]}}, "metadata": {"m": [1.5, {"k": null}]},
            "properties": {"p": {"ref": "a"}}, "optionalProperties": {"q": {"values": {}}}}"#,
    );
    assert_eq!(loose, loose.clone());
    let strict = Schema::from_serde_schema(loose).unwrap();
    assert_eq!(strict, strict.clone());
}
