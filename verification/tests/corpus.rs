use std::collections::BTreeMap;
use std::collections::HashSet;

use jtd::json::Json;
use jtd::number::Number;
use jtd::schema::Schema;
use jtd::serde_schema::SerdeSchema;
use jtd::validate::validate;
use jtd::validate::ValidateOptions;
use jtd::validator::Validator;

const INVALID_SCHEMAS: &str = r#"{
    "null schema": null,
    "boolean schema": true,
    "integer schema": 1,
    "float schema": 3.14,
    "string schema": "foo",
    "array schema": [],
    "illegal keyword": {"foo": 123},
    "nullable not boolean": {"nullable": "foo"},
    "definitions not object": {"definitions": 123},
    "definition not object": {"definitions": {"foo": 123}},
    "non-root definitions": {"elements": {"definitions": {"foo": {}}}},
    "non-root definitions in a definition": {"definitions": {"foo": {"definitions": {"bar": {}}}}},
    "ref not string": {"ref": 123},
    "ref but no definitions": {"ref": "foo"},
    "ref to non-existent definition": {"definitions": {}, "ref": "foo"},
    "sub-schema ref to non-existent definition": {"definitions": {}, "elements": {"ref": "foo"}},
    "definition ref to non-existent definition": {"definitions": {"foo": {"ref": "bar"}}},
    "type not string": {"type": 123},
    "type not valid string value": {"type": "foo"},
    "type in another case": {"type": "Boolean"},
    "enum not array": {"enum": 123},
    "enum empty array": {"enum": []},
    "enum not array of strings": {"enum": ["foo", 123, "baz"]},
    "enum contains duplicates": {"enum": ["foo", "bar", "foo"]},
    "elements not object": {"elements": 123},
    "elements not correct schema": {"elements": {"definitions": {"x": {}}}},
    "properties not object": {"properties": 123},
    "properties value not correct schema": {"properties": {"foo": {"enum": []}}},
    "optionalProperties not object": {"optionalProperties": 123},
    "optionalProperties value not correct schema": {"optionalProperties": {"foo": {"type": "x"}}},
    "additionalProperties not boolean": {"properties": {}, "additionalProperties": 123},
    "properties shares keys with optionalProperties": {
        "properties": {"foo": {}, "bar": {}},
        "optionalProperties": {"foo": {}, "baz": {}}
    },
    "values not object": {"values": 123},
    "values not correct schema": {"values": {"ref": "nowhere"}},
    "discriminator not string": {"discriminator": 123, "mapping": {}},
    "mapping not object": {"discriminator": "foo", "mapping": 123},
    "mapping value not correct schema": {
        "discriminator": "foo",
        "mapping": {"x": {"properties": {"a": {"enum": []}}}}
    },
    "mapping value not of properties form": {"discriminator": "foo", "mapping": {"x": {}}},
    "mapping value has nullable set to true": {
        "discriminator": "foo",
        "mapping": {"x": {"properties": {"bar": {}}, "nullable": true}}
    },
    "discriminator shares keys with mapping properties": {
        "discriminator": "foo",
        "mapping": {"x": {"properties": {"foo": {}}}}
    },
    "discriminator shares keys with mapping optionalProperties": {
        "discriminator": "foo",
        "mapping": {"x": {"optionalProperties": {"foo": {}}}}
    },
    "invalid form - ref and type": {"definitions": {"foo": {}}, "ref": "foo", "type": "uint32"},
    "invalid form - type and enum": {"type": "uint32", "enum": ["foo"]},
    "invalid form - enum and elements": {"enum": ["foo"], "elements": {}},
    "invalid form - elements and properties": {"elements": {}, "properties": {}},
    "invalid form - elements and optionalProperties": {"elements": {}, "optionalProperties": {}},
    "invalid form - elements and additionalProperties": {"elements": {}, "additionalProperties": true},
    "invalid form - additionalProperties alone": {"additionalProperties": true},
    "invalid form - properties and values": {"properties": {}, "values": {}},
    "invalid form - values and discriminator": {"values": {}, "discriminator": "foo", "mapping": {}},
    "invalid form - discriminator alone": {"discriminator": "foo"},
    "invalid form - mapping alone": {"mapping": {}}
}"#;

const VALIDATION: &str = r#"{
    "empty schema - null": {"schema": {}, "instance": null, "errors": []},
    "empty schema - boolean": {"schema": {}, "instance": true, "errors": []},
    "empty schema - number": {"schema": {}, "instance": 3.14, "errors": []},
    "empty schema - string": {"schema": {}, "instance": "foo", "errors": []},
    "empty schema - array": {"schema": {}, "instance": [1, "a"], "errors": []},
    "empty schema - object": {"schema": {}, "instance": {"a": 1}, "errors": []},
    "empty schema with metadata - null": {"schema": {"metadata": {}}, "instance": null, "errors": []},
    "ref schema - ref to empty definition": {
        "schema": {"definitions": {"foo": {}}, "ref": "foo"},
        "instance": true,
        "errors": []
    },
    "ref schema - nested ref": {
        "schema": {"definitions": {"foo": {"ref": "bar"}, "bar": {}}, "ref": "foo"},
        "instance": true,
        "errors": []
    },
    "ref schema - ref to type definition, ok": {
        "schema": {"definitions": {"foo": {"type": "boolean"}}, "ref": "foo"},
        "instance": true,
        "errors": []
    },
    "ref schema - ref to type definition, fail": {
        "schema": {"definitions": {"foo": {"type": "boolean"}}, "ref": "foo"},
        "instance": {},
        "errors": [{"instancePath": [], "schemaPath": ["definitions", "foo", "type"]}]
    },
    "nullable ref schema - ref to type definition, ok because null": {
        "schema": {"definitions": {"foo": {"type": "boolean"}}, "ref": "foo", "nullable": true},
        "instance": null,
        "errors": []
    },
    "nullable ref schema - nullable is independent of ref target": {
        "schema": {"definitions": {"foo": {"type": "boolean", "nullable": false}}, "ref": "foo", "nullable": true},
        "instance": null,
        "errors": []
    },
    "ref schema - recursive schema, ok": {
        "schema": {"definitions": {"root": {"elements": {"ref": "root"}}}, "ref": "root"},
        "instance": [[], [[]], [[[], []]]],
        "errors": []
    },
    "ref schema - recursive schema, bad": {
        "schema": {"definitions": {"root": {"elements": {"ref": "root"}}}, "ref": "root"},
        "instance": [[], [[]], [[[], ["a"]]]],
        "errors": [{
            "instancePath": ["2", "0", "1", "0"],
            "schemaPath": ["definitions", "root", "elements"]
        }]
    },
    "boolean type schema - null": {
        "schema": {"type": "boolean"},
        "instance": null,
        "errors": [{"instancePath": [], "schemaPath": ["type"]}]
    },
    "boolean type schema - boolean": {"schema": {"type": "boolean"}, "instance": true, "errors": []},
    "boolean type schema - integer": {
        "schema": {"type": "boolean"},
        "instance": 1,
        "errors": [{"instancePath": [], "schemaPath": ["type"]}]
    },
    "nullable boolean type schema - null": {
        "schema": {"type": "boolean", "nullable": true},
        "instance": null,
        "errors": []
    },
    "float32 type schema - integer": {"schema": {"type": "float32"}, "instance": 1, "errors": []},
    "float32 type schema - float": {"schema": {"type": "float32"}, "instance": 3.14, "errors": []},
    "float32 type schema - string": {
        "schema": {"type": "float32"},
        "instance": "foo",
        "errors": [{"instancePath": [], "schemaPath": ["type"]}]
    },
    "float64 type schema - float": {"schema": {"type": "float64"}, "instance": 3.14, "errors": []},
    "float64 type schema - array": {
        "schema": {"type": "float64"},
        "instance": [],
        "errors": [{"instancePath": [], "schemaPath": ["type"]}]
    },
    "int8 type schema - min value": {"schema": {"type": "int8"}, "instance": -128, "errors": []},
    "int8 type schema - max value": {"schema": {"type": "int8"}, "instance": 127, "errors": []},
    "int8 type schema - less than min": {
        "schema": {"type": "int8"},
        "instance": -129,
        "errors": [{"instancePath": [], "schemaPath": ["type"]}]
    },
    "int8 type schema - more than max": {
        "schema": {"type": "int8"},
        "instance": 128,
        "errors": [{"instancePath": [], "schemaPath": ["type"]}]
    },
    "int8 type schema - float": {
        "schema": {"type": "int8"},
        "instance": 3.14,
        "errors": [{"instancePath": [], "schemaPath": ["type"]}]
    },
    "int8 type schema - float without fractional part": {
        "schema": {"type": "int8"},
        "instance": 1.0,
        "errors": []
    },
    "uint8 type schema - max value": {"schema": {"type": "uint8"}, "instance": 255, "errors": []},
    "uint8 type schema - more than max": {
        "schema": {"type": "uint8"},
        "instance": 256,
        "errors": [{"instancePath": [], "schemaPath": ["type"]}]
    },
    "uint8 type schema - less than min": {
        "schema": {"type": "uint8"},
        "instance": -1,
        "errors": [{"instancePath": [], "schemaPath": ["type"]}]
    },
    "int16 type schema - min value": {"schema": {"type": "int16"}, "instance": -32768, "errors": []},
    "int16 type schema - more than max": {
        "schema": {"type": "int16"},
        "instance": 32768,
        "errors": [{"instancePath": [], "schemaPath": ["type"]}]
    },
    "uint16 type schema - max value": {"schema": {"type": "uint16"}, "instance": 65535, "errors": []},
    "uint16 type schema - more than max": {
        "schema": {"type": "uint16"},
        "instance": 65536,
        "errors": [{"instancePath": [], "schemaPath": ["type"]}]
    },
    "int32 type schema - min value": {"schema": {"type": "int32"}, "instance": -2147483648, "errors": []},
    "int32 type schema - less than min": {
        "schema": {"type": "int32"},
        "instance": -2147483649,
        "errors": [{"instancePath": [], "schemaPath": ["type"]}]
    },
    "uint32 type schema - max value": {"schema": {"type": "uint32"}, "instance": 4294967295, "errors": []},
    "uint32 type schema - more than max": {
        "schema": {"type": "uint32"},
        "instance": 4294967296,
        "errors": [{"instancePath": [], "schemaPath": ["type"]}]
    },
    "string type schema - string": {"schema": {"type": "string"}, "instance": "foo", "errors": []},
    "string type schema - object": {
        "schema": {"type": "string"},
        "instance": {},
        "errors": [{"instancePath": [], "schemaPath": ["type"]}]
    },
    "timestamp type schema - date and time": {
        "schema": {"type": "timestamp"},
        "instance": "1985-04-12T23:20:50.52Z",
        "errors": []
    },
    "timestamp type schema - date and time with offset": {
        "schema": {"type": "timestamp"},
        "instance": "1937-01-01T12:00:27.87+00:20",
        "errors": []
    },
    "timestamp type schema - leap second": {
        "schema": {"type": "timestamp"},
        "instance": "1990-12-31T15:59:60-08:00",
        "errors": []
    },
    "timestamp type schema - string": {
        "schema": {"type": "timestamp"},
        "instance": "foo",
        "errors": [{"instancePath": [], "schemaPath": ["type"]}]
    },
    "timestamp type schema - number": {
        "schema": {"type": "timestamp"},
        "instance": 1,
        "errors": [{"instancePath": [], "schemaPath": ["type"]}]
    },
    "enum schema - value in enum": {"schema": {"enum": ["foo", "bar", "baz"]}, "instance": "bar", "errors": []},
    "enum schema - value not in enum": {
        "schema": {"enum": ["foo", "bar", "baz"]},
        "instance": "quux",
        "errors": [{"instancePath": [], "schemaPath": ["enum"]}]
    },
    "enum schema - not a string": {
        "schema": {"enum": ["foo", "bar", "baz"]},
        "instance": 1,
        "errors": [{"instancePath": [], "schemaPath": ["enum"]}]
    },
    "nullable enum schema - null": {
        "schema": {"enum": ["foo"], "nullable": true},
        "instance": null,
        "errors": []
    },
    "elements schema - empty array": {"schema": {"elements": {"type": "string"}}, "instance": [], "errors": []},
    "elements schema - all values ok": {
        "schema": {"elements": {"type": "string"}},
        "instance": ["foo", "bar", "baz"],
        "errors": []
    },
    "elements schema - some values bad": {
        "schema": {"elements": {"type": "string"}},
        "instance": ["foo", null, null],
        "errors": [
            {"instancePath": ["1"], "schemaPath": ["elements", "type"]},
            {"instancePath": ["2"], "schemaPath": ["elements", "type"]}
        ]
    },
    "elements schema - not an array": {
        "schema": {"elements": {"type": "string"}},
        "instance": {},
        "errors": [{"instancePath": [], "schemaPath": ["elements"]}]
    },
    "elements schema - nested elements, bad": {
        "schema": {"elements": {"elements": {"type": "string"}}},
        "instance": [[null], "a", ["b", 1]],
        "errors": [
            {"instancePath": ["0", "0"], "schemaPath": ["elements", "elements", "type"]},
            {"instancePath": ["1"], "schemaPath": ["elements", "elements"]},
            {"instancePath": ["2", "1"], "schemaPath": ["elements", "elements", "type"]}
        ]
    },
    "properties schema - not an object": {
        "schema": {"properties": {"foo": {"type": "string"}}},
        "instance": [],
        "errors": [{"instancePath": [], "schemaPath": ["properties"]}]
    },
    "optionalProperties schema - not an object": {
        "schema": {"optionalProperties": {"foo": {"type": "string"}}},
        "instance": [],
        "errors": [{"instancePath": [], "schemaPath": ["optionalProperties"]}]
    },
    "properties and optionalProperties schema - not an object": {
        "schema": {"properties": {"foo": {}}, "optionalProperties": {"bar": {}}},
        "instance": 3,
        "errors": [{"instancePath": [], "schemaPath": ["properties"]}]
    },
    "properties schema - missing required property": {
        "schema": {"properties": {"foo": {"type": "string"}}},
        "instance": {},
        "errors": [{"instancePath": [], "schemaPath": ["properties", "foo"]}]
    },
    "properties schema - bad required property": {
        "schema": {"properties": {"foo": {"type": "string"}}},
        "instance": {"foo": 123},
        "errors": [{"instancePath": ["foo"], "schemaPath": ["properties", "foo", "type"]}]
    },
    "properties schema - optional property absent": {
        "schema": {"optionalProperties": {"foo": {"type": "string"}}},
        "instance": {},
        "errors": []
    },
    "properties schema - bad optional property": {
        "schema": {"optionalProperties": {"foo": {"type": "string"}}},
        "instance": {"foo": 123},
        "errors": [{"instancePath": ["foo"], "schemaPath": ["optionalProperties", "foo", "type"]}]
    },
    "properties schema - additional property not allowed": {
        "schema": {"properties": {"foo": {"type": "string"}}},
        "instance": {"foo": "foo", "bar": "bar"},
        "errors": [{"instancePath": ["bar"], "schemaPath": []}]
    },
    "properties schema - additional property allowed": {
        "schema": {"properties": {"foo": {"type": "string"}}, "additionalProperties": true},
        "instance": {"foo": "foo", "bar": "bar"},
        "errors": []
    },
    "properties schema - all kinds of errors": {
        "schema": {
            "properties": {"a": {"type": "string"}, "b": {"type": "string"}},
            "optionalProperties": {"c": {"type": "string"}, "d": {"type": "string"}}
        },
        "instance": {"b": 1, "c": 2, "e": 3, "f": 4},
        "errors": [
            {"instancePath": [], "schemaPath": ["properties", "a"]},
            {"instancePath": ["b"], "schemaPath": ["properties", "b", "type"]},
            {"instancePath": ["c"], "schemaPath": ["optionalProperties", "c", "type"]},
            {"instancePath": ["e"], "schemaPath": []},
            {"instancePath": ["f"], "schemaPath": []}
        ]
    },
    "values schema - empty object": {"schema": {"values": {"type": "string"}}, "instance": {}, "errors": []},
    "values schema - some values bad": {
        "schema": {"values": {"type": "string"}},
        "instance": {"foo": "foo", "bar": 123, "baz": 123},
        "errors": [
            {"instancePath": ["bar"], "schemaPath": ["values", "type"]},
            {"instancePath": ["baz"], "schemaPath": ["values", "type"]}
        ]
    },
    "values schema - not an object": {
        "schema": {"values": {"type": "string"}},
        "instance": "foo",
        "errors": [{"instancePath": [], "schemaPath": ["values"]}]
    },
    "nullable values schema - null": {
        "schema": {"values": {"type": "string"}, "nullable": true},
        "instance": null,
        "errors": []
    },
    "discriminator schema - not an object": {
        "schema": {"discriminator": "foo", "mapping": {}},
        "instance": "x",
        "errors": [{"instancePath": [], "schemaPath": ["discriminator"]}]
    },
    "discriminator schema - discriminator missing": {
        "schema": {"discriminator": "foo", "mapping": {"x": {"properties": {"a": {"type": "string"}}}}},
        "instance": {},
        "errors": [{"instancePath": [], "schemaPath": ["discriminator"]}]
    },
    "discriminator schema - discriminator not string": {
        "schema": {"discriminator": "foo", "mapping": {"x": {"properties": {"a": {"type": "string"}}}}},
        "instance": {"foo": null},
        "errors": [{"instancePath": ["foo"], "schemaPath": ["discriminator"]}]
    },
    "discriminator schema - discriminator not in mapping": {
        "schema": {"discriminator": "foo", "mapping": {"x": {"properties": {"a": {"type": "string"}}}}},
        "instance": {"foo": "z"},
        "errors": [{"instancePath": ["foo"], "schemaPath": ["mapping"]}]
    },
    "discriminator schema - instance fails mapping schema": {
        "schema": {
            "discriminator": "foo",
            "mapping": {
                "x": {"properties": {"a": {"type": "string"}}},
                "y": {"properties": {"a": {"type": "float64"}}}
            }
        },
        "instance": {"foo": "y", "a": "a"},
        "errors": [{"instancePath": ["a"], "schemaPath": ["mapping", "y", "properties", "a", "type"]}]
    },
    "discriminator schema - ok": {
        "schema": {
            "discriminator": "foo",
            "mapping": {
                "x": {"properties": {"a": {"type": "string"}}},
                "y": {"properties": {"a": {"type": "float64"}}}
            }
        },
        "instance": {"foo": "x", "a": "a"},
        "errors": []
    },
    "discriminator schema - the tag is additional no more than once": {
        "schema": {
            "discriminator": "foo",
            "mapping": {"x": {"properties": {"a": {"properties": {}}}}}
        },
        "instance": {"foo": "x", "a": {"foo": "x"}},
        "errors": [{"instancePath": ["a", "foo"], "schemaPath": ["mapping", "x", "properties", "a"]}]
    },
    "nullable discriminator schema - null": {
        "schema": {"discriminator": "foo", "mapping": {}, "nullable": true},
        "instance": null,
        "errors": []
    }
}"#;

fn to_json(value: &serde_json::Value) -> Json {
    match value {
        serde_json::Value::Null => Json::Null,
        serde_json::Value::Bool(b) => Json::Bool(*b),
        serde_json::Value::Number(n) => Json::Number(if let Some(u) = n.as_u64() {
            Number::PosInt(u)
        } else if let Some(i) = n.as_i64() {
            Number::NegInt(i)
        } else {
            Number::Float(n.as_f64().unwrap().to_bits())
        }),
        serde_json::Value::String(s) => Json::String(s.clone()),
        serde_json::Value::Array(items) => Json::Array(items.iter().map(to_json).collect()),
        serde_json::Value::Object(members) => Json::Object(
            members
                .iter()
                .map(|(name, value)| (name.clone(), to_json(value)))
                .collect(),
        ),
    }
}

fn to_entries(value: &serde_json::Value) -> Option<Vec<(String, SerdeSchema)>> {
    let mut entries = Vec::new();
    for (name, value) in value.as_object()? {
        entries.push((name.clone(), to_wire(value)?));
    }
    Some(entries)
}

/// The loose schema that a JSON value spells, if it spells one.
fn to_wire(value: &serde_json::Value) -> Option<SerdeSchema> {
    let mut wire = SerdeSchema::default();
    for (keyword, value) in value.as_object()? {
        match keyword.as_str() {
            "metadata" => {
                wire.metadata = Some(
                    value
                        .as_object()?
                        .iter()
                        .map(|(name, value)| (name.clone(), to_json(value)))
                        .collect(),
                )
            }
            "definitions" => wire.definitions = Some(to_entries(value)?),
            "nullable" => wire.nullable = Some(value.as_bool()?),
            "ref" => wire.ref_ = Some(value.as_str()?.to_owned()),
            "type" => wire.type_ = Some(value.as_str()?.to_owned()),
            "enum" => {
                let mut values = Vec::new();
                for v in value.as_array()? {
                    values.push(v.as_str()?.to_owned());
                }
                wire.enum_ = Some(values)
            }
            "elements" => wire.elements = Some(Box::new(to_wire(value)?)),
            "properties" => wire.properties = Some(to_entries(value)?),
            "optionalProperties" => wire.optional_properties = Some(to_entries(value)?),
            "additionalProperties" => wire.additional_properties = Some(value.as_bool()?),
            "values" => wire.values = Some(Box::new(to_wire(value)?)),
            "discriminator" => wire.discriminator = Some(value.as_str()?.to_owned()),
            "mapping" => wire.mapping = Some(to_entries(value)?),
            _ => return None,
        }
    }
    Some(wire)
}

fn paths_of(value: &serde_json::Value) -> (Vec<String>, Vec<String>) {
    let tokens = |key: &str| -> Vec<String> {
        value[key]
            .as_array()
            .unwrap()
            .iter()
            .map(|t| t.as_str().unwrap().to_owned())
            .collect()
    };
    (tokens("instancePath"), tokens("schemaPath"))
}

#[test]
fn invalid_schemas() {
    let test_cases: BTreeMap<String, serde_json::Value> =
        serde_json::from_str(INVALID_SCHEMAS).expect("parse the invalid schemas");

    for (test_case_name, test_case) in test_cases {
        if let Some(serde_schema) = to_wire(&test_case) {
            if let Ok(schema) = Schema::from_serde_schema(serde_schema) {
                if schema.validate().is_ok() {
                    panic!(
                        "failed to detect invalid schema: {}, got: {:?}",
                        test_case_name, schema
                    );
                }
            }
        }
    }
}

#[test]
fn valid_schemas() {
    let test_cases: BTreeMap<String, serde_json::Value> =
        serde_json::from_str(VALIDATION).expect("parse the validation cases");

    for (test_case_name, test_case) in test_cases {
        let serde_schema = to_wire(&test_case["schema"]).expect(&test_case_name);
        let schema = Schema::from_serde_schema(serde_schema).expect(&test_case_name);
        schema.validate().expect(&test_case_name);
    }
}

#[test]
fn validation_spec() {
    let test_cases: BTreeMap<String, serde_json::Value> =
        serde_json::from_str(VALIDATION).expect("parse the validation cases");

    for (test_case_name, test_case) in test_cases {
        let schema = Schema::from_serde_schema(to_wire(&test_case["schema"]).unwrap())
            .expect(&test_case_name);
        schema.validate().expect(&test_case_name);
        assert!(schema.refs_end(), "{}", &test_case_name);
        let instance = to_json(&test_case["instance"]);

        let errors: HashSet<_> = validate(&schema, &instance, ValidateOptions::new())
            .expect(&test_case_name)
            .into_iter()
            .map(|err| err.into_owned_paths())
            .collect();

        let test_case_errors: HashSet<_> = test_case["errors"]
            .as_array()
            .unwrap()
            .iter()
            .map(paths_of)
            .collect();

        assert_eq!(
            test_case_errors, errors,
            "wrong validation errors returned: {}",
            &test_case_name
        );
    }
}

#[test]
fn spec_validation_suite() {
    let test_cases: BTreeMap<String, serde_json::Value> =
        serde_json::from_str(VALIDATION).unwrap();

    for (name, test_case) in test_cases {
        let schema = Schema::from_serde_schema(to_wire(&test_case["schema"]).unwrap())
            .expect(&format!("parsing schema: {}", name));
        schema.validate().expect(&name);
        assert!(schema.refs_end(), "{}", &name);
        let instance = to_json(&test_case["instance"]);

        let validator = Validator {
            max_depth: None,
            max_errors: None,
        };

        let errors: HashSet<_> = validator
            .validate(&schema, &instance)
            .expect(&format!("validating: {}", name))
            .into_iter()
            .map(|err| (err.instance_path, err.schema_path))
            .collect();

        assert_eq!(
            test_case["errors"]
                .as_array()
                .unwrap()
                .iter()
                .map(paths_of)
                .collect::<HashSet<_>>(),
            errors,
            "wrong set of errors returned for test case: {}",
            name
        );
    }
}
