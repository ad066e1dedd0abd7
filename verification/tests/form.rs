use jtd::form::TypeValue;

#[test]
fn type_value_from_str() {
    assert_eq!(Err(()), "Boolean".parse::<TypeValue>());
    assert_eq!(Ok(TypeValue::Boolean), "boolean".parse());
    assert_eq!(Ok(TypeValue::Float32), "float32".parse());
    assert_eq!(Ok(TypeValue::Float64), "float64".parse());
    assert_eq!(Ok(TypeValue::Int8), "int8".parse());
    assert_eq!(Ok(TypeValue::Uint8), "uint8".parse());
    assert_eq!(Ok(TypeValue::Int16), "int16".parse());
    assert_eq!(Ok(TypeValue::Uint16), "uint16".parse());
    assert_eq!(Ok(TypeValue::Int32), "int32".parse());
    assert_eq!(Ok(TypeValue::Uint32), "uint32".parse());
    assert_eq!(Ok(TypeValue::String), "string".parse());
    assert_eq!(Ok(TypeValue::Timestamp), "timestamp".parse());
}
