//! Which instances the primitive types accept.

use vstd::prelude::*;
use crate::form::TypeValue;
use crate::json::Json;
use crate::json::JsonView;
use crate::timestamp::is_rfc3339;
use crate::timestamp::parses_as_rfc3339;

verus! {

/// Whether `instance` is a number that is an integer between `min` and
/// `max`.
pub open spec fn is_integer_within(instance: JsonView, min: int, max: int) -> bool {
    &&& instance matches JsonView::Number(n)
    &&& n.integer_value() matches Some(v)
    &&& min <= v <= max
}

/// Whether a primitive type accepts `instance`, where `parses` says whether
/// the instance, if it is a string, reads as an RFC 3339 date-time.
pub open spec fn accepts_given(t: TypeValue, instance: JsonView, parses: bool) -> bool {
    match t {
        TypeValue::Boolean => instance is Bool,
        TypeValue::Float32 => instance is Number,
        TypeValue::Float64 => instance is Number,
        TypeValue::Int8 => is_integer_within(instance, -128, 127),
        TypeValue::Uint8 => is_integer_within(instance, 0, 255),
        TypeValue::Int16 => is_integer_within(instance, -32768, 32767),
        TypeValue::Uint16 => is_integer_within(instance, 0, 65535),
        TypeValue::Int32 => is_integer_within(instance, -2147483648, 2147483647),
        TypeValue::Uint32 => is_integer_within(instance, 0, 4294967295),
        TypeValue::String => instance is String,
        TypeValue::Timestamp => instance is String && parses,
    }
}

/// Whether a primitive type accepts `instance`.
pub open spec fn accepts(t: TypeValue, instance: JsonView) -> bool {
    accepts_given(t, instance, instance is String && is_rfc3339(instance->String_0))
}

/// Whether `instance` is a number that is an integer between `min` and
/// `max`.
fn json_is_integer_within(instance: &Json, min: i64, max: i64) -> (ok: bool)
    ensures
        ok == is_integer_within(instance@, min as int, max as int),
{
    match instance {
        Json::Number(n) => n.is_integer_within(min, max),
        _ => false,
    }
}

impl TypeValue {
    /// Whether this type accepts `instance`, where `parses` says whether the
    /// instance, if it is a string, reads as an RFC 3339 date-time.
    pub fn accepts_given(&self, instance: &Json, parses: bool) -> (ok: bool)
        ensures
            ok == accepts_given(*self, instance@, parses),
    {
        match self {
            TypeValue::Boolean => match instance {
                Json::Bool(_) => true,
                _ => false,
            },
            TypeValue::Float32 | TypeValue::Float64 => match instance {
                Json::Number(_) => true,
                _ => false,
            },
            TypeValue::Int8 => json_is_integer_within(instance, -128, 127),
            TypeValue::Uint8 => json_is_integer_within(instance, 0, 255),
            TypeValue::Int16 => json_is_integer_within(instance, -32768, 32767),
            TypeValue::Uint16 => json_is_integer_within(instance, 0, 65535),
            TypeValue::Int32 => json_is_integer_within(instance, -2147483648, 2147483647),
            TypeValue::Uint32 => json_is_integer_within(instance, 0, 4294967295),
            TypeValue::String => match instance {
                Json::String(_) => true,
                _ => false,
            },
            TypeValue::Timestamp => match instance {
                Json::String(_) => parses,
                _ => false,
            },
        }
    }

    /// Whether this type accepts `instance`.
    pub fn accepts(&self, instance: &Json) -> (ok: bool)
        ensures
            ok == accepts(*self, instance@),
    {
        let parses = match (self, instance) {
            (TypeValue::Timestamp, Json::String(s)) => parses_as_rfc3339(s.as_str()),
            _ => false,
        };
        self.accepts_given(instance, parses)
    }
}

} // verus!
