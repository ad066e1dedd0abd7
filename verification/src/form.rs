//! The eight forms of a schema as mathematical values: the model that the
//! contracts of this crate speak of.

use vstd::prelude::*;
use crate::json::JsonView;
use crate::text::str_eq;

verus! {

/// The primitive types of the type form.
#[derive(Clone, Copy, Debug, PartialEq, Eq, Structural)]
pub enum TypeValue {
    Boolean,
    Float32,
    Float64,
    Int8,
    Uint8,
    Int16,
    Uint16,
    Int32,
    Uint32,
    String,
    Timestamp,
}

/// The ref form: the instance must satisfy the named definition.
pub struct Ref {
    pub nullable: bool,
    pub definition: Seq<char>,
}

/// The type form: the instance must be of a primitive type.
pub struct Type {
    pub nullable: bool,
    pub type_value: TypeValue,
}

/// The enum form: the instance must be one of the listed strings.
pub struct Enum {
    pub nullable: bool,
    pub values: Seq<Seq<char>>,
}

/// The elements form: the instance must be an array whose elements satisfy
/// the schema.
pub struct Elements {
    pub nullable: bool,
    pub schema: Box<SchemaView>,
}

/// The properties form: the instance must be an object with the required
/// members, whose members satisfy the schemas of their names.
pub struct Properties {
    pub nullable: bool,
    pub required: Seq<(Seq<char>, SchemaView)>,
    pub optional: Seq<(Seq<char>, SchemaView)>,
    pub additional: bool,
    /// Whether the schema was written with the keyword `properties`.
    pub has_required: bool,
}

/// The values form: the instance must be an object whose members' values
/// satisfy the schema.
pub struct Values {
    pub nullable: bool,
    pub schema: Box<SchemaView>,
}

/// The discriminator form: the instance must be an object whose tag names
/// the schema that it satisfies.
pub struct Discriminator {
    pub nullable: bool,
    pub discriminator: Seq<char>,
    pub mapping: Seq<(Seq<char>, SchemaView)>,
}

/// What a schema asks of an instance.
pub enum Form {
    Empty,
    Ref(Ref),
    Type(Type),
    Enum(Enum),
    Elements(Elements),
    Properties(Properties),
    Values(Values),
    Discriminator(Discriminator),
}

/// A schema as a mathematical value: its definitions, its form and its
/// metadata.
pub struct SchemaView {
    pub definitions: Seq<(Seq<char>, SchemaView)>,
    pub form: Form,
    pub metadata: Seq<(Seq<char>, JsonView)>,
}

impl Form {
    /// Whether the form accepts `null` whatever else it asks. The empty form
    /// accepts everything.
    pub open spec fn nullable(self) -> bool {
        match self {
            Form::Empty => true,
            Form::Ref(f) => f.nullable,
            Form::Type(f) => f.nullable,
            Form::Enum(f) => f.nullable,
            Form::Elements(f) => f.nullable,
            Form::Properties(f) => f.nullable,
            Form::Values(f) => f.nullable,
            Form::Discriminator(f) => f.nullable,
        }
    }
}

/// The primitive type that a keyword names, if it names one.
pub open spec fn type_value_of(s: Seq<char>) -> Option<TypeValue> {
    if s == "boolean"@ {
        Some(TypeValue::Boolean)
    } else if s == "float32"@ {
        Some(TypeValue::Float32)
    } else if s == "float64"@ {
        Some(TypeValue::Float64)
    } else if s == "int8"@ {
        Some(TypeValue::Int8)
    } else if s == "uint8"@ {
        Some(TypeValue::Uint8)
    } else if s == "int16"@ {
        Some(TypeValue::Int16)
    } else if s == "uint16"@ {
        Some(TypeValue::Uint16)
    } else if s == "int32"@ {
        Some(TypeValue::Int32)
    } else if s == "uint32"@ {
        Some(TypeValue::Uint32)
    } else if s == "string"@ {
        Some(TypeValue::String)
    } else if s == "timestamp"@ {
        Some(TypeValue::Timestamp)
    } else {
        None
    }
}

/// The keyword that names a primitive type.
pub open spec fn keyword_of(t: TypeValue) -> Seq<char> {
    match t {
        TypeValue::Boolean => "boolean"@,
        TypeValue::Float32 => "float32"@,
        TypeValue::Float64 => "float64"@,
        TypeValue::Int8 => "int8"@,
        TypeValue::Uint8 => "uint8"@,
        TypeValue::Int16 => "int16"@,
        TypeValue::Uint16 => "uint16"@,
        TypeValue::Int32 => "int32"@,
        TypeValue::Uint32 => "uint32"@,
        TypeValue::String => "string"@,
        TypeValue::Timestamp => "timestamp"@,
    }
}

/// A primitive type is the one that its keyword names.
pub proof fn lemma_keyword_names_its_type(t: TypeValue)
    ensures
        type_value_of(keyword_of(t)) == Some(t),
{
    reveal_strlit("boolean");
    reveal_strlit("float32");
    reveal_strlit("float64");
    reveal_strlit("int8");
    reveal_strlit("uint8");
    reveal_strlit("int16");
    reveal_strlit("uint16");
    reveal_strlit("int32");
    reveal_strlit("uint32");
    reveal_strlit("string");
    reveal_strlit("timestamp");
    assert("boolean"@.len() == 7);
    assert("float32"@[5] == '3');
    assert("float64"@[5] == '6');
    assert("int8"@[0] == 'i');
    assert("uint8"@[4] == '8');
    assert("int16"@[3] == '1');
    assert("uint16"@[4] == '1');
    assert("int32"@[3] == '3');
    assert("uint32"@[4] == '3');
    assert("string"@[0] == 's');
    assert("timestamp"@.len() == 9);
}

impl TypeValue {
    /// The primitive type that `s` names, if it names one.
    pub fn from_keyword(s: &str) -> (r: Option<TypeValue>)
        ensures
            r == type_value_of(s@),
    {
        if str_eq(s, "boolean") {
            Some(TypeValue::Boolean)
        } else if str_eq(s, "float32") {
            Some(TypeValue::Float32)
        } else if str_eq(s, "float64") {
            Some(TypeValue::Float64)
        } else if str_eq(s, "int8") {
            Some(TypeValue::Int8)
        } else if str_eq(s, "uint8") {
            Some(TypeValue::Uint8)
        } else if str_eq(s, "int16") {
            Some(TypeValue::Int16)
        } else if str_eq(s, "uint16") {
            Some(TypeValue::Uint16)
        } else if str_eq(s, "int32") {
            Some(TypeValue::Int32)
        } else if str_eq(s, "uint32") {
            Some(TypeValue::Uint32)
        } else if str_eq(s, "string") {
            Some(TypeValue::String)
        } else if str_eq(s, "timestamp") {
            Some(TypeValue::Timestamp)
        } else {
            None
        }
    }

    /// The keyword that names this primitive type.
    pub fn keyword(&self) -> (r: &'static str)
        ensures
            r@ == keyword_of(*self),
    {
        match self {
            TypeValue::Boolean => "boolean",
            TypeValue::Float32 => "float32",
            TypeValue::Float64 => "float64",
            TypeValue::Int8 => "int8",
            TypeValue::Uint8 => "uint8",
            TypeValue::Int16 => "int16",
            TypeValue::Uint16 => "uint16",
            TypeValue::Int32 => "int32",
            TypeValue::Uint32 => "uint32",
            TypeValue::String => "string",
            TypeValue::Timestamp => "timestamp",
        }
    }
}

impl core::str::FromStr for TypeValue {
    type Err = ();

    /// The primitive type that `s` names; an error where it names none.
    fn from_str(s: &str) -> (r: Result<TypeValue, ()>)
        ensures
            r == (match type_value_of(s@) {
                Some(t) => Ok::<TypeValue, ()>(t),
                None => Err::<TypeValue, ()>(()),
            }),
    {
        match TypeValue::from_keyword(s) {
            Some(t) => Ok(t),
            None => Err(()),
        }
    }
}

} // verus!
