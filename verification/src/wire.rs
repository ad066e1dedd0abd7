//! From the loose form of a schema to the strict one and back.

use vstd::prelude::*;
use crate::entries::contains_string;
use crate::entries::entries_view;
use crate::entries::insert;
use crate::entries::insert_entry;
use crate::entries::insert_sorted_string;
use crate::entries::insert_string;
use crate::entries::position;
use crate::entries::strings_view;
use crate::form::type_value_of;
use crate::form::Discriminator;
use crate::form::Elements;
use crate::form::Enum;
use crate::form::Form;
use crate::form::Properties;
use crate::form::Ref;
use crate::form::SchemaView;
use crate::form::TypeValue;
use crate::form::Values;
use crate::json::Json;
use crate::schema::Schema;
use crate::serde_schema::SerdeSchema;
use crate::serde_schema::SerdeSchemaView;
use crate::serde_schema::keyword_view;
use crate::serde_schema::lemma_wire_view;
use crate::schema::lemma_schema_view;

verus! {

/// Why a loose schema has no strict form.
#[derive(Clone, Debug, PartialEq, Eq)]
pub enum FromSerdeSchemaError {
    /// The keywords present are those of no form.
    InvalidForm,
    /// The keyword `type` names no primitive type.
    InvalidType(String),
    /// The keyword `enum` lists a value twice.
    DuplicatedEnumValue(String),
}

/// Why a loose schema has no strict form, as a mathematical value.
pub enum FromWireError {
    InvalidForm,
    InvalidType(Seq<char>),
    DuplicatedEnumValue(Seq<char>),
}

impl View for FromSerdeSchemaError {
    type V = FromWireError;

    open spec fn view(&self) -> FromWireError {
        match self {
            FromSerdeSchemaError::InvalidForm => FromWireError::InvalidForm,
            FromSerdeSchemaError::InvalidType(s) => FromWireError::InvalidType(s@),
            FromSerdeSchemaError::DuplicatedEnumValue(s) => FromWireError::DuplicatedEnumValue(s@),
        }
    }
}

/// Which of the keywords that decide the form are present, in the order
/// `ref`, `type`, `enum`, `elements`, `properties`, `optionalProperties`,
/// `additionalProperties`, `values`, `discriminator`, `mapping`.
pub open spec fn signature(w: SerdeSchemaView) -> Seq<bool> {
    seq![
        w.ref_ is Some,
        w.type_ is Some,
        w.enum_ is Some,
        w.elements is Some,
        w.properties is Some,
        w.optional_properties is Some,
        w.additional_properties is Some,
        w.values is Some,
        w.discriminator is Some,
        w.mapping is Some,
    ]
}

/// The thirteen signatures that a schema may have.
pub open spec fn form_signatures() -> Seq<Seq<bool>> {
    seq![
        // the empty form
        seq![false, false, false, false, false, false, false, false, false, false],
        // the ref form
        seq![true, false, false, false, false, false, false, false, false, false],
        // the type form
        seq![false, true, false, false, false, false, false, false, false, false],
        // the enum form
        seq![false, false, true, false, false, false, false, false, false, false],
        // the elements form
        seq![false, false, false, true, false, false, false, false, false, false],
        // the properties form: required or optional properties or both, and
        // never additional properties alone
        seq![false, false, false, false, true, false, false, false, false, false],
        seq![false, false, false, false, false, true, false, false, false, false],
        seq![false, false, false, false, true, true, false, false, false, false],
        seq![false, false, false, false, true, false, true, false, false, false],
        seq![false, false, false, false, false, true, true, false, false, false],
        seq![false, false, false, false, true, true, true, false, false, false],
        // the values form
        seq![false, false, false, false, false, false, false, true, false, false],
        // the discriminator form
        seq![false, false, false, false, false, false, false, false, true, true],
    ]
}

/// Whether the keywords present are those of a form.
pub open spec fn has_form(w: SerdeSchemaView) -> bool {
    form_signatures().contains(signature(w))
}

/// The set of the first `n` enum values, sorted, unless one of them repeats
/// an earlier one.
pub open spec fn enum_from_wire(values: Seq<Seq<char>>, n: int) -> Result<
    Seq<Seq<char>>,
    FromWireError,
>
    decreases n,
{
    if n <= 0 || n > values.len() {
        Ok(Seq::empty())
    } else {
        match enum_from_wire(values, n - 1) {
            Err(e) => Err(e),
            Ok(set) => {
                if position(set, values[n - 1]) is Some {
                    Err(FromWireError::DuplicatedEnumValue(values[n - 1]))
                } else {
                    Ok(insert_string(set, values[n - 1]))
                }
            },
        }
    }
}

/// The strict forms of the first `n` entries, sorted by key, a later entry
/// replacing an earlier one of the same key; or the error of the first entry
/// that has no strict form.
pub open spec fn entries_from_wire(es: Seq<(Seq<char>, SerdeSchemaView)>, n: int) -> Result<
    Seq<(Seq<char>, SchemaView)>,
    FromWireError,
>
    decreases es, n,
{
    if n <= 0 || n > es.len() {
        Ok(Seq::empty())
    } else {
        match entries_from_wire(es, n - 1) {
            Err(e) => Err(e),
            Ok(done) => match from_wire(es[n - 1].1) {
                Err(e) => Err(e),
                Ok(s) => Ok(insert(done, es[n - 1].0, s)),
            },
        }
    }
}

/// The strict forms of the entries of a keyword, none where it is absent.
pub open spec fn keyword_from_wire(es: Option<Seq<(Seq<char>, SerdeSchemaView)>>) -> Result<
    Seq<(Seq<char>, SchemaView)>,
    FromWireError,
>
    decreases es, 0int,
{
    match es {
        Some(es) => entries_from_wire(es, es.len() as int),
        None => Ok(Seq::empty()),
    }
}

/// The strict form of a loose schema, or why it has none. The definitions
/// are converted first, then the keywords present are held against the
/// forms, then what the form holds is converted.
pub open spec fn from_wire(w: SerdeSchemaView) -> Result<SchemaView, FromWireError>
    decreases w, 1int,
{
    let metadata = match w.metadata {
        Some(m) => m,
        None => Seq::empty(),
    };
    let nullable = match w.nullable {
        Some(b) => b,
        None => false,
    };
    match keyword_from_wire(w.definitions) {
        Err(e) => Err(e),
        Ok(definitions) => {
            if !has_form(w) {
                Err(FromWireError::InvalidForm)
            } else if w.ref_ is Some {
                Ok(
                    SchemaView {
                        definitions,
                        form: Form::Ref(Ref { nullable, definition: w.ref_->0 }),
                        metadata,
                    },
                )
            } else if w.type_ is Some {
                match type_value_of(w.type_->0) {
                    Some(type_value) => Ok(
                        SchemaView {
                            definitions,
                            form: Form::Type(crate::form::Type { nullable, type_value }),
                            metadata,
                        },
                    ),
                    None => Err(FromWireError::InvalidType(w.type_->0)),
                }
            } else if w.enum_ is Some {
                match enum_from_wire(w.enum_->0, w.enum_->0.len() as int) {
                    Ok(values) => Ok(
                        SchemaView {
                            definitions,
                            form: Form::Enum(Enum { nullable, values }),
                            metadata,
                        },
                    ),
                    Err(e) => Err(e),
                }
            } else if w.elements is Some {
                match from_wire(*w.elements->0) {
                    Ok(s) => Ok(
                        SchemaView {
                            definitions,
                            form: Form::Elements(Elements { nullable, schema: Box::new(s) }),
                            metadata,
                        },
                    ),
                    Err(e) => Err(e),
                }
            } else if w.properties is Some || w.optional_properties is Some {
                match keyword_from_wire(w.properties) {
                    Err(e) => Err(e),
                    Ok(required) => match keyword_from_wire(w.optional_properties) {
                        Err(e) => Err(e),
                        Ok(optional) => Ok(
                            SchemaView {
                                definitions,
                                form: Form::Properties(
                                    Properties {
                                        nullable,
                                        required,
                                        optional,
                                        additional: match w.additional_properties {
                                            Some(b) => b,
                                            None => false,
                                        },
                                        has_required: w.properties is Some,
                                    },
                                ),
                                metadata,
                            },
                        ),
                    },
                }
            } else if w.values is Some {
                match from_wire(*w.values->0) {
                    Ok(s) => Ok(
                        SchemaView {
                            definitions,
                            form: Form::Values(Values { nullable, schema: Box::new(s) }),
                            metadata,
                        },
                    ),
                    Err(e) => Err(e),
                }
            } else if w.discriminator is Some {
                match keyword_from_wire(w.mapping) {
                    Ok(mapping) => Ok(
                        SchemaView {
                            definitions,
                            form: Form::Discriminator(
                                Discriminator { nullable, discriminator: w.discriminator->0, mapping },
                            ),
                            metadata,
                        },
                    ),
                    Err(e) => Err(e),
                }
            } else {
                Ok(SchemaView { definitions, form: Form::Empty, metadata })
            }
        },
    }
}

/// A result of the classifier by its views.
pub open spec fn result_view<T: View, E: View>(r: Result<T, E>) -> Result<T::V, E::V> {
    match r {
        Ok(t) => Ok(t@),
        Err(e) => Err(e@),
    }
}

/// Whether keywords are those of a form: those of the properties form, of
/// which `additionalProperties` is no more than an addition; or
/// `discriminator` and `mapping` together; or one of the others alone; or
/// none.
pub open spec fn names_form(
    ref_: bool,
    type_: bool,
    enum_: bool,
    elements: bool,
    properties: bool,
    optional_properties: bool,
    additional_properties: bool,
    values: bool,
    discriminator: bool,
    mapping: bool,
) -> bool {
    if properties || optional_properties {
        !(ref_ || type_ || enum_ || elements || values || discriminator || mapping)
    } else if additional_properties {
        false
    } else if discriminator || mapping {
        discriminator && mapping && !ref_ && !type_ && !enum_ && !elements && !values
    } else if ref_ {
        !type_ && !enum_ && !elements && !values
    } else if type_ {
        !enum_ && !elements && !values
    } else if enum_ {
        !elements && !values
    } else {
        !(elements && values)
    }
}

/// The thirteen signatures are those whose keywords are those of a form.
pub proof fn lemma_form_signatures(
    ref_: bool,
    type_: bool,
    enum_: bool,
    elements: bool,
    properties: bool,
    optional_properties: bool,
    additional_properties: bool,
    values: bool,
    discriminator: bool,
    mapping: bool,
)
    ensures
        form_signatures().contains(
            seq![
                ref_,
                type_,
                enum_,
                elements,
                properties,
                optional_properties,
                additional_properties,
                values,
                discriminator,
                mapping,
            ],
        ) == names_form(
            ref_,
            type_,
            enum_,
            elements,
            properties,
            optional_properties,
            additional_properties,
            values,
            discriminator,
            mapping,
        ),
{
    let sig = seq![
        ref_,
        type_,
        enum_,
        elements,
        properties,
        optional_properties,
        additional_properties,
        values,
        discriminator,
        mapping,
    ];
    let table = form_signatures();
    if names_form(
        ref_,
        type_,
        enum_,
        elements,
        properties,
        optional_properties,
        additional_properties,
        values,
        discriminator,
        mapping,
    ) {
        let k: int = if properties && optional_properties && additional_properties {
            10
        } else if optional_properties && additional_properties {
            9
        } else if properties && additional_properties {
            8
        } else if properties && optional_properties {
            7
        } else if optional_properties {
            6
        } else if properties {
            5
        } else if discriminator {
            12
        } else if values {
            11
        } else if elements {
            4
        } else if enum_ {
            3
        } else if type_ {
            2
        } else if ref_ {
            1
        } else {
            0
        };
        assert(table[k] =~= sig);
    } else {
        assert forall|i: int| 0 <= i < table.len() implies table[i] != sig by {
            let row = table[i];
            if row == sig {
                assert(row[0] == sig[0]);
                assert(row[1] == sig[1]);
                assert(row[2] == sig[2]);
                assert(row[3] == sig[3]);
                assert(row[4] == sig[4]);
                assert(row[5] == sig[5]);
                assert(row[6] == sig[6]);
                assert(row[7] == sig[7]);
                assert(row[8] == sig[8]);
                assert(row[9] == sig[9]);
            }
        }
    }
}

/// The signature of a loose schema is one of the thirteen exactly if its
/// keywords are those of a form.
pub proof fn lemma_has_form(w: SerdeSchemaView)
    ensures
        has_form(w) == names_form(
            w.ref_ is Some,
            w.type_ is Some,
            w.enum_ is Some,
            w.elements is Some,
            w.properties is Some,
            w.optional_properties is Some,
            w.additional_properties is Some,
            w.values is Some,
            w.discriminator is Some,
            w.mapping is Some,
        ),
{
    lemma_form_signatures(
        w.ref_ is Some,
        w.type_ is Some,
        w.enum_ is Some,
        w.elements is Some,
        w.properties is Some,
        w.optional_properties is Some,
        w.additional_properties is Some,
        w.values is Some,
        w.discriminator is Some,
        w.mapping is Some,
    );
}

/// Whether a signature is one of the thirteen.
fn is_form_signature(
    ref_: bool,
    type_: bool,
    enum_: bool,
    elements: bool,
    properties: bool,
    optional_properties: bool,
    additional_properties: bool,
    values: bool,
    discriminator: bool,
    mapping: bool,
) -> (ok: bool)
    ensures
        ok == form_signatures().contains(
            seq![
                ref_,
                type_,
                enum_,
                elements,
                properties,
                optional_properties,
                additional_properties,
                values,
                discriminator,
                mapping,
            ],
        ),
{
    proof {
        lemma_form_signatures(
            ref_,
            type_,
            enum_,
            elements,
            properties,
            optional_properties,
            additional_properties,
            values,
            discriminator,
            mapping,
        );
    }
    let outside_properties = ref_ || type_ || enum_ || elements || values || discriminator
        || mapping;
    if properties || optional_properties {
        !outside_properties
    } else if additional_properties {
        false
    } else if discriminator || mapping {
        discriminator && mapping && !ref_ && !type_ && !enum_ && !elements && !values
    } else if ref_ {
        !type_ && !enum_ && !elements && !values
    } else if type_ {
        !enum_ && !elements && !values
    } else if enum_ {
        !elements && !values
    } else {
        !(elements && values)
    }
}

impl Schema {
    /// The strict form of a loose schema, or why it has none.
    pub fn from_serde_schema(serde_schema: SerdeSchema) -> (r: Result<Schema, FromSerdeSchemaError>)
        ensures
            result_view(r) == from_wire(serde_schema@),
            r matches Ok(s) ==> crate::round_trip::canonical(s@),
        decreases serde_schema, 1int,
    {
        let ghost w = serde_schema@;
        proof {
            lemma_wire_view(serde_schema);
            crate::round_trip::lemma_from_wire_is_canonical(w);
        }
        let SerdeSchema {
            metadata,
            definitions,
            nullable,
            ref_,
            type_,
            enum_,
            elements,
            properties,
            optional_properties,
            additional_properties,
            values,
            discriminator,
            mapping,
        } = serde_schema;
        let has_form = is_form_signature(
            ref_.is_some(),
            type_.is_some(),
            enum_.is_some(),
            elements.is_some(),
            properties.is_some(),
            optional_properties.is_some(),
            additional_properties.is_some(),
            values.is_some(),
            discriminator.is_some(),
            mapping.is_some(),
        );
        assert(has_form == crate::wire::has_form(w)) by {
            assert(signature(w) =~= seq![
                ref_ is Some,
                type_ is Some,
                enum_ is Some,
                elements is Some,
                properties is Some,
                optional_properties is Some,
                additional_properties is Some,
                values is Some,
                discriminator is Some,
                mapping is Some,
            ]);
        }
        let definitions = Self::keyword_from_serde(definitions)?;
        let metadata: Vec<(String, Json)> = match metadata {
            Some(m) => m,
            None => Vec::new(),
        };
        assert(entries_view(metadata@) =~= (match w.metadata {
            Some(m) => m,
            None => Seq::empty(),
        }));
        let nullable = match nullable {
            Some(b) => b,
            None => false,
        };
        if !has_form {
            return Err(FromSerdeSchemaError::InvalidForm);
        }
        let r = if let Some(ref_) = ref_ {
            Schema::Ref { definitions, metadata, nullable, ref_ }
        } else if let Some(type_) = type_ {
            match TypeValue::from_keyword(type_.as_str()) {
                Some(type_) => Schema::Type { definitions, metadata, nullable, type_ },
                None => {
                    return Err(FromSerdeSchemaError::InvalidType(type_));
                },
            }
        } else if let Some(enum_) = enum_ {
            let set = Self::enum_from_serde(enum_)?;
            Schema::Enum { definitions, metadata, nullable, enum_: set }
        } else if let Some(elements) = elements {
            let inner = Self::from_serde_schema(*elements)?;
            Schema::Elements { definitions, metadata, nullable, elements: Box::new(inner) }
        } else if properties.is_some() || optional_properties.is_some() {
            let properties_is_present = properties.is_some();
            let additional_properties = match additional_properties {
                Some(b) => b,
                None => false,
            };
            let properties = Self::keyword_from_serde(properties)?;
            let optional_properties = Self::keyword_from_serde(optional_properties)?;
            Schema::Properties {
                definitions,
                metadata,
                nullable,
                properties,
                optional_properties,
                properties_is_present,
                additional_properties,
            }
        } else if let Some(values) = values {
            let inner = Self::from_serde_schema(*values)?;
            Schema::Values { definitions, metadata, nullable, values: Box::new(inner) }
        } else if let Some(discriminator) = discriminator {
            let mapping = Self::keyword_from_serde(mapping)?;
            Schema::Discriminator { definitions, metadata, nullable, discriminator, mapping }
        } else {
            Schema::Empty { definitions, metadata }
        };
        proof {
            lemma_schema_view(r);
        }
        Ok(r)
    }

    /// The set of the values of the keyword `enum`, sorted.
    fn enum_from_serde(values: Vec<String>) -> (r: Result<Vec<String>, FromSerdeSchemaError>)
        ensures
            match r {
                Ok(set) => enum_from_wire(strings_view(values@), values@.len() as int) == Ok::<
                    Seq<Seq<char>>,
                    FromWireError,
                >(strings_view(set@)),
                Err(e) => enum_from_wire(strings_view(values@), values@.len() as int) == Err::<
                    Seq<Seq<char>>,
                    FromWireError,
                >(e@),
            },
    {
        let ghost given = values@;
        let ghost listed = strings_view(values@);
        let mut set: Vec<String> = Vec::new();
        assert(strings_view(set@) =~= Seq::<Seq<char>>::empty());
        for value in it: values
            invariant
                it.seq() == given,
                listed == strings_view(given),
                enum_from_wire(listed, it.index() as int) == Ok::<Seq<Seq<char>>, FromWireError>(
                    strings_view(set@),
                ),
        {
            let ghost i = it.index() as int;
            assert(listed[i] == value@);
            if contains_string(&set, value.as_str()) {
                proof {
                    lemma_enum_error_stays(listed, i + 1, given.len() as int);
                }
                return Err(FromSerdeSchemaError::DuplicatedEnumValue(value));
            }
            insert_sorted_string(&mut set, value);
        }
        Ok(set)
    }

    /// The strict forms of the entries of a keyword, sorted by key.
    fn keyword_from_serde(entries: Option<Vec<(String, SerdeSchema)>>) -> (r: Result<
        Vec<(String, Schema)>,
        FromSerdeSchemaError,
    >)
        ensures
            match r {
                Ok(done) => keyword_from_wire(keyword_view(entries)) == Ok::<
                    Seq<(Seq<char>, SchemaView)>,
                    FromWireError,
                >(entries_view(done@)),
                Err(e) => keyword_from_wire(keyword_view(entries)) == Err::<
                    Seq<(Seq<char>, SchemaView)>,
                    FromWireError,
                >(e@),
            },
        decreases entries, 0int,
    {
        let mut done: Vec<(String, Schema)> = Vec::new();
        assert(entries_view(done@) =~= Seq::<(Seq<char>, SchemaView)>::empty());
        match entries {
            Some(es) => {
                let ghost given = es@;
                let ghost loose = entries_view(es@);
                for entry in it: es
                    invariant
                        it.seq() == given,
                        loose == entries_view(given),
                        keyword_view(entries) == Some(loose),
                        decreases_to!(entries => given),
                        entries_from_wire(loose, it.index() as int) == Ok::<
                            Seq<(Seq<char>, SchemaView)>,
                            FromWireError,
                        >(entries_view(done@)),
                {
                    let ghost i = it.index() as int;
                    let (name, sub_schema) = entry;
                    assert(loose[i] == (name@, sub_schema@));
                    match Self::from_serde_schema(sub_schema) {
                        Ok(schema) => {
                            insert_entry(&mut done, name, schema);
                        },
                        Err(e) => {
                            proof {
                                assert(0 <= i < loose.len());
                                assert(from_wire(loose[i].1) == Err::<SchemaView, FromWireError>(e@));
                                assert(entries_from_wire(loose, i + 1) == Err::<
                                    Seq<(Seq<char>, SchemaView)>,
                                    FromWireError,
                                >(e@));
                                lemma_entries_error_stays(loose, i + 1, loose.len() as int);
                                assert(keyword_view(entries) == Some(loose));
                            }
                            return Err(e);
                        },
                    }
                }
                Ok(done)
            },
            None => Ok(done),
        }
    }
}

/// Once an enum value repeats an earlier one, the error stays.
pub proof fn lemma_enum_error_stays(values: Seq<Seq<char>>, n: int, m: int)
    requires
        0 <= n <= m <= values.len(),
        enum_from_wire(values, n) is Err,
    ensures
        enum_from_wire(values, m) == enum_from_wire(values, n),
    decreases m - n,
{
    if n < m {
        lemma_enum_error_stays(values, n, m - 1);
    }
}

/// Once an entry has no strict form, the error stays.
pub proof fn lemma_entries_error_stays(es: Seq<(Seq<char>, SerdeSchemaView)>, n: int, m: int)
    requires
        0 <= n <= m <= es.len(),
        entries_from_wire(es, n) is Err,
    ensures
        entries_from_wire(es, m) == entries_from_wire(es, n),
    decreases m - n,
{
    if n < m {
        lemma_entries_error_stays(es, n, m - 1);
    }
}

/// The loose forms of the first `n` entries, in order.
pub open spec fn entries_to_wire(es: Seq<(Seq<char>, SchemaView)>, n: int) -> Seq<
    (Seq<char>, SerdeSchemaView),
>
    decreases es, n,
{
    if n <= 0 || n > es.len() {
        Seq::empty()
    } else {
        entries_to_wire(es, n - 1).push((es[n - 1].0, to_wire(es[n - 1].1)))
    }
}

/// The keyword that holds `es`, absent where `present` is false.
pub open spec fn keyword_to_wire(es: Seq<(Seq<char>, SchemaView)>, present: bool) -> Option<
    Seq<(Seq<char>, SerdeSchemaView)>,
>
    decreases es, es.len() + 1,
{
    if present {
        Some(entries_to_wire(es, es.len() as int))
    } else {
        None
    }
}

/// The keyword `nullable`: present only where it is true.
pub open spec fn nullable_to_wire(nullable: bool) -> Option<bool> {
    if nullable {
        Some(true)
    } else {
        None
    }
}

/// The loose form of a schema. A keyword that would hold its default is
/// left out: empty definitions and metadata, `nullable` and
/// `additionalProperties` that are false, and optional properties that are
/// empty beside the keyword `properties`. Without that keyword the optional
/// properties are written though they are empty: they alone show the form.
pub open spec fn to_wire(s: SchemaView) -> SerdeSchemaView
    decreases s, 0int,
{
    let base = SerdeSchemaView {
        definitions: keyword_to_wire(s.definitions, s.definitions.len() > 0),
        metadata: if s.metadata.len() > 0 {
            Some(s.metadata)
        } else {
            None
        },
        ..SerdeSchemaView::empty()
    };
    match s.form {
        Form::Empty => base,
        Form::Ref(f) => SerdeSchemaView {
            nullable: nullable_to_wire(f.nullable),
            ref_: Some(f.definition),
            ..base
        },
        Form::Type(f) => SerdeSchemaView {
            nullable: nullable_to_wire(f.nullable),
            type_: Some(crate::form::keyword_of(f.type_value)),
            ..base
        },
        Form::Enum(f) => SerdeSchemaView {
            nullable: nullable_to_wire(f.nullable),
            enum_: Some(f.values),
            ..base
        },
        Form::Elements(f) => SerdeSchemaView {
            nullable: nullable_to_wire(f.nullable),
            elements: Some(Box::new(to_wire(*f.schema))),
            ..base
        },
        Form::Properties(f) => SerdeSchemaView {
            nullable: nullable_to_wire(f.nullable),
            properties: keyword_to_wire(f.required, f.has_required),
            optional_properties: keyword_to_wire(
                f.optional,
                f.optional.len() > 0 || !f.has_required,
            ),
            additional_properties: nullable_to_wire(f.additional),
            ..base
        },
        Form::Values(f) => SerdeSchemaView {
            nullable: nullable_to_wire(f.nullable),
            values: Some(Box::new(to_wire(*f.schema))),
            ..base
        },
        Form::Discriminator(f) => SerdeSchemaView {
            nullable: nullable_to_wire(f.nullable),
            discriminator: Some(f.discriminator),
            mapping: keyword_to_wire(f.mapping, true),
            ..base
        },
    }
}

impl Schema {
    /// The loose form of this schema.
    pub fn into_serde_schema(self) -> (r: SerdeSchema)
        ensures
            r@ == to_wire(self@),
        decreases self, 1int,
    {
        proof {
            lemma_schema_view(self);
        }
        let mut out = SerdeSchema::default();
        match self {
            Schema::Empty { definitions, metadata } => {
                out.definitions = Self::definitions_into_serde_schema(definitions);
                out.metadata = Self::metadata_into_serde_schema(metadata);
            },
            Schema::Ref { definitions, metadata, nullable, ref_ } => {
                out.definitions = Self::definitions_into_serde_schema(definitions);
                out.metadata = Self::metadata_into_serde_schema(metadata);
                out.nullable = Self::nullable_into_serde_schema(nullable);
                out.ref_ = Some(ref_);
            },
            Schema::Type { definitions, metadata, nullable, type_ } => {
                out.definitions = Self::definitions_into_serde_schema(definitions);
                out.metadata = Self::metadata_into_serde_schema(metadata);
                out.nullable = Self::nullable_into_serde_schema(nullable);
                out.type_ = Some(type_.keyword().to_owned());
            },
            Schema::Enum { definitions, metadata, nullable, enum_ } => {
                out.definitions = Self::definitions_into_serde_schema(definitions);
                out.metadata = Self::metadata_into_serde_schema(metadata);
                out.nullable = Self::nullable_into_serde_schema(nullable);
                out.enum_ = Some(enum_);
            },
            Schema::Elements { definitions, metadata, nullable, elements } => {
                out.definitions = Self::definitions_into_serde_schema(definitions);
                out.metadata = Self::metadata_into_serde_schema(metadata);
                out.nullable = Self::nullable_into_serde_schema(nullable);
                out.elements = Some(Box::new((*elements).into_serde_schema()));
            },
            Schema::Properties {
                definitions,
                metadata,
                nullable,
                properties,
                optional_properties,
                properties_is_present,
                additional_properties,
            } => {
                out.definitions = Self::definitions_into_serde_schema(definitions);
                out.metadata = Self::metadata_into_serde_schema(metadata);
                out.nullable = Self::nullable_into_serde_schema(nullable);
                if properties_is_present {
                    out.properties = Some(Self::entries_into_serde_schema(properties));
                }
                if optional_properties.len() > 0 || !properties_is_present {
                    out.optional_properties = Some(
                        Self::entries_into_serde_schema(optional_properties),
                    );
                }
                if additional_properties {
                    out.additional_properties = Some(additional_properties);
                }
            },
            Schema::Values { definitions, metadata, nullable, values } => {
                out.definitions = Self::definitions_into_serde_schema(definitions);
                out.metadata = Self::metadata_into_serde_schema(metadata);
                out.nullable = Self::nullable_into_serde_schema(nullable);
                out.values = Some(Box::new((*values).into_serde_schema()));
            },
            Schema::Discriminator { definitions, metadata, nullable, discriminator, mapping } => {
                out.definitions = Self::definitions_into_serde_schema(definitions);
                out.metadata = Self::metadata_into_serde_schema(metadata);
                out.nullable = Self::nullable_into_serde_schema(nullable);
                out.discriminator = Some(discriminator);
                out.mapping = Some(Self::entries_into_serde_schema(mapping));
            },
        }
        proof {
            lemma_wire_view(out);
            match self@.form {
                Form::Properties(f) => {
                    assert(keyword_to_wire(f.required, f.has_required) == (if f.has_required {
                        Some(entries_to_wire(f.required, f.required.len() as int))
                    } else {
                        None
                    }));
                    assert(keyword_to_wire(f.optional, f.optional.len() > 0 || !f.has_required)
                        == (if f.optional.len() > 0 || !f.has_required {
                        Some(entries_to_wire(f.optional, f.optional.len() as int))
                    } else {
                        None
                    }));
                },
                Form::Discriminator(f) => {
                    assert(keyword_to_wire(f.mapping, true) == Some(
                        entries_to_wire(f.mapping, f.mapping.len() as int),
                    ));
                },
                _ => {},
            }
        }
        out
    }

    /// The loose forms of the entries of a keyed field, in order.
    fn entries_into_serde_schema(entries: Vec<(String, Schema)>) -> (r: Vec<(String, SerdeSchema)>)
        ensures
            entries_view(r@) == entries_to_wire(entries_view(entries@), entries@.len() as int),
        decreases entries, 0int,
    {
        let ghost given = entries@;
        let ghost strict = entries_view(entries@);
        let mut out: Vec<(String, SerdeSchema)> = Vec::new();
        assert(entries_view(out@) =~= Seq::<(Seq<char>, SerdeSchemaView)>::empty());
        for entry in it: entries
            invariant
                it.seq() == given,
                strict == entries_view(given),
                decreases_to!(entries => given),
                entries_view(out@) == entries_to_wire(strict, it.index() as int),
        {
            let ghost i = it.index() as int;
            let ghost before = entries_view(out@);
            let (name, schema) = entry;
            assert(strict[i] == (name@, schema@));
            let loose = schema.into_serde_schema();
            out.push((name, loose));
            assert(entries_view(out@) =~= before.push((name@, loose@)));
        }
        out
    }

    /// The keyword `definitions`: absent where there are none.
    fn definitions_into_serde_schema(definitions: Vec<(String, Schema)>) -> (r: Option<
        Vec<(String, SerdeSchema)>,
    >)
        ensures
            keyword_view(r) == keyword_to_wire(
                entries_view(definitions@),
                entries_view(definitions@).len() > 0,
            ),
        decreases definitions, 1int,
    {
        if definitions.len() == 0 {
            None
        } else {
            Some(Self::entries_into_serde_schema(definitions))
        }
    }

    /// The keyword `metadata`: absent where there is none.
    fn metadata_into_serde_schema(metadata: Vec<(String, Json)>) -> (r: Option<Vec<(String, Json)>>)
        ensures
            r == (if metadata@.len() > 0 {
                Some(metadata)
            } else {
                None
            }),
    {
        if metadata.len() == 0 {
            None
        } else {
            Some(metadata)
        }
    }

    /// The keyword `nullable`: present only where it is true.
    fn nullable_into_serde_schema(nullable: bool) -> (r: Option<bool>)
        ensures
            r == nullable_to_wire(nullable),
    {
        if nullable {
            Some(true)
        } else {
            None
        }
    }
}

impl From<Schema> for SerdeSchema {
    /// The loose form of a schema.
    fn from(schema: Schema) -> (r: SerdeSchema)
        ensures
            r@ == to_wire(schema@),
    {
        schema.into_serde_schema()
    }
}

impl vstd::std_specs::convert::FromSpecImpl<Schema> for SerdeSchema {
    open spec fn obeys_from_spec() -> bool {
        false
    }

    open spec fn from_spec(schema: Schema) -> SerdeSchema {
        arbitrary()
    }
}

} // verus!
