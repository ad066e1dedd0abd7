//! Schemas in their strict form: one variant for each of the eight forms.

use vstd::prelude::*;
use crate::form::Discriminator;
use crate::form::Elements;
use crate::form::Enum;
use crate::form::Form;
use crate::form::Properties;
use crate::form::Ref;
use crate::form::SchemaView;
use crate::form::Values;
use crate::json::Json;

verus! {

/// The definitions of a schema: named schemas that a ref form points to,
/// sorted by name.
pub type Definitions = Vec<(String, Schema)>;

/// The metadata of a schema. It has no bearing on validation.
pub type Metadata = Vec<(String, Json)>;

/// A schema of one of the eight forms. The keyed fields hold their entries
/// sorted by key, as [`Schema::from_serde_schema`] leaves them; a lookup
/// finds the first entry with the key.
#[derive(Debug, PartialEq)]
pub enum Schema {
    /// Accepts every instance.
    Empty { definitions: Definitions, metadata: Metadata },
    /// Accepts what the definition named `ref_` accepts.
    Ref { definitions: Definitions, metadata: Metadata, nullable: bool, ref_: String },
    /// Accepts the values of a primitive type.
    Type { definitions: Definitions, metadata: Metadata, nullable: bool, type_: Type },
    /// Accepts the strings in `enum_`, which holds them sorted.
    Enum { definitions: Definitions, metadata: Metadata, nullable: bool, enum_: Vec<String> },
    /// Accepts arrays whose elements `elements` accepts.
    Elements {
        definitions: Definitions,
        metadata: Metadata,
        nullable: bool,
        elements: Box<Schema>,
    },
    /// Accepts objects by the schemas of their members.
    Properties {
        definitions: Definitions,
        metadata: Metadata,
        nullable: bool,
        properties: Vec<(String, Schema)>,
        optional_properties: Vec<(String, Schema)>,
        /// Whether the schema was written with the keyword `properties`.
        properties_is_present: bool,
        additional_properties: bool,
    },
    /// Accepts objects whose members' values `values` accepts.
    Values { definitions: Definitions, metadata: Metadata, nullable: bool, values: Box<Schema> },
    /// Accepts objects by the schema that their member `discriminator` names.
    Discriminator {
        definitions: Definitions,
        metadata: Metadata,
        nullable: bool,
        discriminator: String,
        mapping: Vec<(String, Schema)>,
    },
}

/// The primitive types of the type form.
pub type Type = crate::form::TypeValue;

impl Schema {
    /// The field `definitions`, whatever the form.
    pub open spec fn spec_definitions(self) -> Definitions {
        match self {
            Schema::Empty { definitions, .. } => definitions,
            Schema::Ref { definitions, .. } => definitions,
            Schema::Type { definitions, .. } => definitions,
            Schema::Enum { definitions, .. } => definitions,
            Schema::Elements { definitions, .. } => definitions,
            Schema::Properties { definitions, .. } => definitions,
            Schema::Values { definitions, .. } => definitions,
            Schema::Discriminator { definitions, .. } => definitions,
        }
    }

    /// The field `metadata`, whatever the form.
    pub open spec fn spec_metadata(self) -> Metadata {
        match self {
            Schema::Empty { metadata, .. } => metadata,
            Schema::Ref { metadata, .. } => metadata,
            Schema::Type { metadata, .. } => metadata,
            Schema::Enum { metadata, .. } => metadata,
            Schema::Elements { metadata, .. } => metadata,
            Schema::Properties { metadata, .. } => metadata,
            Schema::Values { metadata, .. } => metadata,
            Schema::Discriminator { metadata, .. } => metadata,
        }
    }
}

/// The mathematical value of a schema.
pub open spec fn schema_view(s: Schema) -> SchemaView
    decreases s,
{
    SchemaView {
        definitions: Seq::new(
            s.spec_definitions()@.len(),
            |i: int|
                if 0 <= i < s.spec_definitions()@.len() {
                    (s.spec_definitions()@[i].0@, schema_view(s.spec_definitions()@[i].1))
                } else {
                    (
                        Seq::empty(),
                        SchemaView {
                            definitions: Seq::empty(),
                            form: Form::Empty,
                            metadata: Seq::empty(),
                        },
                    )
                },
        ),
        form: match s {
            Schema::Empty { .. } => Form::Empty,
            Schema::Ref { nullable, ref_, .. } => Form::Ref(Ref { nullable, definition: ref_@ }),
            Schema::Type { nullable, type_, .. } => Form::Type(
                crate::form::Type { nullable, type_value: type_ },
            ),
            Schema::Enum { nullable, enum_, .. } => Form::Enum(
                Enum { nullable, values: crate::entries::strings_view(enum_@) },
            ),
            Schema::Elements { nullable, elements, .. } => Form::Elements(
                Elements { nullable, schema: Box::new(schema_view(*elements)) },
            ),
            Schema::Properties {
                nullable,
                properties,
                optional_properties,
                properties_is_present,
                additional_properties,
                ..
            } => Form::Properties(
                Properties {
                    nullable,
                    required: Seq::new(
                        properties@.len(),
                        |i: int|
                            if 0 <= i < properties@.len() {
                                (properties@[i].0@, schema_view(properties@[i].1))
                            } else {
                                (
                                    Seq::empty(),
                                    SchemaView {
                                        definitions: Seq::empty(),
                                        form: Form::Empty,
                                        metadata: Seq::empty(),
                                    },
                                )
                            },
                    ),
                    optional: Seq::new(
                        optional_properties@.len(),
                        |i: int|
                            if 0 <= i < optional_properties@.len() {
                                (optional_properties@[i].0@, schema_view(optional_properties@[i].1))
                            } else {
                                (
                                    Seq::empty(),
                                    SchemaView {
                                        definitions: Seq::empty(),
                                        form: Form::Empty,
                                        metadata: Seq::empty(),
                                    },
                                )
                            },
                    ),
                    additional: additional_properties,
                    has_required: properties_is_present,
                },
            ),
            Schema::Values { nullable, values, .. } => Form::Values(
                Values { nullable, schema: Box::new(schema_view(*values)) },
            ),
            Schema::Discriminator { nullable, discriminator, mapping, .. } => Form::Discriminator(
                Discriminator {
                    nullable,
                    discriminator: discriminator@,
                    mapping: Seq::new(
                        mapping@.len(),
                        |i: int|
                            if 0 <= i < mapping@.len() {
                                (mapping@[i].0@, schema_view(mapping@[i].1))
                            } else {
                                (
                                    Seq::empty(),
                                    SchemaView {
                                        definitions: Seq::empty(),
                                        form: Form::Empty,
                                        metadata: Seq::empty(),
                                    },
                                )
                            },
                    ),
                },
            ),
        },
        metadata: crate::entries::entries_view(s.spec_metadata()@),
    }
}

/// The form of a schema by the views of what it holds.
pub open spec fn form_view(s: Schema) -> Form {
    match s {
        Schema::Empty { .. } => Form::Empty,
        Schema::Ref { nullable, ref_, .. } => Form::Ref(Ref { nullable, definition: ref_@ }),
        Schema::Type { nullable, type_, .. } => Form::Type(
            crate::form::Type { nullable, type_value: type_ },
        ),
        Schema::Enum { nullable, enum_, .. } => Form::Enum(
            Enum { nullable, values: crate::entries::strings_view(enum_@) },
        ),
        Schema::Elements { nullable, elements, .. } => Form::Elements(
            Elements { nullable, schema: Box::new((*elements)@) },
        ),
        Schema::Properties {
            nullable,
            properties,
            optional_properties,
            properties_is_present,
            additional_properties,
            ..
        } => Form::Properties(
            Properties {
                nullable,
                required: crate::entries::entries_view(properties@),
                optional: crate::entries::entries_view(optional_properties@),
                additional: additional_properties,
                has_required: properties_is_present,
            },
        ),
        Schema::Values { nullable, values, .. } => Form::Values(
            Values { nullable, schema: Box::new((*values)@) },
        ),
        Schema::Discriminator { nullable, discriminator, mapping, .. } => Form::Discriminator(
            Discriminator {
                nullable,
                discriminator: discriminator@,
                mapping: crate::entries::entries_view(mapping@),
            },
        ),
    }
}

/// The view of a schema, part by part.
pub proof fn lemma_schema_view(s: Schema)
    ensures
        s@.definitions == crate::entries::entries_view(s.spec_definitions()@),
        s@.metadata == crate::entries::entries_view(s.spec_metadata()@),
        s@.form == form_view(s),
{
    assert(s@.definitions =~= crate::entries::entries_view(s.spec_definitions()@));
    match s {
        Schema::Properties { properties, optional_properties, .. } => {
            assert(s@.form->Properties_0.required =~= crate::entries::entries_view(properties@));
            assert(s@.form->Properties_0.optional =~= crate::entries::entries_view(
                optional_properties@,
            ));
        },
        Schema::Discriminator { mapping, .. } => {
            assert(s@.form->Discriminator_0.mapping =~= crate::entries::entries_view(mapping@));
        },
        _ => {},
    }
}

impl View for Schema {
    type V = SchemaView;

    open spec fn view(&self) -> SchemaView {
        schema_view(*self)
    }
}

impl Schema {
    /// The definitions of this schema.
    pub fn definitions(&self) -> (r: &Vec<(String, Schema)>)
        ensures
            *r == self.spec_definitions(),
            crate::entries::entries_view(r@) == self@.definitions,
    {
        let r = match self {
            Schema::Empty { definitions, .. } => definitions,
            Schema::Ref { definitions, .. } => definitions,
            Schema::Type { definitions, .. } => definitions,
            Schema::Enum { definitions, .. } => definitions,
            Schema::Elements { definitions, .. } => definitions,
            Schema::Properties { definitions, .. } => definitions,
            Schema::Values { definitions, .. } => definitions,
            Schema::Discriminator { definitions, .. } => definitions,
        };
        assert(crate::entries::entries_view(r@) =~= self@.definitions);
        r
    }

    /// The metadata of this schema.
    pub fn metadata(&self) -> (r: &Vec<(String, Json)>)
        ensures
            *r == self.spec_metadata(),
            crate::entries::entries_view(r@) == self@.metadata,
    {
        match self {
            Schema::Empty { metadata, .. } => metadata,
            Schema::Ref { metadata, .. } => metadata,
            Schema::Type { metadata, .. } => metadata,
            Schema::Enum { metadata, .. } => metadata,
            Schema::Elements { metadata, .. } => metadata,
            Schema::Properties { metadata, .. } => metadata,
            Schema::Values { metadata, .. } => metadata,
            Schema::Discriminator { metadata, .. } => metadata,
        }
    }

    /// Whether this schema accepts `null` whatever else it asks. The empty
    /// form accepts everything, `null` too.
    pub fn nullable(&self) -> (r: bool)
        ensures
            r == self@.form.nullable(),
    {
        match self {
            Schema::Empty { .. } => true,
            Schema::Ref { nullable, .. } => *nullable,
            Schema::Type { nullable, .. } => *nullable,
            Schema::Enum { nullable, .. } => *nullable,
            Schema::Elements { nullable, .. } => *nullable,
            Schema::Properties { nullable, .. } => *nullable,
            Schema::Values { nullable, .. } => *nullable,
            Schema::Discriminator { nullable, .. } => *nullable,
        }
    }
}

/// A copy of the entries of a keyed field.
fn clone_entries(entries: &Vec<(String, Schema)>) -> (r: Vec<(String, Schema)>)
    ensures
        crate::entries::entries_view(r@) == crate::entries::entries_view(entries@),
    decreases entries, 0int,
{
    let mut out: Vec<(String, Schema)> = Vec::new();
    let mut i: usize = 0;
    while i < entries.len()
        invariant
            i <= entries.len(),
            out@.len() == i,
            forall|j: int|
                0 <= j < i ==> out@[j].0@ == entries@[j].0@ && out@[j].1@ == entries@[j].1@,
        decreases entries, 0int, entries.len() - i,
    {
        let name = entries[i].0.clone();
        let schema = entries[i].1.clone();
        out.push((name, schema));
        i = i + 1;
    }
    assert(crate::entries::entries_view(out@) =~= crate::entries::entries_view(entries@));
    out
}

impl Clone for Schema {
    /// A copy of this schema.
    fn clone(&self) -> (r: Schema)
        ensures
            r@ == self@,
        decreases self, 1int,
    {
        let definitions = clone_entries(self.definitions());
        let metadata = crate::json::clone_members(self.metadata());
        let r = match self {
            Schema::Empty { .. } => Schema::Empty { definitions, metadata },
            Schema::Ref { nullable, ref_, .. } => Schema::Ref {
                definitions,
                metadata,
                nullable: *nullable,
                ref_: ref_.clone(),
            },
            Schema::Type { nullable, type_, .. } => Schema::Type {
                definitions,
                metadata,
                nullable: *nullable,
                type_: *type_,
            },
            Schema::Enum { nullable, enum_, .. } => Schema::Enum {
                definitions,
                metadata,
                nullable: *nullable,
                enum_: crate::entries::clone_strings(enum_),
            },
            Schema::Elements { nullable, elements, .. } => Schema::Elements {
                definitions,
                metadata,
                nullable: *nullable,
                elements: Box::new((**elements).clone()),
            },
            Schema::Properties {
                nullable,
                properties,
                optional_properties,
                properties_is_present,
                additional_properties,
                ..
            } => Schema::Properties {
                definitions,
                metadata,
                nullable: *nullable,
                properties: clone_entries(properties),
                optional_properties: clone_entries(optional_properties),
                properties_is_present: *properties_is_present,
                additional_properties: *additional_properties,
            },
            Schema::Values { nullable, values, .. } => Schema::Values {
                definitions,
                metadata,
                nullable: *nullable,
                values: Box::new((**values).clone()),
            },
            Schema::Discriminator { nullable, discriminator, mapping, .. } => Schema::Discriminator {
                definitions,
                metadata,
                nullable: *nullable,
                discriminator: discriminator.clone(),
                mapping: clone_entries(mapping),
            },
        };
        proof {
            lemma_schema_view(r);
            lemma_schema_view(*self);
        }
        r
    }
}

} // verus!
