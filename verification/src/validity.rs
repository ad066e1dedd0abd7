//! Which schemas are well-formed, and the check that says so.

use vstd::prelude::*;
use crate::entries::entry_keys;
use crate::entries::find;
use crate::entries::keys;
use crate::entries::lemma_position;
use crate::entries::position;
use crate::form::Form;
use crate::form::SchemaView;
use crate::schema::Schema;

verus! {

/// What can be wrong with a schema.
#[derive(Clone, Debug, PartialEq, Eq)]
pub enum SchemaValidateError {
    /// A ref form names a definition that the root does not have.
    NoSuchDefinition(String),
    /// A schema other than the root has definitions.
    NonRootDefinitions,
    /// An enum form lists no value.
    EmptyEnum,
    /// A name is both a required and an optional property.
    RepeatedProperty(String),
    /// A schema of a mapping is nullable.
    NullableMapping,
    /// A schema of a mapping is not of the properties form.
    NonPropertiesMapping,
    /// A schema of a mapping has the discriminator among its properties.
    RepeatedDiscriminator(String),
}

/// What can be wrong with a schema, as a mathematical value.
pub enum SchemaInvalid {
    NoSuchDefinition(Seq<char>),
    NonRootDefinitions,
    EmptyEnum,
    RepeatedProperty(Seq<char>),
    NullableMapping,
    NonPropertiesMapping,
    RepeatedDiscriminator(Seq<char>),
}

impl View for SchemaValidateError {
    type V = SchemaInvalid;

    open spec fn view(&self) -> SchemaInvalid {
        match self {
            SchemaValidateError::NoSuchDefinition(name) => SchemaInvalid::NoSuchDefinition(name@),
            SchemaValidateError::NonRootDefinitions => SchemaInvalid::NonRootDefinitions,
            SchemaValidateError::EmptyEnum => SchemaInvalid::EmptyEnum,
            SchemaValidateError::RepeatedProperty(name) => SchemaInvalid::RepeatedProperty(name@),
            SchemaValidateError::NullableMapping => SchemaInvalid::NullableMapping,
            SchemaValidateError::NonPropertiesMapping => SchemaInvalid::NonPropertiesMapping,
            SchemaValidateError::RepeatedDiscriminator(name) => SchemaInvalid::RepeatedDiscriminator(
                name@,
            ),
        }
    }
}

/// The first required property, at or after `start`, that is optional too.
pub open spec fn first_repeated(
    required: Seq<(Seq<char>, SchemaView)>,
    optional: Seq<(Seq<char>, SchemaView)>,
    start: int,
) -> Option<SchemaInvalid>
    decreases required.len() - start,
{
    if start < 0 || start >= required.len() {
        None
    } else if position(keys(optional), required[start].0) is Some {
        Some(SchemaInvalid::RepeatedProperty(required[start].0))
    } else {
        first_repeated(required, optional, start + 1)
    }
}

/// What is wrong with a schema as the schema of a mapping, apart from what
/// is wrong with it as a schema.
pub open spec fn mapping_issue(tag: Seq<char>, s: SchemaView) -> Option<SchemaInvalid> {
    match s.form {
        Form::Properties(p) => {
            if p.nullable {
                Some(SchemaInvalid::NullableMapping)
            } else if position(keys(p.required), tag) is Some || position(keys(p.optional), tag)
                is Some {
                Some(SchemaInvalid::RepeatedDiscriminator(tag))
            } else {
                None
            }
        },
        _ => Some(SchemaInvalid::NonPropertiesMapping),
    }
}

/// The first thing wrong with the schemas of the entries at or after
/// `start`, none of them being the root.
pub open spec fn first_issue(
    root: Seq<Seq<char>>,
    es: Seq<(Seq<char>, SchemaView)>,
    start: int,
) -> Option<SchemaInvalid>
    decreases es, es.len() - start,
{
    if start < 0 || start >= es.len() {
        None
    } else if issue(root, es[start].1, false) is Some {
        issue(root, es[start].1, false)
    } else {
        first_issue(root, es, start + 1)
    }
}

/// The first thing wrong with the schemas of a mapping at or after `start`:
/// for each, what is wrong with it as the schema of a mapping, then what is
/// wrong with it as a schema.
pub open spec fn first_mapping_issue(
    root: Seq<Seq<char>>,
    tag: Seq<char>,
    es: Seq<(Seq<char>, SchemaView)>,
    start: int,
) -> Option<SchemaInvalid>
    decreases es, es.len() - start,
{
    if start < 0 || start >= es.len() {
        None
    } else if mapping_issue(tag, es[start].1) is Some {
        mapping_issue(tag, es[start].1)
    } else if issue(root, es[start].1, false) is Some {
        issue(root, es[start].1, false)
    } else {
        first_mapping_issue(root, tag, es, start + 1)
    }
}

/// The first thing wrong with the schema `s`, met in this order: its having
/// definitions without being the root; its definitions, in order; its form.
/// `root` holds the names of the root's definitions.
pub open spec fn issue(root: Seq<Seq<char>>, s: SchemaView, at_root: bool) -> Option<SchemaInvalid>
    decreases s, 0int,
{
    if !at_root && s.definitions.len() > 0 {
        Some(SchemaInvalid::NonRootDefinitions)
    } else if first_issue(root, s.definitions, 0) is Some {
        first_issue(root, s.definitions, 0)
    } else {
        match s.form {
            Form::Empty => None,
            Form::Ref(f) => {
                if position(root, f.definition) is None {
                    Some(SchemaInvalid::NoSuchDefinition(f.definition))
                } else {
                    None
                }
            },
            Form::Type(_) => None,
            Form::Enum(f) => {
                if f.values.len() == 0 {
                    Some(SchemaInvalid::EmptyEnum)
                } else {
                    None
                }
            },
            Form::Elements(f) => issue(root, *f.schema, false),
            Form::Properties(f) => {
                if first_repeated(f.required, f.optional, 0) is Some {
                    first_repeated(f.required, f.optional, 0)
                } else if first_issue(root, f.required, 0) is Some {
                    first_issue(root, f.required, 0)
                } else {
                    first_issue(root, f.optional, 0)
                }
            },
            Form::Values(f) => issue(root, *f.schema, false),
            Form::Discriminator(f) => first_mapping_issue(root, f.discriminator, f.mapping, 0),
        }
    }
}

/// The first thing wrong with a root schema, if anything is.
pub open spec fn root_issue(s: SchemaView) -> Option<SchemaInvalid> {
    issue(keys(s.definitions), s, true)
}

/// Whether `s` can stand in a mapping under the discriminator `tag`: it is
/// of the properties form, not nullable, and has no property named `tag`.
pub open spec fn fits_mapping(tag: Seq<char>, s: SchemaView) -> bool {
    &&& s.form matches Form::Properties(p)
    &&& !p.nullable
    &&& !keys(p.required).contains(tag)
    &&& !keys(p.optional).contains(tag)
}

/// Whether the schema `s` is well-formed, where `root` holds the names of
/// the root's definitions: only the root has definitions; every ref form
/// names one of them; no enum form is empty; no name is both a required and
/// an optional property; every schema of a mapping fits it; and the same
/// holds of every schema within `s`.
pub open spec fn well_formed(root: Seq<Seq<char>>, s: SchemaView, at_root: bool) -> bool
    decreases s,
{
    &&& at_root || s.definitions.len() == 0
    &&& forall|i: int|
        0 <= i < s.definitions.len() ==> well_formed(root, (#[trigger] s.definitions[i]).1, false)
    &&& match s.form {
        Form::Empty => true,
        Form::Ref(f) => root.contains(f.definition),
        Form::Type(_) => true,
        Form::Enum(f) => f.values.len() > 0,
        Form::Elements(f) => well_formed(root, *f.schema, false),
        Form::Properties(f) => {
            &&& forall|i: int|
                0 <= i < f.required.len() ==> !keys(f.optional).contains(
                    (#[trigger] f.required[i]).0,
                )
            &&& forall|i: int|
                0 <= i < f.required.len() ==> well_formed(
                    root,
                    (#[trigger] f.required[i]).1,
                    false,
                )
            &&& forall|i: int|
                0 <= i < f.optional.len() ==> well_formed(
                    root,
                    (#[trigger] f.optional[i]).1,
                    false,
                )
        },
        Form::Values(f) => well_formed(root, *f.schema, false),
        Form::Discriminator(f) => forall|i: int|
            0 <= i < f.mapping.len() ==> fits_mapping(
                f.discriminator,
                (#[trigger] f.mapping[i]).1,
            ) && well_formed(root, f.mapping[i].1, false),
    }
}

impl SchemaView {
    /// Whether this schema, taken as a root, is well-formed.
    pub open spec fn valid(self) -> bool {
        well_formed(keys(self.definitions), self, true)
    }
}

/// A schema of a mapping fits it exactly if nothing is wrong with it as one.
pub proof fn lemma_fits_mapping(tag: Seq<char>, s: SchemaView)
    ensures
        mapping_issue(tag, s) is None <==> fits_mapping(tag, s),
{
    match s.form {
        Form::Properties(p) => {
            lemma_position(keys(p.required), tag, 0);
            lemma_position(keys(p.optional), tag, 0);
        },
        _ => {},
    }
}

/// No required property from `start` on is reported as repeated exactly if
/// none of them is optional too.
pub proof fn lemma_first_repeated(
    required: Seq<(Seq<char>, SchemaView)>,
    optional: Seq<(Seq<char>, SchemaView)>,
    start: int,
)
    requires
        0 <= start,
    ensures
        first_repeated(required, optional, start) is None <==> forall|i: int|
            start <= i < required.len() ==> !keys(optional).contains((#[trigger] required[i]).0),
    decreases required.len() - start,
{
    if start < required.len() {
        lemma_position(keys(optional), required[start].0, 0);
        lemma_first_repeated(required, optional, start + 1);
        if first_repeated(required, optional, start) is None {
            assert forall|i: int| start <= i < required.len() implies !keys(optional).contains(
                (#[trigger] required[i]).0,
            ) by {
                if i > start {
                }
            }
        }
    }
}

/// Nothing is wrong with the schemas of the entries from `start` on exactly
/// if each of them is well-formed.
pub proof fn lemma_first_issue(root: Seq<Seq<char>>, es: Seq<(Seq<char>, SchemaView)>, start: int)
    requires
        0 <= start,
    ensures
        first_issue(root, es, start) is None <==> forall|i: int|
            start <= i < es.len() ==> well_formed(root, (#[trigger] es[i]).1, false),
    decreases es, es.len() - start,
{
    if start < es.len() {
        lemma_issue(root, es[start].1, false);
        lemma_first_issue(root, es, start + 1);
        if first_issue(root, es, start) is None {
            assert forall|i: int| start <= i < es.len() implies well_formed(
                root,
                (#[trigger] es[i]).1,
                false,
            ) by {
                if i > start {
                }
            }
        }
    }
}

/// Nothing is wrong with the schemas of a mapping from `start` on exactly if
/// each of them fits the mapping and is well-formed.
pub proof fn lemma_first_mapping_issue(
    root: Seq<Seq<char>>,
    tag: Seq<char>,
    es: Seq<(Seq<char>, SchemaView)>,
    start: int,
)
    requires
        0 <= start,
    ensures
        first_mapping_issue(root, tag, es, start) is None <==> forall|i: int|
            start <= i < es.len() ==> fits_mapping(tag, (#[trigger] es[i]).1) && well_formed(
                root,
                es[i].1,
                false,
            ),
    decreases es, es.len() - start,
{
    if start < es.len() {
        lemma_fits_mapping(tag, es[start].1);
        lemma_issue(root, es[start].1, false);
        lemma_first_mapping_issue(root, tag, es, start + 1);
        if first_mapping_issue(root, tag, es, start) is None {
            assert forall|i: int| start <= i < es.len() implies fits_mapping(
                tag,
                (#[trigger] es[i]).1,
            ) && well_formed(root, es[i].1, false) by {
                if i > start {
                }
            }
        }
    }
}

/// The check finds nothing wrong with a schema exactly if the schema is
/// well-formed.
pub proof fn lemma_issue(root: Seq<Seq<char>>, s: SchemaView, at_root: bool)
    ensures
        issue(root, s, at_root) is None <==> well_formed(root, s, at_root),
    decreases s, 0int,
{
    lemma_first_issue(root, s.definitions, 0);
    match s.form {
        Form::Empty => {},
        Form::Ref(f) => {
            lemma_position(root, f.definition, 0);
        },
        Form::Type(_) => {},
        Form::Enum(f) => {},
        Form::Elements(f) => {
            lemma_issue(root, *f.schema, false);
        },
        Form::Properties(f) => {
            lemma_first_repeated(f.required, f.optional, 0);
            lemma_first_issue(root, f.required, 0);
            lemma_first_issue(root, f.optional, 0);
        },
        Form::Values(f) => {
            lemma_issue(root, *f.schema, false);
        },
        Form::Discriminator(f) => {
            lemma_first_mapping_issue(root, f.discriminator, f.mapping, 0);
        },
    }
}

impl Schema {
    /// Checks that this schema, taken as a root, is well-formed, and says
    /// what is wrong with it where it is not.
    pub fn validate(&self) -> (r: Result<(), SchemaValidateError>)
        ensures
            r is Ok <==> self@.valid(),
            r is Ok <==> root_issue(self@) is None,
            r matches Err(e) ==> root_issue(self@) == Some(e@),
    {
        proof {
            lemma_issue(keys(self@.definitions), self@, true);
        }
        self._validate(None)
    }

    /// Checks this schema under `root`, or as the root itself where there is
    /// none.
    fn _validate(&self, root: Option<&Schema>) -> (r: Result<(), SchemaValidateError>)
        ensures
            r is Ok <==> issue(
                keys(
                    (match root {
                        Some(s) => s@,
                        None => self@,
                    }).definitions,
                ),
                self@,
                root is None,
            ) is None,
            r matches Err(e) ==> issue(
                keys(
                    (match root {
                        Some(s) => s@,
                        None => self@,
                    }).definitions,
                ),
                self@,
                root is None,
            ) == Some(e@),
        decreases self, 1int,
    {
        let sub_root: &Schema = match root {
            Some(s) => s,
            None => self,
        };
        let ghost names = keys(sub_root@.definitions);
        let definitions = self.definitions();
        if root.is_some() && definitions.len() > 0 {
            return Err(SchemaValidateError::NonRootDefinitions);
        }
        Self::validate_entries(definitions, sub_root)?;
        match self {
            Schema::Empty { .. } => {},
            Schema::Ref { ref_, .. } => {
                let root_definitions = sub_root.definitions();
                assert(entry_keys(root_definitions@) =~= names);
                if find(root_definitions, ref_.as_str()).is_none() {
                    return Err(SchemaValidateError::NoSuchDefinition(ref_.clone()));
                }
            },
            Schema::Type { .. } => {},
            Schema::Enum { enum_, .. } => {
                if enum_.len() == 0 {
                    return Err(SchemaValidateError::EmptyEnum);
                }
            },
            Schema::Elements { elements, .. } => {
                elements._validate(Some(sub_root))?;
            },
            Schema::Properties { properties, optional_properties, .. } => {
                let ghost f = self@.form->Properties_0;
                assert(f.required =~= crate::entries::entries_view(properties@));
                assert(f.optional =~= crate::entries::entries_view(optional_properties@));
                match Self::repeated_property(properties, optional_properties) {
                    Some(i) => {
                        return Err(SchemaValidateError::RepeatedProperty(properties[i].0.clone()));
                    },
                    None => {},
                }
                Self::validate_entries(properties, sub_root)?;
                Self::validate_entries(optional_properties, sub_root)?;
            },
            Schema::Values { values, .. } => {
                values._validate(Some(sub_root))?;
            },
            Schema::Discriminator { discriminator, mapping, .. } => {
                let ghost f = self@.form->Discriminator_0;
                assert(f.mapping =~= crate::entries::entries_view(mapping@));
                Self::validate_mapping(mapping, discriminator, sub_root)?;
            },
        }
        Ok(())
    }

    /// Checks the schemas of `entries` under `root`, in order.
    fn validate_entries(entries: &Vec<(String, Schema)>, root: &Schema) -> (r: Result<
        (),
        SchemaValidateError,
    >)
        ensures
            r is Ok <==> first_issue(
                keys(root@.definitions),
                crate::entries::entries_view(entries@),
                0,
            ) is None,
            r matches Err(e) ==> first_issue(
                keys(root@.definitions),
                crate::entries::entries_view(entries@),
                0,
            ) == Some(e@),
        decreases entries, 0int,
    {
        let ghost names = keys(root@.definitions);
        let ghost es = crate::entries::entries_view(entries@);
        let mut i: usize = 0;
        while i < entries.len()
            invariant
                i <= entries.len(),
                names == keys(root@.definitions),
                es == crate::entries::entries_view(entries@),
                first_issue(names, es, 0) == first_issue(names, es, i as int),
            decreases entries, 0int, entries.len() - i,
        {
            entries[i].1._validate(Some(root))?;
            i = i + 1;
        }
        Ok(())
    }

    /// The index of the first of `properties` whose name is among
    /// `optional_properties` too.
    fn repeated_property(
        properties: &Vec<(String, Schema)>,
        optional_properties: &Vec<(String, Schema)>,
    ) -> (r: Option<usize>)
        ensures
            match r {
                Some(i) => i < properties.len() && first_repeated(
                    crate::entries::entries_view(properties@),
                    crate::entries::entries_view(optional_properties@),
                    0,
                ) == Some(SchemaInvalid::RepeatedProperty(properties[i as int].0@)),
                None => first_repeated(
                    crate::entries::entries_view(properties@),
                    crate::entries::entries_view(optional_properties@),
                    0,
                ) is None,
            },
    {
        let ghost required = crate::entries::entries_view(properties@);
        let ghost optional = crate::entries::entries_view(optional_properties@);
        let mut i: usize = 0;
        while i < properties.len()
            invariant
                i <= properties.len(),
                required == crate::entries::entries_view(properties@),
                optional == crate::entries::entries_view(optional_properties@),
                first_repeated(required, optional, 0) == first_repeated(
                    required,
                    optional,
                    i as int,
                ),
            decreases properties.len() - i,
        {
            assert(entry_keys(optional_properties@) =~= keys(optional));
            if find(optional_properties, properties[i].0.as_str()).is_some() {
                return Some(i);
            }
            i = i + 1;
        }
        None
    }

    /// Checks the schemas of a mapping under `root`, in order.
    fn validate_mapping(mapping: &Vec<(String, Schema)>, discriminator: &String, root: &Schema) -> (r:
        Result<(), SchemaValidateError>)
        ensures
            r is Ok <==> first_mapping_issue(
                keys(root@.definitions),
                discriminator@,
                crate::entries::entries_view(mapping@),
                0,
            ) is None,
            r matches Err(e) ==> first_mapping_issue(
                keys(root@.definitions),
                discriminator@,
                crate::entries::entries_view(mapping@),
                0,
            ) == Some(e@),
        decreases mapping, 0int,
    {
        let ghost names = keys(root@.definitions);
        let ghost es = crate::entries::entries_view(mapping@);
        let mut i: usize = 0;
        while i < mapping.len()
            invariant
                i <= mapping.len(),
                names == keys(root@.definitions),
                es == crate::entries::entries_view(mapping@),
                first_mapping_issue(names, discriminator@, es, 0) == first_mapping_issue(
                    names,
                    discriminator@,
                    es,
                    i as int,
                ),
            decreases mapping, 0int, mapping.len() - i,
        {
            let sub_schema = &mapping[i].1;
            match sub_schema {
                Schema::Properties { nullable, properties, optional_properties, .. } => {
                    let ghost p = sub_schema@.form->Properties_0;
                    assert(entry_keys(properties@) =~= keys(p.required));
                    assert(entry_keys(optional_properties@) =~= keys(p.optional));
                    if *nullable {
                        return Err(SchemaValidateError::NullableMapping);
                    }
                    if find(properties, discriminator.as_str()).is_some() || find(
                        optional_properties,
                        discriminator.as_str(),
                    ).is_some() {
                        return Err(
                            SchemaValidateError::RepeatedDiscriminator(discriminator.clone()),
                        );
                    }
                },
                _ => {
                    return Err(SchemaValidateError::NonPropertiesMapping);
                },
            }
            sub_schema._validate(Some(root))?;
            i = i + 1;
        }
        Ok(())
    }
}

} // verus!
