//! The loose form of a schema: a record in which every keyword is optional,
//! as it is read from and written to JSON.

use vstd::prelude::*;
use crate::json::Json;
use crate::json::JsonView;

verus! {

/// A schema as JSON spells it: each keyword is there or not, in any
/// combination. [`crate::schema::Schema::from_serde_schema`] turns one into a
/// [`crate::schema::Schema`].
#[derive(Debug, PartialEq)]
pub struct SerdeSchema {
    pub metadata: Option<Vec<(String, Json)>>,
    pub definitions: Option<Vec<(String, SerdeSchema)>>,
    pub nullable: Option<bool>,
    pub ref_: Option<String>,
    pub type_: Option<String>,
    pub enum_: Option<Vec<String>>,
    pub elements: Option<Box<SerdeSchema>>,
    pub properties: Option<Vec<(String, SerdeSchema)>>,
    pub optional_properties: Option<Vec<(String, SerdeSchema)>>,
    pub additional_properties: Option<bool>,
    pub values: Option<Box<SerdeSchema>>,
    pub discriminator: Option<String>,
    pub mapping: Option<Vec<(String, SerdeSchema)>>,
}

/// A loose schema as a mathematical value.
pub struct SerdeSchemaView {
    pub metadata: Option<Seq<(Seq<char>, JsonView)>>,
    pub definitions: Option<Seq<(Seq<char>, SerdeSchemaView)>>,
    pub nullable: Option<bool>,
    pub ref_: Option<Seq<char>>,
    pub type_: Option<Seq<char>>,
    pub enum_: Option<Seq<Seq<char>>>,
    pub elements: Option<Box<SerdeSchemaView>>,
    pub properties: Option<Seq<(Seq<char>, SerdeSchemaView)>>,
    pub optional_properties: Option<Seq<(Seq<char>, SerdeSchemaView)>>,
    pub additional_properties: Option<bool>,
    pub values: Option<Box<SerdeSchemaView>>,
    pub discriminator: Option<Seq<char>>,
    pub mapping: Option<Seq<(Seq<char>, SerdeSchemaView)>>,
}

/// The mathematical value of a loose schema.
pub open spec fn wire_view(w: SerdeSchema) -> SerdeSchemaView
    decreases w,
{
    SerdeSchemaView {
        metadata: match w.metadata {
            Some(m) => Some(crate::entries::entries_view(m@)),
            None => None,
        },
        definitions: match w.definitions {
            Some(v) => Some(
                Seq::new(
                    v@.len(),
                    |i: int|
                        if 0 <= i < v@.len() {
                            (v@[i].0@, wire_view(v@[i].1))
                        } else {
                            (Seq::empty(), SerdeSchemaView::empty())
                        },
                ),
            ),
            None => None,
        },
        nullable: w.nullable,
        ref_: match w.ref_ {
            Some(s) => Some(s@),
            None => None,
        },
        type_: match w.type_ {
            Some(s) => Some(s@),
            None => None,
        },
        enum_: match w.enum_ {
            Some(v) => Some(crate::entries::strings_view(v@)),
            None => None,
        },
        elements: match w.elements {
            Some(b) => Some(Box::new(wire_view(*b))),
            None => None,
        },
        properties: match w.properties {
            Some(v) => Some(
                Seq::new(
                    v@.len(),
                    |i: int|
                        if 0 <= i < v@.len() {
                            (v@[i].0@, wire_view(v@[i].1))
                        } else {
                            (Seq::empty(), SerdeSchemaView::empty())
                        },
                ),
            ),
            None => None,
        },
        optional_properties: match w.optional_properties {
            Some(v) => Some(
                Seq::new(
                    v@.len(),
                    |i: int|
                        if 0 <= i < v@.len() {
                            (v@[i].0@, wire_view(v@[i].1))
                        } else {
                            (Seq::empty(), SerdeSchemaView::empty())
                        },
                ),
            ),
            None => None,
        },
        additional_properties: w.additional_properties,
        values: match w.values {
            Some(b) => Some(Box::new(wire_view(*b))),
            None => None,
        },
        discriminator: match w.discriminator {
            Some(s) => Some(s@),
            None => None,
        },
        mapping: match w.mapping {
            Some(v) => Some(
                Seq::new(
                    v@.len(),
                    |i: int|
                        if 0 <= i < v@.len() {
                            (v@[i].0@, wire_view(v@[i].1))
                        } else {
                            (Seq::empty(), SerdeSchemaView::empty())
                        },
                ),
            ),
            None => None,
        },
    }
}

impl SerdeSchemaView {
    /// The loose schema without any keyword.
    pub open spec fn empty() -> SerdeSchemaView {
        SerdeSchemaView {
            metadata: None,
            definitions: None,
            nullable: None,
            ref_: None,
            type_: None,
            enum_: None,
            elements: None,
            properties: None,
            optional_properties: None,
            additional_properties: None,
            values: None,
            discriminator: None,
            mapping: None,
        }
    }
}

impl View for SerdeSchema {
    type V = SerdeSchemaView;

    open spec fn view(&self) -> SerdeSchemaView {
        wire_view(*self)
    }
}

/// The view of a keyword's entries.
pub open spec fn keyword_view(es: Option<Vec<(String, SerdeSchema)>>) -> Option<
    Seq<(Seq<char>, SerdeSchemaView)>,
> {
    match es {
        Some(v) => Some(crate::entries::entries_view(v@)),
        None => None,
    }
}

/// The view of a loose schema, keyword by keyword.
pub proof fn lemma_wire_view(w: SerdeSchema)
    ensures
        w@.definitions == keyword_view(w.definitions),
        w@.properties == keyword_view(w.properties),
        w@.optional_properties == keyword_view(w.optional_properties),
        w@.mapping == keyword_view(w.mapping),
        w@.metadata == (match w.metadata {
            Some(m) => Some(crate::entries::entries_view(m@)),
            None => None,
        }),
        w@.nullable == w.nullable,
        w@.additional_properties == w.additional_properties,
        w@.ref_ == (match w.ref_ {
            Some(s) => Some(s@),
            None => None,
        }),
        w@.type_ == (match w.type_ {
            Some(s) => Some(s@),
            None => None,
        }),
        w@.discriminator == (match w.discriminator {
            Some(s) => Some(s@),
            None => None,
        }),
        w@.enum_ == (match w.enum_ {
            Some(v) => Some(crate::entries::strings_view(v@)),
            None => None,
        }),
        w@.elements == (match w.elements {
            Some(b) => Some(Box::new((*b)@)),
            None => None,
        }),
        w@.values == (match w.values {
            Some(b) => Some(Box::new((*b)@)),
            None => None,
        }),
{
    match w.definitions {
        Some(v) => {
            assert(w@.definitions->0 =~= crate::entries::entries_view(v@));
        },
        None => {},
    }
    match w.properties {
        Some(v) => {
            assert(w@.properties->0 =~= crate::entries::entries_view(v@));
        },
        None => {},
    }
    match w.optional_properties {
        Some(v) => {
            assert(w@.optional_properties->0 =~= crate::entries::entries_view(v@));
        },
        None => {},
    }
    match w.mapping {
        Some(v) => {
            assert(w@.mapping->0 =~= crate::entries::entries_view(v@));
        },
        None => {},
    }
}

impl Default for SerdeSchema {
    /// The loose schema without any keyword.
    fn default() -> (r: SerdeSchema)
        ensures
            r@ == SerdeSchemaView::empty(),
    {
        SerdeSchema {
            metadata: None,
            definitions: None,
            nullable: None,
            ref_: None,
            type_: None,
            enum_: None,
            elements: None,
            properties: None,
            optional_properties: None,
            additional_properties: None,
            values: None,
            discriminator: None,
            mapping: None,
        }
    }
}

/// A copy of the entries of a keyword.
fn clone_keyword(es: &Option<Vec<(String, SerdeSchema)>>) -> (r: Option<Vec<(String, SerdeSchema)>>)
    ensures
        keyword_view(r) == keyword_view(*es),
    decreases es, 0int,
{
    match es {
        Some(entries) => {
            let mut out: Vec<(String, SerdeSchema)> = Vec::new();
            let mut i: usize = 0;
            while i < entries.len()
                invariant
                    i <= entries.len(),
                    out@.len() == i,
                    decreases_to!(es => entries),
                    forall|j: int|
                        0 <= j < i ==> out@[j].0@ == entries@[j].0@ && out@[j].1@
                            == entries@[j].1@,
                decreases es, 0int, entries.len() - i,
            {
                let name = entries[i].0.clone();
                let schema = entries[i].1.clone();
                out.push((name, schema));
                i = i + 1;
            }
            assert(crate::entries::entries_view(out@) =~= crate::entries::entries_view(entries@));
            Some(out)
        },
        None => None,
    }
}

/// A copy of an optional string.
fn clone_optional_string(s: &Option<String>) -> (r: Option<String>)
    ensures
        r == *s,
{
    match s {
        Some(s) => Some(s.clone()),
        None => None,
    }
}

impl Clone for SerdeSchema {
    /// A copy of this schema.
    fn clone(&self) -> (r: SerdeSchema)
        ensures
            r@ == self@,
        decreases self, 1int,
    {
        let r = SerdeSchema {
            metadata: match &self.metadata {
                Some(m) => Some(crate::json::clone_members(m)),
                None => None,
            },
            definitions: clone_keyword(&self.definitions),
            nullable: self.nullable,
            ref_: clone_optional_string(&self.ref_),
            type_: clone_optional_string(&self.type_),
            enum_: match &self.enum_ {
                Some(values) => Some(crate::entries::clone_strings(values)),
                None => None,
            },
            elements: match &self.elements {
                Some(b) => Some(Box::new((**b).clone())),
                None => None,
            },
            properties: clone_keyword(&self.properties),
            optional_properties: clone_keyword(&self.optional_properties),
            additional_properties: self.additional_properties,
            values: match &self.values {
                Some(b) => Some(Box::new((**b).clone())),
                None => None,
            },
            discriminator: clone_optional_string(&self.discriminator),
            mapping: clone_keyword(&self.mapping),
        };
        proof {
            lemma_wire_view(r);
            lemma_wire_view(*self);
        }
        r
    }
}

} // verus!
