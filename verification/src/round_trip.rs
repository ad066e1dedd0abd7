//! From a strict schema to its loose form and back, and the other way round.

use vstd::prelude::*;
use crate::entries::insert;
use crate::entries::keys;
use crate::entries::lemma_insert_above;
use crate::entries::lemma_insert_holds;
use crate::entries::lemma_insert_sorted;
use crate::entries::lemma_insert_string_above;
use crate::entries::lemma_insert_string_sorted;
use crate::entries::sorted;
use crate::form::lemma_keyword_names_its_type;
use crate::form::Form;
use crate::form::SchemaView;
use crate::serde_schema::SerdeSchemaView;
use crate::wire::entries_from_wire;
use crate::wire::entries_to_wire;
use crate::wire::enum_from_wire;
use crate::wire::from_wire;
use crate::wire::keyword_from_wire;
use crate::wire::keyword_to_wire;
use crate::wire::lemma_has_form;
use crate::wire::to_wire;
use crate::wire::FromWireError;

verus! {

/// Whether a schema is as the classifier leaves schemas: its keyed fields
/// and its enum values are sorted, and it has required properties only if
/// it was written with the keyword `properties`; and the same holds of
/// every schema within it.
pub open spec fn canonical(s: SchemaView) -> bool
    decreases s,
{
    &&& sorted(keys(s.definitions))
    &&& forall|i: int| 0 <= i < s.definitions.len() ==> canonical((#[trigger] s.definitions[i]).1)
    &&& match s.form {
        Form::Empty => true,
        Form::Ref(_) => true,
        Form::Type(_) => true,
        Form::Enum(f) => sorted(f.values),
        Form::Elements(f) => canonical(*f.schema),
        Form::Properties(f) => {
            &&& sorted(keys(f.required))
            &&& sorted(keys(f.optional))
            &&& f.has_required || f.required.len() == 0
            &&& forall|i: int| 0 <= i < f.required.len() ==> canonical((#[trigger] f.required[i]).1)
            &&& forall|i: int| 0 <= i < f.optional.len() ==> canonical((#[trigger] f.optional[i]).1)
        },
        Form::Values(f) => canonical(*f.schema),
        Form::Discriminator(f) => {
            &&& sorted(keys(f.mapping))
            &&& forall|i: int| 0 <= i < f.mapping.len() ==> canonical((#[trigger] f.mapping[i]).1)
        },
    }
}

/// Sorted enum values make the set that lists them in their order.
pub proof fn lemma_enum_of_sorted(values: Seq<Seq<char>>, n: int)
    requires
        sorted(values),
        0 <= n <= values.len(),
    ensures
        enum_from_wire(values, n) == Ok::<Seq<Seq<char>>, FromWireError>(values.take(n)),
    decreases n,
{
    if n > 0 {
        lemma_enum_of_sorted(values, n - 1);
        let before = values.take(n - 1);
        assert forall|i: int| 0 <= i < before.len() implies crate::text::str_lt(
            #[trigger] before[i],
            values[n - 1],
        ) by {
            assert(before[i] == values[i]);
        }
        lemma_insert_string_above(before, values[n - 1]);
        assert(before.push(values[n - 1]) =~= values.take(n));
    } else {
        assert(values.take(0) =~= Seq::empty());
    }
}

/// The loose forms of entries are the entries with the loose forms of
/// their schemas.
pub proof fn lemma_entries_to_wire(es: Seq<(Seq<char>, SchemaView)>, n: int)
    requires
        0 <= n <= es.len(),
    ensures
        entries_to_wire(es, n).len() == n,
        forall|j: int|
            0 <= j < n ==> #[trigger] entries_to_wire(es, n)[j] == (es[j].0, to_wire(es[j].1)),
    decreases n,
{
    if n > 0 {
        lemma_entries_to_wire(es, n - 1);
    }
}

/// The strict forms of entries that are sorted by key are the entries with
/// the strict forms of their schemas.
pub proof fn lemma_entries_of_sorted(
    es: Seq<(Seq<char>, SerdeSchemaView)>,
    to: Seq<(Seq<char>, SchemaView)>,
    n: int,
)
    requires
        sorted(keys(es)),
        0 <= n <= es.len(),
        to.len() == es.len(),
        forall|j: int|
            0 <= j < n ==> from_wire((#[trigger] es[j]).1) == Ok::<SchemaView, FromWireError>(
                to[j].1,
            ) && to[j].0 == es[j].0,
    ensures
        entries_from_wire(es, n) == Ok::<Seq<(Seq<char>, SchemaView)>, FromWireError>(to.take(n)),
    decreases n,
{
    if n > 0 {
        lemma_entries_of_sorted(es, to, n - 1);
        let before = to.take(n - 1);
        assert forall|i: int| 0 <= i < before.len() implies crate::text::str_lt(
            (#[trigger] before[i]).0,
            es[n - 1].0,
        ) by {
            assert(before[i] == to[i]);
            assert(keys(es)[i] == es[i].0);
            assert(keys(es)[n - 1] == es[n - 1].0);
        }
        lemma_insert_above(before, es[n - 1].0, to[n - 1].1);
        assert(before.push((es[n - 1].0, to[n - 1].1)) =~= to.take(n));
    } else {
        assert(to.take(0) =~= Seq::empty());
    }
}

/// The entries of a keyword come back from their loose forms.
pub proof fn lemma_keyword_round_trip(es: Seq<(Seq<char>, SchemaView)>, present: bool)
    requires
        sorted(keys(es)),
        present || es.len() == 0,
        forall|i: int| 0 <= i < es.len() ==> canonical((#[trigger] es[i]).1),
    ensures
        keyword_from_wire(keyword_to_wire(es, present)) == Ok::<
            Seq<(Seq<char>, SchemaView)>,
            FromWireError,
        >(es),
    decreases es, 1int,
{
    if present {
        let n = es.len() as int;
        let loose = entries_to_wire(es, n);
        lemma_entries_to_wire(es, n);
        assert(keys(loose) =~= keys(es));
        assert forall|j: int| 0 <= j < n implies from_wire((#[trigger] loose[j]).1) == Ok::<
            SchemaView,
            FromWireError,
        >(es[j].1) && es[j].0 == loose[j].0 by {
            lemma_round_trip(es[j].1);
        }
        lemma_entries_of_sorted(loose, es, n);
        assert(es.take(n) =~= es);
    } else {
        assert(es =~= Seq::empty());
    }
}

/// A schema comes back from its loose form: the strict form of the loose
/// form of a schema is the schema itself, where the schema is as the
/// classifier leaves schemas. Two such schemas with the same loose form are
/// therefore the same, and validate alike.
pub proof fn lemma_round_trip(s: SchemaView)
    requires
        canonical(s),
    ensures
        from_wire(to_wire(s)) == Ok::<SchemaView, FromWireError>(s),
    decreases s, 0int,
{
    let w = to_wire(s);
    lemma_has_form(w);
    lemma_keyword_round_trip(s.definitions, s.definitions.len() > 0);
    assert(keyword_to_wire(s.definitions, s.definitions.len() > 0) == w.definitions);
    let metadata = match w.metadata {
        Some(m) => m,
        None => Seq::empty(),
    };
    assert(metadata =~= s.metadata);
    match s.form {
        Form::Empty => {},
        Form::Ref(f) => {},
        Form::Type(f) => {
            lemma_keyword_names_its_type(f.type_value);
        },
        Form::Enum(f) => {
            lemma_enum_of_sorted(f.values, f.values.len() as int);
            assert(f.values.take(f.values.len() as int) =~= f.values);
        },
        Form::Elements(f) => {
            lemma_round_trip(*f.schema);
        },
        Form::Properties(f) => {
            lemma_keyword_round_trip(f.required, f.has_required);
            lemma_keyword_round_trip(f.optional, f.optional.len() > 0 || !f.has_required);
        },
        Form::Values(f) => {
            lemma_round_trip(*f.schema);
        },
        Form::Discriminator(f) => {
            lemma_keyword_round_trip(f.mapping, true);
        },
    }
}

/// A schema and the strict form of its loose form validate alike.
pub proof fn lemma_round_trip_validates_alike(
    s: SchemaView,
    instance: crate::json::JsonView,
    max_depth: nat,
    max_errors: nat,
)
    requires
        canonical(s),
    ensures
        from_wire(to_wire(s)) matches Ok(back) && crate::validate::validation(
            back,
            instance,
            max_depth,
            max_errors,
        ) == crate::validate::validation(s, instance, max_depth, max_errors),
{
    lemma_round_trip(s);
}

/// The set that the classifier makes of enum values is sorted.
pub proof fn lemma_enum_is_sorted(values: Seq<Seq<char>>, n: int)
    ensures
        enum_from_wire(values, n) matches Ok(set) ==> sorted(set),
    decreases n,
{
    if 0 < n <= values.len() {
        lemma_enum_is_sorted(values, n - 1);
        match enum_from_wire(values, n - 1) {
            Ok(set) => {
                lemma_insert_string_sorted(set, values[n - 1]);
            },
            Err(_) => {},
        }
    }
}

/// The entries that the classifier makes are sorted by key, and their
/// schemas are as the classifier leaves schemas.
pub proof fn lemma_entries_are_canonical(es: Seq<(Seq<char>, SerdeSchemaView)>, n: int)
    ensures
        entries_from_wire(es, n) matches Ok(done) ==> sorted(keys(done)) && forall|i: int|
            0 <= i < done.len() ==> canonical((#[trigger] done[i]).1),
    decreases es, n,
{
    if 0 < n <= es.len() {
        lemma_entries_are_canonical(es, n - 1);
        match entries_from_wire(es, n - 1) {
            Ok(before) => {
                lemma_from_wire_is_canonical(es[n - 1].1);
                match from_wire(es[n - 1].1) {
                    Ok(s) => {
                        let done = insert(before, es[n - 1].0, s);
                        lemma_insert_sorted(before, es[n - 1].0, s);
                        lemma_insert_holds(before, es[n - 1].0, s);
                        assert forall|i: int| 0 <= i < done.len() implies canonical(
                            (#[trigger] done[i]).1,
                        ) by {
                            if done[i] != (es[n - 1].0, s) {
                                let j = choose|j: int| 0 <= j < before.len() && before[j] == done[i];
                                assert(canonical(before[j].1));
                            }
                        }
                    },
                    Err(_) => {},
                }
            },
            Err(_) => {},
        }
    }
}

/// The entries that the classifier makes of a keyword are sorted by key,
/// and their schemas are as the classifier leaves schemas.
pub proof fn lemma_keyword_is_canonical(es: Option<Seq<(Seq<char>, SerdeSchemaView)>>)
    ensures
        keyword_from_wire(es) matches Ok(done) ==> sorted(keys(done)) && (es is None ==> done.len()
            == 0) && forall|i: int| 0 <= i < done.len() ==> canonical((#[trigger] done[i]).1),
    decreases es, 1int,
{
    match es {
        Some(es) => {
            lemma_entries_are_canonical(es, es.len() as int);
        },
        None => {},
    }
}

/// Every schema that the classifier makes is as the classifier leaves
/// schemas.
pub proof fn lemma_from_wire_is_canonical(w: SerdeSchemaView)
    ensures
        from_wire(w) matches Ok(s) ==> canonical(s),
    decreases w, 0int,
{
    lemma_keyword_is_canonical(w.definitions);
    if w.enum_ is Some {
        lemma_enum_is_sorted(w.enum_->0, w.enum_->0.len() as int);
    }
    if w.elements is Some {
        lemma_from_wire_is_canonical(*w.elements->0);
    }
    lemma_keyword_is_canonical(w.properties);
    lemma_keyword_is_canonical(w.optional_properties);
    if w.values is Some {
        lemma_from_wire_is_canonical(*w.values->0);
    }
    lemma_keyword_is_canonical(w.mapping);
}

/// Whether the entries of a keyword, if it is there, are sorted by key and
/// hold sorted schemas.
pub open spec fn sorted_keyword(es: Option<Seq<(Seq<char>, SerdeSchemaView)>>) -> bool
    decreases es, 0int,
{
    match es {
        Some(es) => sorted(keys(es)) && forall|i: int|
            0 <= i < es.len() ==> sorted_wire((#[trigger] es[i]).1),
        None => true,
    }
}

/// Whether a loose schema holds its entries sorted by key and its enum
/// values sorted, as one that was read into ordered maps and sets does; and
/// the same holds of every schema within it.
pub open spec fn sorted_wire(w: SerdeSchemaView) -> bool
    decreases w, 1int,
{
    &&& sorted_keyword(w.definitions)
    &&& sorted_keyword(w.properties)
    &&& sorted_keyword(w.optional_properties)
    &&& sorted_keyword(w.mapping)
    &&& w.enum_ matches Some(values) ==> sorted(values)
    &&& w.elements matches Some(inner) ==> sorted_wire(*inner)
    &&& w.values matches Some(inner) ==> sorted_wire(*inner)
}

/// The first `n` entries with their schemas without defaults.
pub open spec fn elided_entries(es: Seq<(Seq<char>, SerdeSchemaView)>, n: int) -> Seq<
    (Seq<char>, SerdeSchemaView),
>
    decreases es, n,
{
    if n <= 0 || n > es.len() {
        Seq::empty()
    } else {
        elided_entries(es, n - 1).push((es[n - 1].0, elided(es[n - 1].1)))
    }
}

/// A keyword with the schemas of its entries without defaults; absent where
/// it is empty, unless `keep_empty`.
pub open spec fn elided_keyword(
    es: Option<Seq<(Seq<char>, SerdeSchemaView)>>,
    keep_empty: bool,
) -> Option<Seq<(Seq<char>, SerdeSchemaView)>>
    decreases es, 0int,
{
    match es {
        Some(es) => {
            if es.len() > 0 || keep_empty {
                Some(elided_entries(es, es.len() as int))
            } else {
                None
            }
        },
        None => None,
    }
}

/// A flag that is present only where it is true.
pub open spec fn elided_flag(flag: Option<bool>) -> Option<bool> {
    if flag == Some(true) {
        Some(true)
    } else {
        None
    }
}

/// A loose schema without the keywords that say what holds anyway: empty
/// definitions and metadata; optional properties that are empty beside the
/// keyword `properties`; `nullable` and `additionalProperties` that are
/// false; and `nullable` on the empty form, which accepts `null` as it is.
/// The schemas within it are treated alike.
pub open spec fn elided(w: SerdeSchemaView) -> SerdeSchemaView
    decreases w, 1int,
{
    let is_empty_form = w.ref_ is None && w.type_ is None && w.enum_ is None && w.elements is None
        && w.properties is None && w.optional_properties is None && w.values is None
        && w.discriminator is None;
    SerdeSchemaView {
        metadata: match w.metadata {
            Some(m) => if m.len() > 0 {
                Some(m)
            } else {
                None
            },
            None => None,
        },
        definitions: elided_keyword(w.definitions, false),
        nullable: if is_empty_form {
            None
        } else {
            elided_flag(w.nullable)
        },
        ref_: w.ref_,
        type_: w.type_,
        enum_: w.enum_,
        elements: match w.elements {
            Some(inner) => Some(Box::new(elided(*inner))),
            None => None,
        },
        properties: elided_keyword(w.properties, true),
        optional_properties: elided_keyword(w.optional_properties, w.properties is None),
        additional_properties: elided_flag(w.additional_properties),
        values: match w.values {
            Some(inner) => Some(Box::new(elided(*inner))),
            None => None,
        },
        discriminator: w.discriminator,
        mapping: elided_keyword(w.mapping, true),
    }
}

/// The strict forms of sorted entries keep their keys and their order.
pub proof fn lemma_sorted_entries(es: Seq<(Seq<char>, SerdeSchemaView)>, n: int)
    requires
        sorted(keys(es)),
        0 <= n <= es.len(),
        entries_from_wire(es, n) is Ok,
    ensures
        entries_from_wire(es, n)->Ok_0.len() == n,
        forall|j: int|
            0 <= j < n ==> (#[trigger] entries_from_wire(es, n)->Ok_0[j]).0 == es[j].0 && from_wire(
                es[j].1,
            ) == Ok::<SchemaView, FromWireError>(entries_from_wire(es, n)->Ok_0[j].1),
    decreases n,
{
    if n > 0 {
        lemma_sorted_entries(es, n - 1);
        let before = entries_from_wire(es, n - 1)->Ok_0;
        let s = from_wire(es[n - 1].1)->Ok_0;
        assert forall|i: int| 0 <= i < before.len() implies crate::text::str_lt(
            (#[trigger] before[i]).0,
            es[n - 1].0,
        ) by {
            assert(keys(es)[i] == es[i].0);
            assert(keys(es)[n - 1] == es[n - 1].0);
        }
        lemma_insert_above(before, es[n - 1].0, s);
    }
}

/// The entries without defaults are the entries with their schemas without
/// defaults.
pub proof fn lemma_elided_entries(es: Seq<(Seq<char>, SerdeSchemaView)>, n: int)
    requires
        0 <= n <= es.len(),
    ensures
        elided_entries(es, n).len() == n,
        forall|j: int|
            0 <= j < n ==> #[trigger] elided_entries(es, n)[j] == (es[j].0, elided(es[j].1)),
    decreases n,
{
    if n > 0 {
        lemma_elided_entries(es, n - 1);
    }
}

/// The entries of a keyword come back from their strict forms without
/// their defaults.
pub proof fn lemma_keyword_wire_round_trip(
    es: Option<Seq<(Seq<char>, SerdeSchemaView)>>,
    keep_empty: bool,
)
    requires
        sorted_keyword(es),
        keyword_from_wire(es) is Ok,
    ensures
        keyword_to_wire(
            keyword_from_wire(es)->Ok_0,
            es is Some && (keep_empty || keyword_from_wire(es)->Ok_0.len() > 0),
        ) == elided_keyword(es, keep_empty),
        es matches Some(given) ==> keyword_from_wire(es)->Ok_0.len() == given.len(),
        es is None ==> keyword_from_wire(es)->Ok_0.len() == 0,
    decreases es, 1int,
{
    match es {
        Some(given) => {
            let n = given.len() as int;
            let done = entries_from_wire(given, n)->Ok_0;
            lemma_sorted_entries(given, n);
            lemma_entries_to_wire(done, n);
            lemma_elided_entries(given, n);
            assert forall|j: int| 0 <= j < n implies #[trigger] entries_to_wire(done, n)[j]
                == elided_entries(given, n)[j] by {
                assert(from_wire(given[j].1) == Ok::<SchemaView, FromWireError>(done[j].1));
                lemma_wire_round_trip(given[j].1);
            }
            assert(entries_to_wire(done, n) =~= elided_entries(given, n));
        },
        None => {},
    }
}

/// A loose schema comes back from its strict form without its defaults:
/// the loose form of the strict form of a loose schema is that schema
/// without the keywords that say what holds anyway, where the schema holds
/// its entries and its enum values sorted.
pub proof fn lemma_wire_round_trip(w: SerdeSchemaView)
    requires
        sorted_wire(w),
        from_wire(w) is Ok,
    ensures
        to_wire(from_wire(w)->Ok_0) == elided(w),
    decreases w, 0int,
{
    lemma_has_form(w);
    lemma_keyword_wire_round_trip(w.definitions, false);
    assert(w.properties is None ==> elided_keyword(w.properties, true) is None);
    assert(w.optional_properties is None ==> elided_keyword(
        w.optional_properties,
        w.properties is None,
    ) is None);
    assert(w.mapping is None ==> elided_keyword(w.mapping, true) is None);
    if w.ref_ is Some || w.type_ is Some {
    } else if w.enum_ is Some {
        let values = w.enum_->0;
        lemma_enum_of_sorted(values, values.len() as int);
        assert(values.take(values.len() as int) =~= values);
    } else if w.elements is Some {
        lemma_wire_round_trip(*w.elements->0);
    } else if w.properties is Some || w.optional_properties is Some {
        lemma_keyword_wire_round_trip(w.properties, true);
        lemma_keyword_wire_round_trip(w.optional_properties, w.properties is None);
    } else if w.values is Some {
        lemma_wire_round_trip(*w.values->0);
    } else if w.discriminator is Some {
        lemma_keyword_wire_round_trip(w.mapping, true);
    }
}

} // verus!
