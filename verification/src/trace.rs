//! What validation finds: the error indicators of an instance under a
//! schema, in the order in which the instance is walked.

use vstd::prelude::*;
use crate::entries::keys;
use crate::entries::lemma_position;
use crate::entries::lookup;
use crate::entries::position;
use crate::form::Form;
use crate::form::SchemaView;
use crate::json::JsonView;
use crate::primitive::accepts;
use crate::text::decimal;
use crate::validity::fits_mapping;
use crate::validity::well_formed;

verus! {

/// One finding: where in the instance, and by which part of the schema.
pub struct ErrorIndicator {
    pub instance_path: Seq<Seq<char>>,
    pub schema_path: Seq<Seq<char>>,
}

/// What a walk finds: its error indicators in order, up to the place where
/// it ran into the limit on the depth of references, if it did.
pub struct Trace {
    pub errors: Seq<ErrorIndicator>,
    pub exceeded: bool,
}

impl Trace {
    /// The walk that finds nothing.
    pub open spec fn none() -> Trace {
        Trace { errors: Seq::empty(), exceeded: false }
    }

    /// The walk that finds one error.
    pub open spec fn error(instance_path: Seq<Seq<char>>, schema_path: Seq<Seq<char>>) -> Trace {
        Trace { errors: seq![ErrorIndicator { instance_path, schema_path }], exceeded: false }
    }

    /// The walk that runs into the limit at once.
    pub open spec fn limit() -> Trace {
        Trace { errors: Seq::empty(), exceeded: true }
    }

    /// This walk, and `next` after it unless this one ran into the limit.
    pub open spec fn followed_by(self, next: Trace) -> Trace {
        if self.exceeded {
            self
        } else {
            Trace { errors: self.errors + next.errors, exceeded: next.exceeded }
        }
    }
}

/// The number of references to follow from `s` until a schema that is not
/// of the ref form, if at most `fuel` are.
pub open spec fn chain(root: SchemaView, s: SchemaView, fuel: nat) -> Option<nat>
    decreases fuel,
{
    match s.form {
        Form::Ref(f) => match lookup(root.definitions, f.definition) {
            Some(next) => {
                if fuel == 0 {
                    None
                } else {
                    match chain(root, next, (fuel - 1) as nat) {
                        Some(k) => Some(k + 1),
                        None => None,
                    }
                }
            },
            None => Some(0),
        },
        _ => Some(0),
    }
}

/// Whether following references from a definition always ends: from each
/// definition a schema that is not of the ref form is reached within as many
/// references as there are definitions, which is so exactly if the
/// references do not go round in a circle.
pub open spec fn refs_end(root: SchemaView) -> bool {
    forall|i: int|
        0 <= i < root.definitions.len() ==> chain(
            root,
            (#[trigger] root.definitions[i]).1,
            root.definitions.len(),
        ) is Some
}

/// The number of references to follow from `s` until a schema that is not
/// of the ref form.
pub open spec fn rank(root: SchemaView, s: SchemaView) -> nat {
    match chain(root, s, root.definitions.len() + 1) {
        Some(k) => k,
        None => 0,
    }
}

/// Whether `max_depth` limits the depth of references. The walk starts at
/// depth 1, so that a limit of 1 is never met.
pub open spec fn limited(max_depth: nat) -> bool {
    max_depth >= 2
}

/// How many more references may be followed at `depth`.
pub open spec fn budget(max_depth: nat, depth: nat) -> nat {
    if limited(max_depth) && depth < max_depth {
        (max_depth - depth) as nat
    } else {
        0
    }
}

/// Whether the walk of `s` under `root` is defined: the root is well-formed,
/// `s` is well-formed under it, and the walk ends, by the limit on the depth
/// or because following references always ends.
pub open spec fn admissible(root: SchemaView, max_depth: nat, s: SchemaView, depth: nat) -> bool {
    &&& root.valid()
    &&& well_formed(keys(root.definitions), s, true)
    &&& if limited(max_depth) {
        depth < max_depth
    } else {
        refs_end(root)
    }
}

/// With more fuel a chain of references has the same length.
pub proof fn lemma_chain_monotonic(root: SchemaView, s: SchemaView, fuel: nat, more: nat)
    requires
        chain(root, s, fuel) is Some,
        fuel <= more,
    ensures
        chain(root, s, more) == chain(root, s, fuel),
    decreases fuel,
{
    match s.form {
        Form::Ref(f) => match lookup(root.definitions, f.definition) {
            Some(next) => {
                lemma_chain_monotonic(root, next, (fuel - 1) as nat, (more - 1) as nat);
            },
            None => {},
        },
        _ => {},
    }
}

/// A chain of references needs no more fuel than it has references.
pub proof fn lemma_chain_fuel(root: SchemaView, s: SchemaView, fuel: nat)
    requires
        chain(root, s, fuel) is Some,
    ensures
        chain(root, s, fuel)->0 <= fuel,
        chain(root, s, chain(root, s, fuel)->0) == chain(root, s, fuel),
    decreases fuel,
{
    match s.form {
        Form::Ref(f) => match lookup(root.definitions, f.definition) {
            Some(next) => {
                lemma_chain_fuel(root, next, (fuel - 1) as nat);
            },
            None => {},
        },
        _ => {},
    }
}

/// A chain of references that ends passes no definition twice: it has no
/// more references than there are definitions beside those in `passed`,
/// which are definitions with chains at least as long.
proof fn lemma_chain_is_short(
    root: SchemaView,
    s: SchemaView,
    fuel: nat,
    most: nat,
    passed: Set<int>,
)
    requires
        chain(root, s, fuel) is Some,
        fuel <= most,
        passed.finite(),
        forall|v: int|
            passed.contains(v) ==> 0 <= v < root.definitions.len() && chain(
                root,
                (#[trigger] root.definitions[v]).1,
                most,
            ) is Some && chain(root, root.definitions[v].1, most)->0 >= chain(root, s, fuel)->0,
    ensures
        chain(root, s, fuel)->0 + passed.len() <= root.definitions.len(),
    decreases fuel,
{
    let n = root.definitions.len() as int;
    let all = vstd::set_lib::set_int_range(0, n);
    vstd::set_lib::lemma_int_range(0, n);
    assert forall|v: int| passed.contains(v) implies all.contains(v) by {
        assert(chain(root, root.definitions[v].1, most) is Some);
    }
    vstd::set_lib::lemma_len_subset(passed, all);
    match s.form {
        Form::Ref(f) => {
            lemma_position(keys(root.definitions), f.definition, 0);
            match position(keys(root.definitions), f.definition) {
                Some(i) => {
                    let next = root.definitions[i].1;
                    let k = chain(root, s, fuel)->0;
                    lemma_chain_monotonic(root, next, (fuel - 1) as nat, most);
                    assert(chain(root, next, most) == Some((k - 1) as nat));
                    assert(!passed.contains(i));
                    let more = passed.insert(i);
                    assert forall|v: int| more.contains(v) implies 0 <= v < n && chain(
                        root,
                        (#[trigger] root.definitions[v]).1,
                        most,
                    ) is Some && chain(root, root.definitions[v].1, most)->0 >= k - 1 by {
                        if v != i {
                            assert(passed.contains(v));
                        }
                    }
                    lemma_chain_is_short(root, next, (fuel - 1) as nat, most, more);
                },
                None => {},
            }
        },
        _ => {},
    }
}

/// Whether following references from `s` comes to an end.
pub open spec fn ends(root: SchemaView, s: SchemaView) -> bool {
    exists|fuel: nat| chain(root, s, fuel) is Some
}

/// Following references from a definition comes to an end within as many
/// references as there are definitions, if it comes to an end at all.
pub proof fn lemma_refs_end(root: SchemaView)
    ensures
        refs_end(root) <==> forall|i: int|
            0 <= i < root.definitions.len() ==> ends(root, (#[trigger] root.definitions[i]).1),
{
    let n = root.definitions.len();
    if forall|i: int|
        0 <= i < root.definitions.len() ==> ends(root, (#[trigger] root.definitions[i]).1) {
        assert forall|i: int| 0 <= i < root.definitions.len() implies chain(
            root,
            (#[trigger] root.definitions[i]).1,
            n,
        ) is Some by {
            let s = root.definitions[i].1;
            assert(ends(root, s));
            let fuel = choose|fuel: nat| chain(root, s, fuel) is Some;
            lemma_chain_is_short(root, s, fuel, fuel, Set::empty());
            lemma_chain_fuel(root, s, fuel);
            lemma_chain_monotonic(root, s, chain(root, s, fuel)->0, n);
        }
    }
    if refs_end(root) {
        assert forall|i: int| 0 <= i < root.definitions.len() implies ends(
            root,
            (#[trigger] root.definitions[i]).1,
        ) by {
            assert(chain(root, root.definitions[i].1, n) is Some);
        }
    }
}

/// Under a well-formed root a well-formed ref form names a definition, which
/// is well-formed and, where following references always ends, of lower
/// rank.
pub proof fn lemma_follow(root: SchemaView, s: SchemaView)
    requires
        root.valid(),
        well_formed(keys(root.definitions), s, true),
        s.form is Ref,
    ensures
        position(keys(root.definitions), s.form->Ref_0.definition) matches Some(i) && 0 <= i
            < root.definitions.len() && lookup(root.definitions, s.form->Ref_0.definition) == Some(
            root.definitions[i].1,
        ) && well_formed(keys(root.definitions), root.definitions[i].1, true) && (refs_end(root)
            ==> rank(root, root.definitions[i].1) < rank(root, s)),
{
    let names = keys(root.definitions);
    let name = s.form->Ref_0.definition;
    lemma_position(names, name, 0);
    assert(names.contains(name));
    let i = position(names, name)->0;
    let next = root.definitions[i].1;
    assert(well_formed(names, root.definitions[i].1, false));
    lemma_not_root(names, next);
    if refs_end(root) {
        let n = root.definitions.len();
        assert(chain(root, root.definitions[i].1, n) is Some);
        lemma_chain_monotonic(root, next, n, n + 1);
        assert(chain(root, s, n + 1) == Some((chain(root, next, n)->0 + 1) as nat));
    }
}

/// A schema that is well-formed elsewhere than at the root is so at the
/// root too.
pub proof fn lemma_not_root(names: Seq<Seq<char>>, s: SchemaView)
    requires
        well_formed(names, s, false),
    ensures
        well_formed(names, s, true),
{
}

/// Whether the walk of `instance` under `s` looks into no other schema:
/// the instance is `null` and `s` is nullable, or `s` is of the empty, the
/// type or the enum form.
pub open spec fn shallow(s: SchemaView, instance: JsonView) -> bool {
    ||| instance is Null && s.form.nullable()
    ||| s.form is Empty
    ||| s.form is Type
    ||| s.form is Enum
}

/// The walk of the instance under the schema `s`, which stands under `root`
/// and was reached at `depth` with the instance path `ipath` and the schema
/// path `spath`. `tag` is the discriminator under which `s` was chosen, if
/// it was chosen by one.
pub open spec fn trace(
    root: SchemaView,
    max_depth: nat,
    s: SchemaView,
    tag: Option<Seq<char>>,
    instance: JsonView,
    ipath: Seq<Seq<char>>,
    spath: Seq<Seq<char>>,
    depth: nat,
) -> Trace
    decreases budget(max_depth, depth), instance, rank(root, s), s, 1int,
{
    if instance is Null && s.form.nullable() {
        Trace::none()
    } else {
        match s.form {
            Form::Empty => Trace::none(),
            Form::Type(f) => {
                if accepts(f.type_value, instance) {
                    Trace::none()
                } else {
                    Trace::error(ipath, spath.push("type"@))
                }
            },
            Form::Enum(f) => {
                if instance is String && position(f.values, instance->String_0) is Some {
                    Trace::none()
                } else {
                    Trace::error(ipath, spath.push("enum"@))
                }
            },
            _ => descend(root, max_depth, s, tag, instance, ipath, spath, depth),
        }
    }
}

/// The walk of an instance under a schema that has other schemas to look
/// into: one of the ref, the elements, the properties, the values or the
/// discriminator form, which does not accept the instance as `null`.
pub open spec fn descend(
    root: SchemaView,
    max_depth: nat,
    s: SchemaView,
    tag: Option<Seq<char>>,
    instance: JsonView,
    ipath: Seq<Seq<char>>,
    spath: Seq<Seq<char>>,
    depth: nat,
) -> Trace
    decreases budget(max_depth, depth), instance, rank(root, s), s, 0int,
    when admissible(root, max_depth, s, depth)
    via descend_decreases
{
    match s.form {
        Form::Ref(f) => {
            if depth + 1 == max_depth {
                Trace::limit()
            } else {
                trace(
                    root,
                    max_depth,
                    lookup(root.definitions, f.definition)->0,
                    None,
                    instance,
                    ipath,
                    seq!["definitions"@, f.definition],
                    depth + 1,
                )
            }
        },
        Form::Elements(f) => match instance {
            JsonView::Array(items) => trace_elements(
                root,
                max_depth,
                *f.schema,
                items,
                0,
                ipath,
                spath.push("elements"@),
                depth,
            ),
            _ => Trace::error(ipath, spath.push("elements"@)),
        },
        Form::Properties(f) => match instance {
            JsonView::Object(members) => trace_required(
                root,
                max_depth,
                f.required,
                0,
                members,
                ipath,
                spath.push("properties"@),
                depth,
            ).followed_by(
                trace_optional(
                    root,
                    max_depth,
                    f.optional,
                    0,
                    members,
                    ipath,
                    spath.push("optionalProperties"@),
                    depth,
                ),
            ).followed_by(
                if f.additional {
                    Trace::none()
                } else {
                    trace_additional(
                        keys(members),
                        0,
                        keys(f.required),
                        keys(f.optional),
                        tag,
                        ipath,
                        spath,
                    )
                },
            ),
            _ => Trace::error(
                ipath,
                spath.push(
                    if f.has_required {
                        "properties"@
                    } else {
                        "optionalProperties"@
                    },
                ),
            ),
        },
        Form::Values(f) => match instance {
            JsonView::Object(members) => trace_values(
                root,
                max_depth,
                *f.schema,
                members,
                0,
                ipath,
                spath.push("values"@),
                depth,
            ),
            _ => Trace::error(ipath, spath.push("values"@)),
        },
        Form::Discriminator(f) => match instance {
            JsonView::Object(members) => match lookup(members, f.discriminator) {
                Some(JsonView::String(chosen)) => match position(keys(f.mapping), chosen) {
                    Some(i) => trace(
                        root,
                        max_depth,
                        f.mapping[i].1,
                        Some(f.discriminator),
                        instance,
                        ipath,
                        spath.push("mapping"@).push(chosen),
                        depth,
                    ),
                    None => Trace::error(ipath.push(f.discriminator), spath.push("mapping"@)),
                },
                Some(_) => Trace::error(
                    ipath.push(f.discriminator),
                    spath.push("discriminator"@),
                ),
                None => Trace::error(ipath, spath.push("discriminator"@)),
            },
            _ => Trace::error(ipath, spath.push("discriminator"@)),
        },
        _ => Trace::none(),
    }
}

#[via_fn]
proof fn descend_decreases(
    root: SchemaView,
    max_depth: nat,
    s: SchemaView,
    tag: Option<Seq<char>>,
    instance: JsonView,
    ipath: Seq<Seq<char>>,
    spath: Seq<Seq<char>>,
    depth: nat,
) {
    match s.form {
        Form::Ref(f) => {
            lemma_follow(root, s);
        },
        Form::Discriminator(f) => {
            match instance {
                JsonView::Object(members) => match lookup(members, f.discriminator) {
                    Some(JsonView::String(chosen)) => {
                        lemma_position(keys(f.mapping), chosen, 0);
                        match position(keys(f.mapping), chosen) {
                            Some(i) => {
                                assert(fits_mapping(f.discriminator, f.mapping[i].1));
                            },
                            None => {},
                        }
                    },
                    _ => {},
                },
                _ => {},
            }
        },
        _ => {},
    }
}

/// The walk of the elements of an array from index `start` on.
pub open spec fn trace_elements(
    root: SchemaView,
    max_depth: nat,
    s: SchemaView,
    items: Seq<JsonView>,
    start: int,
    ipath: Seq<Seq<char>>,
    spath: Seq<Seq<char>>,
    depth: nat,
) -> Trace
    decreases budget(max_depth, depth), items, items.len() - start, s, 0int,
{
    if start < 0 || start >= items.len() {
        Trace::none()
    } else {
        trace(
            root,
            max_depth,
            s,
            None,
            items[start],
            ipath.push(decimal(start as nat)),
            spath,
            depth,
        ).followed_by(trace_elements(root, max_depth, s, items, start + 1, ipath, spath, depth))
    }
}

/// The walk of the values of the members of an object from index `start`
/// on.
pub open spec fn trace_values(
    root: SchemaView,
    max_depth: nat,
    s: SchemaView,
    members: Seq<(Seq<char>, JsonView)>,
    start: int,
    ipath: Seq<Seq<char>>,
    spath: Seq<Seq<char>>,
    depth: nat,
) -> Trace
    decreases budget(max_depth, depth), members, members.len() - start, s, 0int,
{
    if start < 0 || start >= members.len() {
        Trace::none()
    } else {
        trace(
            root,
            max_depth,
            s,
            None,
            members[start].1,
            ipath.push(members[start].0),
            spath,
            depth,
        ).followed_by(trace_values(root, max_depth, s, members, start + 1, ipath, spath, depth))
    }
}

/// The walk of an object by its required properties from index `start` on:
/// a member is walked under the schema of its name, and a missing one is an
/// error.
pub open spec fn trace_required(
    root: SchemaView,
    max_depth: nat,
    required: Seq<(Seq<char>, SchemaView)>,
    start: int,
    members: Seq<(Seq<char>, JsonView)>,
    ipath: Seq<Seq<char>>,
    spath: Seq<Seq<char>>,
    depth: nat,
) -> Trace
    decreases budget(max_depth, depth), members, required.len() - start, required, 0int,
    via trace_required_decreases
{
    if start < 0 || start >= required.len() {
        Trace::none()
    } else {
        (match position(keys(members), required[start].0) {
            Some(i) => trace(
                root,
                max_depth,
                required[start].1,
                None,
                members[i].1,
                ipath.push(required[start].0),
                spath.push(required[start].0),
                depth,
            ),
            None => Trace::error(ipath, spath.push(required[start].0)),
        }).followed_by(
            trace_required(root, max_depth, required, start + 1, members, ipath, spath, depth),
        )
    }
}

#[via_fn]
proof fn trace_required_decreases(
    root: SchemaView,
    max_depth: nat,
    required: Seq<(Seq<char>, SchemaView)>,
    start: int,
    members: Seq<(Seq<char>, JsonView)>,
    ipath: Seq<Seq<char>>,
    spath: Seq<Seq<char>>,
    depth: nat,
) {
    if 0 <= start < required.len() {
        lemma_position(keys(members), required[start].0, 0);
    }
}

/// The walk of an object by its optional properties from index `start` on:
/// a member is walked under the schema of its name.
pub open spec fn trace_optional(
    root: SchemaView,
    max_depth: nat,
    optional: Seq<(Seq<char>, SchemaView)>,
    start: int,
    members: Seq<(Seq<char>, JsonView)>,
    ipath: Seq<Seq<char>>,
    spath: Seq<Seq<char>>,
    depth: nat,
) -> Trace
    decreases budget(max_depth, depth), members, optional.len() - start, optional, 0int,
    via trace_optional_decreases
{
    if start < 0 || start >= optional.len() {
        Trace::none()
    } else {
        (match position(keys(members), optional[start].0) {
            Some(i) => trace(
                root,
                max_depth,
                optional[start].1,
                None,
                members[i].1,
                ipath.push(optional[start].0),
                spath.push(optional[start].0),
                depth,
            ),
            None => Trace::none(),
        }).followed_by(
            trace_optional(root, max_depth, optional, start + 1, members, ipath, spath, depth),
        )
    }
}

#[via_fn]
proof fn trace_optional_decreases(
    root: SchemaView,
    max_depth: nat,
    optional: Seq<(Seq<char>, SchemaView)>,
    start: int,
    members: Seq<(Seq<char>, JsonView)>,
    ipath: Seq<Seq<char>>,
    spath: Seq<Seq<char>>,
    depth: nat,
) {
    if 0 <= start < optional.len() {
        lemma_position(keys(members), optional[start].0, 0);
    }
}

/// Whether a member named `name` is additional: it is not the tag, and no
/// property has its name.
pub open spec fn is_additional(
    name: Seq<char>,
    required: Seq<Seq<char>>,
    optional: Seq<Seq<char>>,
    tag: Option<Seq<char>>,
) -> bool {
    &&& tag != Some(name)
    &&& position(required, name) is None
    &&& position(optional, name) is None
}

/// The errors of the additional members of an object from index `start` on,
/// each at the member and at the schema itself.
pub open spec fn trace_additional(
    names: Seq<Seq<char>>,
    start: int,
    required: Seq<Seq<char>>,
    optional: Seq<Seq<char>>,
    tag: Option<Seq<char>>,
    ipath: Seq<Seq<char>>,
    spath: Seq<Seq<char>>,
) -> Trace
    decreases names.len() - start,
{
    if start < 0 || start >= names.len() {
        Trace::none()
    } else {
        (if is_additional(names[start], required, optional, tag) {
            Trace::error(ipath.push(names[start]), spath)
        } else {
            Trace::none()
        }).followed_by(trace_additional(names, start + 1, required, optional, tag, ipath, spath))
    }
}

/// What a validation returns for a walk: the first `max_errors` errors where
/// the walk finds that many (and `max_errors` is not 0); else the error of
/// the limit where the walk ran into it; else all the errors.
pub open spec fn outcome(t: Trace, max_errors: nat) -> Result<Seq<ErrorIndicator>, ()> {
    if max_errors > 0 && t.errors.len() >= max_errors {
        Ok(t.errors.take(max_errors as int))
    } else if t.exceeded {
        Err(())
    } else {
        Ok(t.errors)
    }
}

/// The walk of an instance under a root schema.
pub open spec fn root_trace(root: SchemaView, instance: JsonView, max_depth: nat) -> Trace {
    trace(root, max_depth, root, None, instance, Seq::empty(), Seq::empty(), 1)
}

} // verus!
