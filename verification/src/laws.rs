//! What holds of every schema and every instance.

use vstd::prelude::*;
use crate::entries::keys;
use crate::entries::lemma_position;
use crate::entries::lookup;
use crate::entries::position;
use crate::form::Form;
use crate::form::SchemaView;
use crate::json::JsonView;
use crate::text::decimal;
use crate::trace::admissible;
use crate::trace::budget;
use crate::trace::is_additional;
use crate::trace::lemma_follow;
use crate::trace::lemma_not_root;
use crate::trace::limited;
use crate::trace::rank;
use crate::trace::refs_end;
use crate::trace::root_trace;
use crate::trace::shallow;
use crate::trace::trace;
use crate::trace::trace_additional;
use crate::trace::trace_elements;
use crate::trace::trace_optional;
use crate::trace::trace_required;
use crate::trace::trace_values;
use crate::trace::ErrorIndicator;
use crate::trace::Trace;
use crate::validate::admits;
use crate::validate::validation;
use crate::validity::fits_mapping;
use crate::serde_schema::SerdeSchemaView;
use crate::validity::lemma_issue;
use crate::validity::root_issue;
use crate::validity::well_formed;
use crate::wire::from_wire;

verus! {

/// The check of a schema decides whether it is well-formed: of a schema
/// that the classifier makes, the check either finds nothing wrong, and then
/// the schema is well-formed, or it names what is wrong first, and then the
/// schema is not well-formed.
pub proof fn lemma_check_decides(w: SerdeSchemaView)
    requires
        from_wire(w) is Ok,
    ensures
        match root_issue(from_wire(w)->Ok_0) {
            None => from_wire(w)->Ok_0.valid(),
            Some(_) => !from_wire(w)->Ok_0.valid(),
        },
{
    let s = from_wire(w)->Ok_0;
    lemma_issue(keys(s.definitions), s, true);
}

/// A schema that is nullable accepts `null`: the validation of `null`
/// against it finds no error, whatever the limits and whatever the schema
/// holds. The empty form is nullable.
pub proof fn lemma_null_is_accepted(schema: SchemaView, max_depth: nat, max_errors: nat)
    requires
        schema.form.nullable(),
    ensures
        admits(schema, JsonView::Null, max_depth),
        validation(schema, JsonView::Null, max_depth, max_errors) == Ok::<Seq<ErrorIndicator>, ()>(
            Seq::empty(),
        ),
{
}

/// The one error of an instance that an enum form does not list: at the
/// instance itself, by the keyword `enum`.
pub open spec fn not_listed() -> Seq<ErrorIndicator> {
    seq![ErrorIndicator { instance_path: Seq::empty(), schema_path: seq!["enum"@] }]
}

/// A schema of the enum form accepts exactly the strings that it lists: the
/// validation of an instance against it finds no error if the instance is a
/// string among the values of the schema, and else the one error at the
/// instance itself, by the keyword `enum`; whatever the limits and whatever
/// else the schema holds. The instance `null` against a nullable schema is
/// left aside: it is accepted though it is no string.
pub proof fn lemma_enum_membership(
    schema: SchemaView,
    instance: JsonView,
    max_depth: nat,
    max_errors: nat,
)
    requires
        schema.form is Enum,
        !(instance is Null && schema.form.nullable()),
    ensures
        admits(schema, instance, max_depth),
        validation(schema, instance, max_depth, max_errors) == Ok::<Seq<ErrorIndicator>, ()>(
            if instance matches JsonView::String(s) && schema.form->Enum_0.values.contains(s) {
                Seq::empty()
            } else {
                not_listed()
            },
        ),
        validation(schema, instance, max_depth, max_errors) == Ok::<Seq<ErrorIndicator>, ()>(
            Seq::empty(),
        ) <==> (instance matches JsonView::String(s) && schema.form->Enum_0.values.contains(s)),
{
    let values = schema.form->Enum_0.values;
    if instance is String {
        lemma_position(values, instance->String_0, 0);
    }
    assert(not_listed().take(1) =~= not_listed());
    assert(not_listed().len() == 1);
}

/// Whether the tokens of `path` lead from `instance` to a value within it:
/// each token in turn is the index of an element of an array, in decimal,
/// or the name of a member of an object.
pub open spec fn resolves(instance: JsonView, path: Seq<Seq<char>>) -> bool
    decreases path.len(),
{
    if path.len() == 0 {
        true
    } else {
        match instance {
            JsonView::Array(items) => exists|i: int|
                0 <= i < items.len() && path[0] == decimal(i as nat) && resolves(
                    #[trigger] items[i],
                    path.drop_first(),
                ),
            JsonView::Object(members) => exists|i: int|
                0 <= i < members.len() && (#[trigger] members[i]).0 == path[0] && resolves(
                    members[i].1,
                    path.drop_first(),
                ),
            _ => false,
        }
    }
}

/// Whether `path` is `prefix` and then tokens that lead into `instance`.
pub open spec fn points_into(
    instance: JsonView,
    prefix: Seq<Seq<char>>,
    path: Seq<Seq<char>>,
) -> bool {
    &&& prefix.len() <= path.len()
    &&& path.take(prefix.len() as int) == prefix
    &&& resolves(instance, path.skip(prefix.len() as int))
}

/// Whether the instance path of every error of `t` is `prefix` and then
/// tokens that lead into `instance`.
pub open spec fn within(t: Trace, instance: JsonView, prefix: Seq<Seq<char>>) -> bool {
    forall|k: int|
        0 <= k < t.errors.len() ==> points_into(
            instance,
            prefix,
            (#[trigger] t.errors[k]).instance_path,
        )
}

/// The errors of two walks in a row lie where the errors of each lie.
pub proof fn lemma_within_followed_by(a: Trace, b: Trace, instance: JsonView, prefix: Seq<Seq<char>>)
    requires
        within(a, instance, prefix),
        within(b, instance, prefix),
    ensures
        within(a.followed_by(b), instance, prefix),
{
}

/// An error at the place itself lies within the instance.
pub proof fn lemma_within_here(instance: JsonView, prefix: Seq<Seq<char>>, spath: Seq<Seq<char>>)
    ensures
        within(Trace::error(prefix, spath), instance, prefix),
{
    assert(prefix.take(prefix.len() as int) =~= prefix);
}

/// A path that leads into an element or a member leads into the array or
/// the object, by one token more.
pub proof fn lemma_points_into_child(
    parent: JsonView,
    child: JsonView,
    token: Seq<char>,
    prefix: Seq<Seq<char>>,
    path: Seq<Seq<char>>,
)
    requires
        points_into(child, prefix.push(token), path),
        match parent {
            JsonView::Array(items) => exists|i: int|
                0 <= i < items.len() && token == decimal(i as nat) && #[trigger] items[i] == child,
            JsonView::Object(members) => exists|i: int|
                0 <= i < members.len() && (#[trigger] members[i]).0 == token && members[i].1
                    == child,
            _ => false,
        },
    ensures
        points_into(parent, prefix, path),
{
    let n = prefix.len() as int;
    let rest = path.skip(n);
    assert(path.take(n) =~= path.take(n + 1).take(n));
    assert(prefix.push(token).take(n) =~= prefix);
    assert(rest[0] == path.take(n + 1)[n]);
    assert(rest.drop_first() =~= path.skip(n + 1));
    match parent {
        JsonView::Array(items) => {
            let i = choose|i: int|
                0 <= i < items.len() && token == decimal(i as nat) && #[trigger] items[i] == child;
            assert(resolves(items[i], rest.drop_first()));
        },
        JsonView::Object(members) => {
            let i = choose|i: int|
                0 <= i < members.len() && (#[trigger] members[i]).0 == token && members[i].1
                    == child;
            assert(resolves(members[i].1, rest.drop_first()));
        },
        _ => {},
    }
}

/// The errors of a walk within an element or a member lie within the array
/// or the object.
pub proof fn lemma_within_child(
    t: Trace,
    parent: JsonView,
    child: JsonView,
    token: Seq<char>,
    prefix: Seq<Seq<char>>,
)
    requires
        within(t, child, prefix.push(token)),
        match parent {
            JsonView::Array(items) => exists|i: int|
                0 <= i < items.len() && token == decimal(i as nat) && #[trigger] items[i] == child,
            JsonView::Object(members) => exists|i: int|
                0 <= i < members.len() && (#[trigger] members[i]).0 == token && members[i].1
                    == child,
            _ => false,
        },
    ensures
        within(t, parent, prefix),
{
    assert forall|k: int| 0 <= k < t.errors.len() implies points_into(
        parent,
        prefix,
        (#[trigger] t.errors[k]).instance_path,
    ) by {
        lemma_points_into_child(parent, child, token, prefix, t.errors[k].instance_path);
    }
}

/// An error at a member lies within the object.
pub proof fn lemma_within_member(
    members: Seq<(Seq<char>, JsonView)>,
    i: int,
    prefix: Seq<Seq<char>>,
    spath: Seq<Seq<char>>,
)
    requires
        0 <= i < members.len(),
    ensures
        within(Trace::error(prefix.push(members[i].0), spath), JsonView::Object(members), prefix),
{
    let child = members[i].1;
    let token = members[i].0;
    lemma_within_here(child, prefix.push(token), spath);
    lemma_within_child(
        Trace::error(prefix.push(token), spath),
        JsonView::Object(members),
        child,
        token,
        prefix,
    );
}

/// Every error of a walk lies within the instance: its instance path is the
/// path at which the walk began and then tokens that lead into the instance.
pub proof fn lemma_trace_within(
    root: SchemaView,
    max_depth: nat,
    s: SchemaView,
    tag: Option<Seq<char>>,
    instance: JsonView,
    ipath: Seq<Seq<char>>,
    spath: Seq<Seq<char>>,
    depth: nat,
)
    requires
        shallow(s, instance) || admissible(root, max_depth, s, depth),
    ensures
        within(trace(root, max_depth, s, tag, instance, ipath, spath, depth), instance, ipath),
    decreases budget(max_depth, depth), instance, rank(root, s), s, 0int,
{
    let names = keys(root.definitions);
    if instance is Null && s.form.nullable() {
    } else {
        match s.form {
            Form::Empty => {},
            Form::Ref(f) => {
                lemma_follow(root, s);
                if depth + 1 != max_depth {
                    lemma_trace_within(
                        root,
                        max_depth,
                        lookup(root.definitions, f.definition)->0,
                        None,
                        instance,
                        ipath,
                        seq!["definitions"@, f.definition],
                        depth + 1,
                    );
                }
            },
            Form::Type(f) => {
                lemma_within_here(instance, ipath, spath.push("type"@));
            },
            Form::Enum(f) => {
                lemma_within_here(instance, ipath, spath.push("enum"@));
            },
            Form::Elements(f) => {
                lemma_within_here(instance, ipath, spath.push("elements"@));
                match instance {
                    JsonView::Array(items) => {
                        lemma_not_root(names, *f.schema);
                        lemma_elements_within(
                            root,
                            max_depth,
                            *f.schema,
                            items,
                            0,
                            ipath,
                            spath.push("elements"@),
                            depth,
                        );
                    },
                    _ => {},
                }
            },
            Form::Properties(f) => {
                lemma_within_here(instance, ipath, spath.push("properties"@));
                lemma_within_here(instance, ipath, spath.push("optionalProperties"@));
                match instance {
                    JsonView::Object(members) => {
                        let required = trace_required(
                            root,
                            max_depth,
                            f.required,
                            0,
                            members,
                            ipath,
                            spath.push("properties"@),
                            depth,
                        );
                        let optional = trace_optional(
                            root,
                            max_depth,
                            f.optional,
                            0,
                            members,
                            ipath,
                            spath.push("optionalProperties"@),
                            depth,
                        );
                        let additional = if f.additional {
                            Trace::none()
                        } else {
                            trace_additional(
                                keys(members),
                                0,
                                keys(f.required),
                                keys(f.optional),
                                tag,
                                ipath,
                                spath,
                            )
                        };
                        lemma_properties_within(
                            root,
                            max_depth,
                            f.required,
                            0,
                            members,
                            ipath,
                            spath.push("properties"@),
                            depth,
                            true,
                        );
                        lemma_properties_within(
                            root,
                            max_depth,
                            f.optional,
                            0,
                            members,
                            ipath,
                            spath.push("optionalProperties"@),
                            depth,
                            false,
                        );
                        lemma_additional_within(
                            members,
                            0,
                            keys(f.required),
                            keys(f.optional),
                            tag,
                            ipath,
                            spath,
                        );
                        lemma_within_followed_by(required, optional, instance, ipath);
                        lemma_within_followed_by(
                            required.followed_by(optional),
                            additional,
                            instance,
                            ipath,
                        );
                    },
                    _ => {},
                }
            },
            Form::Values(f) => {
                lemma_within_here(instance, ipath, spath.push("values"@));
                match instance {
                    JsonView::Object(members) => {
                        lemma_not_root(names, *f.schema);
                        lemma_values_within(
                            root,
                            max_depth,
                            *f.schema,
                            members,
                            0,
                            ipath,
                            spath.push("values"@),
                            depth,
                        );
                    },
                    _ => {},
                }
            },
            Form::Discriminator(f) => {
                lemma_within_here(instance, ipath, spath.push("discriminator"@));
                match instance {
                    JsonView::Object(members) => {
                        lemma_position(keys(members), f.discriminator, 0);
                        match position(keys(members), f.discriminator) {
                            Some(at) => {
                                lemma_within_member(members, at, ipath, spath.push("mapping"@));
                                lemma_within_member(
                                    members,
                                    at,
                                    ipath,
                                    spath.push("discriminator"@),
                                );
                                match members[at].1 {
                                    JsonView::String(chosen) => {
                                        lemma_position(keys(f.mapping), chosen, 0);
                                        match position(keys(f.mapping), chosen) {
                                            Some(i) => {
                                                assert(fits_mapping(
                                                    f.discriminator,
                                                    f.mapping[i].1,
                                                ));
                                                lemma_not_root(names, f.mapping[i].1);
                                                lemma_trace_within(
                                                    root,
                                                    max_depth,
                                                    f.mapping[i].1,
                                                    Some(f.discriminator),
                                                    instance,
                                                    ipath,
                                                    spath.push("mapping"@).push(chosen),
                                                    depth,
                                                );
                                            },
                                            None => {},
                                        }
                                    },
                                    _ => {},
                                }
                            },
                            None => {},
                        }
                    },
                    _ => {},
                }
            },
        }
    }
}

/// Every error of the walk of the elements of an array lies within the
/// array.
pub proof fn lemma_elements_within(
    root: SchemaView,
    max_depth: nat,
    s: SchemaView,
    items: Seq<JsonView>,
    start: int,
    ipath: Seq<Seq<char>>,
    spath: Seq<Seq<char>>,
    depth: nat,
)
    requires
        admissible(root, max_depth, s, depth),
        0 <= start,
    ensures
        within(
            trace_elements(root, max_depth, s, items, start, ipath, spath, depth),
            JsonView::Array(items),
            ipath,
        ),
    decreases budget(max_depth, depth), items, items.len() - start, s, 0int,
{
    if start < items.len() {
        let token = decimal(start as nat);
        let head = trace(root, max_depth, s, None, items[start], ipath.push(token), spath, depth);
        let rest = trace_elements(root, max_depth, s, items, start + 1, ipath, spath, depth);
        lemma_trace_within(root, max_depth, s, None, items[start], ipath.push(token), spath, depth);
        lemma_within_child(head, JsonView::Array(items), items[start], token, ipath);
        lemma_elements_within(root, max_depth, s, items, start + 1, ipath, spath, depth);
        lemma_within_followed_by(head, rest, JsonView::Array(items), ipath);
    }
}

/// Every error of the walk of the values of the members of an object lies
/// within the object.
pub proof fn lemma_values_within(
    root: SchemaView,
    max_depth: nat,
    s: SchemaView,
    members: Seq<(Seq<char>, JsonView)>,
    start: int,
    ipath: Seq<Seq<char>>,
    spath: Seq<Seq<char>>,
    depth: nat,
)
    requires
        admissible(root, max_depth, s, depth),
        0 <= start,
    ensures
        within(
            trace_values(root, max_depth, s, members, start, ipath, spath, depth),
            JsonView::Object(members),
            ipath,
        ),
    decreases budget(max_depth, depth), members, members.len() - start, s, 0int,
{
    if start < members.len() {
        let token = members[start].0;
        let child = members[start].1;
        let head = trace(root, max_depth, s, None, child, ipath.push(token), spath, depth);
        let rest = trace_values(root, max_depth, s, members, start + 1, ipath, spath, depth);
        lemma_trace_within(root, max_depth, s, None, child, ipath.push(token), spath, depth);
        lemma_within_child(head, JsonView::Object(members), child, token, ipath);
        lemma_values_within(root, max_depth, s, members, start + 1, ipath, spath, depth);
        lemma_within_followed_by(head, rest, JsonView::Object(members), ipath);
    }
}

/// Every error of the walk of an object by its required properties, and by
/// its optional ones, lies within the object.
pub proof fn lemma_properties_within(
    root: SchemaView,
    max_depth: nat,
    properties: Seq<(Seq<char>, SchemaView)>,
    start: int,
    members: Seq<(Seq<char>, JsonView)>,
    ipath: Seq<Seq<char>>,
    spath: Seq<Seq<char>>,
    depth: nat,
    required: bool,
)
    requires
        root.valid(),
        if limited(max_depth) {
            depth < max_depth
        } else {
            refs_end(root)
        },
        forall|j: int|
            0 <= j < properties.len() ==> well_formed(
                keys(root.definitions),
                (#[trigger] properties[j]).1,
                false,
            ),
        0 <= start,
    ensures
        required ==> within(
            trace_required(root, max_depth, properties, start, members, ipath, spath, depth),
            JsonView::Object(members),
            ipath,
        ),
        !required ==> within(
            trace_optional(root, max_depth, properties, start, members, ipath, spath, depth),
            JsonView::Object(members),
            ipath,
        ),
    decreases budget(max_depth, depth), members, properties.len() - start, properties, 0int,
{
    if start < properties.len() {
        let name = properties[start].0;
        let sub = properties[start].1;
        let object = JsonView::Object(members);
        lemma_position(keys(members), name, 0);
        lemma_not_root(keys(root.definitions), sub);
        lemma_properties_within(
            root,
            max_depth,
            properties,
            start + 1,
            members,
            ipath,
            spath,
            depth,
            required,
        );
        lemma_within_here(object, ipath, spath.push(name));
        let head = match position(keys(members), name) {
            Some(i) => trace(
                root,
                max_depth,
                sub,
                None,
                members[i].1,
                ipath.push(name),
                spath.push(name),
                depth,
            ),
            None => if required {
                Trace::error(ipath, spath.push(name))
            } else {
                Trace::none()
            },
        };
        match position(keys(members), name) {
            Some(i) => {
                lemma_trace_within(
                    root,
                    max_depth,
                    sub,
                    None,
                    members[i].1,
                    ipath.push(name),
                    spath.push(name),
                    depth,
                );
                lemma_within_child(head, object, members[i].1, name, ipath);
            },
            None => {},
        }
        if required {
            lemma_within_followed_by(
                head,
                trace_required(
                    root,
                    max_depth,
                    properties,
                    start + 1,
                    members,
                    ipath,
                    spath,
                    depth,
                ),
                object,
                ipath,
            );
        } else {
            lemma_within_followed_by(
                head,
                trace_optional(
                    root,
                    max_depth,
                    properties,
                    start + 1,
                    members,
                    ipath,
                    spath,
                    depth,
                ),
                object,
                ipath,
            );
        }
    }
}

/// Every error at an additional member lies within the object.
pub proof fn lemma_additional_within(
    members: Seq<(Seq<char>, JsonView)>,
    start: int,
    required: Seq<Seq<char>>,
    optional: Seq<Seq<char>>,
    tag: Option<Seq<char>>,
    ipath: Seq<Seq<char>>,
    spath: Seq<Seq<char>>,
)
    requires
        0 <= start,
    ensures
        within(
            trace_additional(keys(members), start, required, optional, tag, ipath, spath),
            JsonView::Object(members),
            ipath,
        ),
    decreases members.len() - start,
{
    if start < members.len() {
        let names = keys(members);
        let object = JsonView::Object(members);
        lemma_within_member(members, start, ipath, spath);
        lemma_additional_within(members, start + 1, required, optional, tag, ipath, spath);
        let head = if is_additional(names[start], required, optional, tag) {
            Trace::error(ipath.push(names[start]), spath)
        } else {
            Trace::none()
        };
        lemma_within_followed_by(
            head,
            trace_additional(names, start + 1, required, optional, tag, ipath, spath),
            object,
            ipath,
        );
    }
}

/// The instance path of every error that a validation returns leads into
/// the instance: token by token it names a member of an object or, in
/// decimal, the index of an element of an array.
pub proof fn lemma_instance_paths_resolve(
    schema: SchemaView,
    instance: JsonView,
    max_depth: nat,
    max_errors: nat,
)
    requires
        admits(schema, instance, max_depth),
    ensures
        validation(schema, instance, max_depth, max_errors) matches Ok(errors) ==> forall|k: int|
            0 <= k < errors.len() ==> resolves(instance, (#[trigger] errors[k]).instance_path),
{
    let t = root_trace(schema, instance, max_depth);
    lemma_trace_within(schema, max_depth, schema, None, instance, Seq::empty(), Seq::empty(), 1);
    match validation(schema, instance, max_depth, max_errors) {
        Ok(errors) => {
            assert forall|k: int| 0 <= k < errors.len() implies resolves(
                instance,
                (#[trigger] errors[k]).instance_path,
            ) by {
                assert(errors[k] == t.errors[k]);
                let path = t.errors[k].instance_path;
                assert(points_into(instance, Seq::empty(), path));
                assert(path.skip(0) =~= path);
            }
        },
        Err(_) => {},
    }
}

/// Without a limit on the depth of references no walk runs into it.
pub proof fn lemma_trace_unlimited(
    root: SchemaView,
    max_depth: nat,
    s: SchemaView,
    tag: Option<Seq<char>>,
    instance: JsonView,
    ipath: Seq<Seq<char>>,
    spath: Seq<Seq<char>>,
    depth: nat,
)
    requires
        shallow(s, instance) || admissible(root, max_depth, s, depth),
        !limited(max_depth),
        depth >= 1,
    ensures
        !trace(root, max_depth, s, tag, instance, ipath, spath, depth).exceeded,
    decreases budget(max_depth, depth), instance, rank(root, s), s, 0int,
{
    let names = keys(root.definitions);
    if instance is Null && s.form.nullable() {
    } else {
        match s.form {
            Form::Ref(f) => {
                lemma_follow(root, s);
                lemma_trace_unlimited(
                    root,
                    max_depth,
                    lookup(root.definitions, f.definition)->0,
                    None,
                    instance,
                    ipath,
                    seq!["definitions"@, f.definition],
                    depth + 1,
                );
            },
            Form::Elements(f) => match instance {
                JsonView::Array(items) => {
                    lemma_not_root(names, *f.schema);
                    lemma_elements_unlimited(
                        root,
                        max_depth,
                        *f.schema,
                        items,
                        0,
                        ipath,
                        spath.push("elements"@),
                        depth,
                    );
                },
                _ => {},
            },
            Form::Properties(f) => match instance {
                JsonView::Object(members) => {
                    lemma_properties_unlimited(
                        root,
                        max_depth,
                        f.required,
                        0,
                        members,
                        ipath,
                        spath.push("properties"@),
                        depth,
                        true,
                    );
                    lemma_properties_unlimited(
                        root,
                        max_depth,
                        f.optional,
                        0,
                        members,
                        ipath,
                        spath.push("optionalProperties"@),
                        depth,
                        false,
                    );
                    lemma_additional_unlimited(
                        keys(members),
                        0,
                        keys(f.required),
                        keys(f.optional),
                        tag,
                        ipath,
                        spath,
                    );
                },
                _ => {},
            },
            Form::Values(f) => match instance {
                JsonView::Object(members) => {
                    lemma_not_root(names, *f.schema);
                    lemma_values_unlimited(
                        root,
                        max_depth,
                        *f.schema,
                        members,
                        0,
                        ipath,
                        spath.push("values"@),
                        depth,
                    );
                },
                _ => {},
            },
            Form::Discriminator(f) => match instance {
                JsonView::Object(members) => match lookup(members, f.discriminator) {
                    Some(JsonView::String(chosen)) => {
                        lemma_position(keys(f.mapping), chosen, 0);
                        match position(keys(f.mapping), chosen) {
                            Some(i) => {
                                assert(fits_mapping(f.discriminator, f.mapping[i].1));
                                lemma_not_root(names, f.mapping[i].1);
                                lemma_trace_unlimited(
                                    root,
                                    max_depth,
                                    f.mapping[i].1,
                                    Some(f.discriminator),
                                    instance,
                                    ipath,
                                    spath.push("mapping"@).push(chosen),
                                    depth,
                                );
                            },
                            None => {},
                        }
                    },
                    _ => {},
                },
                _ => {},
            },
            _ => {},
        }
    }
}

/// Without a limit the walk of the elements of an array does not run into
/// it.
pub proof fn lemma_elements_unlimited(
    root: SchemaView,
    max_depth: nat,
    s: SchemaView,
    items: Seq<JsonView>,
    start: int,
    ipath: Seq<Seq<char>>,
    spath: Seq<Seq<char>>,
    depth: nat,
)
    requires
        admissible(root, max_depth, s, depth),
        !limited(max_depth),
        depth >= 1,
        0 <= start,
    ensures
        !trace_elements(root, max_depth, s, items, start, ipath, spath, depth).exceeded,
    decreases budget(max_depth, depth), items, items.len() - start, s, 0int,
{
    if start < items.len() {
        lemma_trace_unlimited(
            root,
            max_depth,
            s,
            None,
            items[start],
            ipath.push(decimal(start as nat)),
            spath,
            depth,
        );
        lemma_elements_unlimited(root, max_depth, s, items, start + 1, ipath, spath, depth);
    }
}

/// Without a limit the walk of the values of the members of an object does
/// not run into it.
pub proof fn lemma_values_unlimited(
    root: SchemaView,
    max_depth: nat,
    s: SchemaView,
    members: Seq<(Seq<char>, JsonView)>,
    start: int,
    ipath: Seq<Seq<char>>,
    spath: Seq<Seq<char>>,
    depth: nat,
)
    requires
        admissible(root, max_depth, s, depth),
        !limited(max_depth),
        depth >= 1,
        0 <= start,
    ensures
        !trace_values(root, max_depth, s, members, start, ipath, spath, depth).exceeded,
    decreases budget(max_depth, depth), members, members.len() - start, s, 0int,
{
    if start < members.len() {
        lemma_trace_unlimited(
            root,
            max_depth,
            s,
            None,
            members[start].1,
            ipath.push(members[start].0),
            spath,
            depth,
        );
        lemma_values_unlimited(root, max_depth, s, members, start + 1, ipath, spath, depth);
    }
}

/// Without a limit the walk of an object by its required properties, and by
/// its optional ones, does not run into it.
pub proof fn lemma_properties_unlimited(
    root: SchemaView,
    max_depth: nat,
    properties: Seq<(Seq<char>, SchemaView)>,
    start: int,
    members: Seq<(Seq<char>, JsonView)>,
    ipath: Seq<Seq<char>>,
    spath: Seq<Seq<char>>,
    depth: nat,
    required: bool,
)
    requires
        root.valid(),
        !limited(max_depth),
        refs_end(root),
        depth >= 1,
        forall|j: int|
            0 <= j < properties.len() ==> well_formed(
                keys(root.definitions),
                (#[trigger] properties[j]).1,
                false,
            ),
        0 <= start,
    ensures
        required ==> !trace_required(
            root,
            max_depth,
            properties,
            start,
            members,
            ipath,
            spath,
            depth,
        ).exceeded,
        !required ==> !trace_optional(
            root,
            max_depth,
            properties,
            start,
            members,
            ipath,
            spath,
            depth,
        ).exceeded,
    decreases budget(max_depth, depth), members, properties.len() - start, properties, 0int,
{
    if start < properties.len() {
        let name = properties[start].0;
        let sub = properties[start].1;
        lemma_position(keys(members), name, 0);
        lemma_not_root(keys(root.definitions), sub);
        match position(keys(members), name) {
            Some(i) => {
                lemma_trace_unlimited(
                    root,
                    max_depth,
                    sub,
                    None,
                    members[i].1,
                    ipath.push(name),
                    spath.push(name),
                    depth,
                );
            },
            None => {},
        }
        lemma_properties_unlimited(
            root,
            max_depth,
            properties,
            start + 1,
            members,
            ipath,
            spath,
            depth,
            required,
        );
    }
}

/// The errors at additional members never run into a limit.
pub proof fn lemma_additional_unlimited(
    names: Seq<Seq<char>>,
    start: int,
    required: Seq<Seq<char>>,
    optional: Seq<Seq<char>>,
    tag: Option<Seq<char>>,
    ipath: Seq<Seq<char>>,
    spath: Seq<Seq<char>>,
)
    requires
        0 <= start,
    ensures
        !trace_additional(names, start, required, optional, tag, ipath, spath).exceeded,
    decreases names.len() - start,
{
    if start < names.len() {
        lemma_additional_unlimited(names, start + 1, required, optional, tag, ipath, spath);
    }
}

/// A limit of 0 on the depth of references is no limit, and so is a limit
/// of 1, the root being at depth 1: the validation then never fails for the
/// depth, and returns a list of errors.
pub proof fn lemma_no_limit_is_never_met(
    schema: SchemaView,
    instance: JsonView,
    max_depth: nat,
    max_errors: nat,
)
    requires
        admits(schema, instance, max_depth),
        max_depth == 0 || max_depth == 1,
    ensures
        !root_trace(schema, instance, max_depth).exceeded,
        validation(schema, instance, max_depth, max_errors) is Ok,
{
    lemma_trace_unlimited(
        schema,
        max_depth,
        schema,
        None,
        instance,
        Seq::empty(),
        Seq::empty(),
        1,
    );
}

} // verus!
