//! The walk of an instance under a schema.

use std::borrow::Cow;
use vstd::prelude::*;
use crate::entries::contains_string;
use crate::entries::entries_view;
use crate::entries::entry_keys;
use crate::entries::find;
use crate::entries::keys;
use crate::entries::lemma_position;
use crate::entries::position;
use crate::json::items_view;
use crate::json::lemma_items_view;
use crate::json::lemma_members_view;
use crate::json::Json;
use crate::schema::lemma_schema_view;
use crate::schema::Schema;
use crate::text::decimal;
use crate::text::decimal_string;
use crate::text::str_eq;
use crate::trace::admissible;
use crate::trace::budget;
use crate::trace::is_additional;
use crate::trace::lemma_follow;
use crate::trace::lemma_not_root;
use crate::trace::limited;
use crate::trace::rank;
use crate::trace::shallow;
use crate::trace::refs_end;
use crate::trace::trace;
use crate::trace::trace_additional;
use crate::trace::trace_elements;
use crate::trace::trace_optional;
use crate::trace::trace_required;
use crate::trace::trace_values;
use crate::trace::Trace;
use crate::validate::tokens_view;
use crate::validity::fits_mapping;
use crate::validity::well_formed;
use crate::vm::lemma_restore;
use crate::vm::lemma_run_followed_by;
use crate::vm::lemma_run_none;
use crate::vm::run;
use crate::vm::signal_of;
use crate::vm::Vm;
use crate::vm::VmValidateError;

verus! {

/// The discriminator under which a schema was chosen, by its view.
pub open spec fn tag_view(tag: Option<&str>) -> Option<Seq<char>> {
    match tag {
        Some(t) => Some(t@),
        None => None,
    }
}

impl<'a> Vm<'a> {
    /// Whether `self` is the state `before` after the walk `t`, which
    /// returned `r`: the errors of the walk have come to those held before,
    /// and where the walk came to its end the paths are as before.
    pub open spec fn stepped(self, before: Vm<'a>, r: Result<(), VmValidateError>, t: Trace) -> bool {
        &&& self.continues(before)
        &&& (self@.found, signal_of(r)) == run(before@.found, t, before.max_errors())
        &&& r is Ok ==> self@.ipath == before@.ipath && self@.stacks == before@.stacks
    }

    /// Walks `instance` under `schema`.
    pub fn validate(
        &mut self,
        schema: &'a Schema,
        parent_tag: Option<&'a str>,
        instance: &'a Json,
    ) -> (r: Result<(), VmValidateError>)
        requires
            old(self).inv(),
            shallow(schema@, instance@) || admissible(
                old(self).root@,
                old(self).max_depth(),
                schema@,
                old(self)@.depth(),
            ),
        ensures
            final(self).stepped(
                *old(self),
                r,
                trace(
                    old(self).root@,
                    old(self).max_depth(),
                    schema@,
                    tag_view(parent_tag),
                    instance@,
                    old(self)@.ipath,
                    old(self)@.spath(),
                    old(self)@.depth(),
                ),
            ),
        decreases
                budget(old(self).max_depth(), old(self)@.depth()),
                instance@,
                rank(old(self).root@, schema@),
                schema@,
                1int,
    {
        let ghost before = *self;
        let ghost root = self.root@;
        let ghost md = self.max_depth();
        let ghost m = self.max_errors();
        let ghost f0 = self@.found;
        let ghost ipath = self@.ipath;
        let ghost spath = self@.spath();
        let ghost depth = self@.depth();
        let ghost names = keys(root.definitions);
        proof {
            lemma_schema_view(*schema);
            lemma_run_none(f0, m);
        }
        let is_null = match instance {
            Json::Null => true,
            _ => false,
        };
        if is_null && schema.nullable() {
            return Ok(());
        }
        match schema {
            Schema::Empty { .. } => Ok(()),
            Schema::Ref { .. } => self.validate_ref(schema, parent_tag, instance),
            Schema::Type { type_, .. } => {
                proof {
                    lemma_restore(before@.stacks, "type"@);
                }
                self.push_schema_token("type");
                if !type_.accepts(instance) {
                    self.push_error()?;
                }
                self.pop_schema_token();
                Ok(())
            },
            Schema::Enum { enum_, .. } => {
                proof {
                    lemma_restore(before@.stacks, "enum"@);
                }
                self.push_schema_token("enum");
                let listed = match instance {
                    Json::String(s) => contains_string(enum_, s.as_str()),
                    _ => false,
                };
                if !listed {
                    self.push_error()?;
                }
                self.pop_schema_token();
                Ok(())
            },
            Schema::Elements { elements, .. } => {
                proof {
                    lemma_restore(before@.stacks, "elements"@);
                    lemma_not_root(names, (*elements)@);
                }
                self.push_schema_token("elements");
                match instance {
                    Json::Array(items) => {
                        proof {
                            lemma_items_view(*instance);
                        }
                        self.validate_elements(elements, items)?;
                    },
                    _ => {
                        self.push_error()?;
                    },
                }
                self.pop_schema_token();
                Ok(())
            },
            Schema::Properties {
                properties,
                optional_properties,
                properties_is_present,
                additional_properties,
                ..
            } => {
                match instance {
                    Json::Object(members) => {
                        proof {
                            lemma_members_view(*instance);
                            let f = schema@.form->Properties_0;
                            assert forall|j: int| 0 <= j < properties@.len() implies well_formed(
                                names,
                                (#[trigger] properties@[j]).1@,
                                false,
                            ) by {
                                assert(f.required[j].1 == properties@[j].1@);
                            }
                            assert forall|j: int|
                                0 <= j < optional_properties@.len() implies well_formed(
                                names,
                                (#[trigger] optional_properties@[j]).1@,
                                false,
                            ) by {
                                assert(f.optional[j].1 == optional_properties@[j].1@);
                            }
                        }
                        self.validate_properties(
                            properties,
                            optional_properties,
                            *additional_properties,
                            parent_tag,
                            members,
                        )
                    },
                    _ => {
                        proof {
                            lemma_restore(before@.stacks, "properties"@);
                            lemma_restore(before@.stacks, "optionalProperties"@);
                        }
                        self.push_schema_token(
                            if *properties_is_present {
                                "properties"
                            } else {
                                "optionalProperties"
                            },
                        );
                        self.push_error()?;
                        self.pop_schema_token();
                        Ok(())
                    },
                }
            },
            Schema::Values { values, .. } => {
                proof {
                    lemma_restore(before@.stacks, "values"@);
                    lemma_not_root(names, (*values)@);
                }
                self.push_schema_token("values");
                match instance {
                    Json::Object(members) => {
                        proof {
                            lemma_members_view(*instance);
                        }
                        self.validate_values(values, members)?;
                    },
                    _ => {
                        self.push_error()?;
                    },
                }
                self.pop_schema_token();
                Ok(())
            },
            Schema::Discriminator { .. } => self.validate_discriminator(schema, parent_tag, instance),
        }
    }

    /// Walks `instance` under a schema of the ref form that does not accept
    /// it as `null`.
    fn validate_ref(
        &mut self,
        schema: &'a Schema,
        parent_tag: Option<&'a str>,
        instance: &'a Json,
    ) -> (r: Result<(), VmValidateError>)
        requires
            old(self).inv(),
            admissible(old(self).root@, old(self).max_depth(), schema@, old(self)@.depth()),
            schema is Ref,
            !(instance@ is Null && schema@.form.nullable()),
        ensures
            final(self).stepped(
                *old(self),
                r,
                trace(
                    old(self).root@,
                    old(self).max_depth(),
                    schema@,
                    tag_view(parent_tag),
                    instance@,
                    old(self)@.ipath,
                    old(self)@.spath(),
                    old(self)@.depth(),
                ),
            ),
        decreases
                budget(old(self).max_depth(), old(self)@.depth()),
                instance@,
                rank(old(self).root@, schema@),
                schema@,
                0int,
    {
        let ghost before = *self;
        let ghost root = self.root@;
        let ghost md = self.max_depth();
        let ghost m = self.max_errors();
        let ghost f0 = self@.found;
        let ghost ipath = self@.ipath;
        let ghost spath = self@.spath();
        let ghost depth = self@.depth();
        let ghost names = keys(root.definitions);
        proof {
            lemma_schema_view(*schema);
            lemma_run_none(f0, m);
        }
        match schema {
            Schema::Ref { ref_, .. } => {
                proof {
                    lemma_follow(root, schema@);
                    lemma_restore(before@.stacks, ref_@);
                }
                let mut stack: Vec<Cow<'a, str>> = Vec::new();
                stack.push(Cow::Borrowed("definitions"));
                stack.push(Cow::Borrowed(ref_.as_str()));
                assert(tokens_view(stack@) =~= seq!["definitions"@, ref_@]);
                self.schema_tokens.push(stack);
                assert(self@.stacks =~= before@.stacks.push(seq!["definitions"@, ref_@]));
                assert(self@.found =~= f0);
                assert(self@.ipath =~= ipath);
                if self.schema_tokens.len() == self.options.max_depth_limit() {
                    assert(f0 + Trace::limit().errors =~= f0);
                    return Err(VmValidateError::MaxDepthExceeded);
                }
                let root_schema: &'a Schema = self.root;
                let definitions = root_schema.definitions();
                assert(entry_keys(definitions@) =~= names);
                let found = find(definitions, ref_.as_str());
                let i = found.unwrap();
                assert(entries_view(definitions@)[i as int].1 == definitions@[i as int].1@);
                let r = self.validate(&definitions[i].1, None, instance);
                match r {
                    Ok(()) => {
                        let ghost after = self@;
                        self.schema_tokens.pop();
                        proof {
                            assert(self@.stacks =~= after.stacks.drop_last());
                            assert(self@.found =~= after.found);
                            assert(self@.ipath =~= after.ipath);
                        }
                        Ok(())
                    },
                    Err(e) => Err(e),
                }
            },
            _ => Ok(()),
        }
    }

    /// Walks `instance` under a schema of the discriminator form that does
    /// not accept it as `null`.
    fn validate_discriminator(
        &mut self,
        schema: &'a Schema,
        parent_tag: Option<&'a str>,
        instance: &'a Json,
    ) -> (r: Result<(), VmValidateError>)
        requires
            old(self).inv(),
            admissible(old(self).root@, old(self).max_depth(), schema@, old(self)@.depth()),
            schema is Discriminator,
            !(instance@ is Null && schema@.form.nullable()),
        ensures
            final(self).stepped(
                *old(self),
                r,
                trace(
                    old(self).root@,
                    old(self).max_depth(),
                    schema@,
                    tag_view(parent_tag),
                    instance@,
                    old(self)@.ipath,
                    old(self)@.spath(),
                    old(self)@.depth(),
                ),
            ),
        decreases
                budget(old(self).max_depth(), old(self)@.depth()),
                instance@,
                rank(old(self).root@, schema@),
                schema@,
                0int,
    {
        let ghost before = *self;
        let ghost root = self.root@;
        let ghost md = self.max_depth();
        let ghost m = self.max_errors();
        let ghost f0 = self@.found;
        let ghost ipath = self@.ipath;
        let ghost spath = self@.spath();
        let ghost depth = self@.depth();
        let ghost names = keys(root.definitions);
        proof {
            lemma_schema_view(*schema);
            lemma_run_none(f0, m);
        }
        match schema {
            Schema::Discriminator { discriminator, mapping, .. } => {
                proof {
                    lemma_restore(before@.stacks, "discriminator"@);
                    lemma_restore(before@.stacks, "mapping"@);
                }
                let members = match instance {
                    Json::Object(members) => members,
                    _ => {
                        self.push_schema_token("discriminator");
                        self.push_error()?;
                        self.pop_schema_token();
                        return Ok(());
                    },
                };
                proof {
                    lemma_members_view(*instance);
                }
                let ghost ms = entries_view(members@);
                assert(entry_keys(members@) =~= keys(ms));
                let at = match find(members, discriminator.as_str()) {
                    Some(at) => at,
                    None => {
                        self.push_schema_token("discriminator");
                        self.push_error()?;
                        self.pop_schema_token();
                        return Ok(());
                    },
                };
                assert(ms[at as int] == (members@[at as int].0@, members@[at as int].1@));
                let chosen = match &members[at].1 {
                    Json::String(chosen) => chosen.as_str(),
                    _ => {
                        self.push_schema_token("discriminator");
                        self.push_instance_token(discriminator.as_str());
                        self.push_error()?;
                        self.pop_instance_token();
                        self.pop_schema_token();
                        assert(self@.ipath =~= ipath);
                        return Ok(());
                    },
                };
                let ghost mp = entries_view(mapping@);
                assert(entry_keys(mapping@) =~= keys(mp));
                match find(mapping, chosen) {
                    Some(i) => {
                        proof {
                            assert(mp[i as int] == (mapping@[i as int].0@, mapping@[i as int].1@));
                            assert(fits_mapping(discriminator@, mp[i as int].1));
                            lemma_not_root(names, mapping@[i as int].1@);
                        }
                        self.push_schema_token("mapping");
                        proof {
                            lemma_restore(self@.stacks, chosen@);
                        }
                        self.push_schema_token(chosen);
                        self.validate(&mapping[i].1, Some(discriminator.as_str()), instance)?;
                        self.pop_schema_token();
                        self.pop_schema_token();
                        Ok(())
                    },
                    None => {
                        self.push_schema_token("mapping");
                        self.push_instance_token(discriminator.as_str());
                        self.push_error()?;
                        self.pop_instance_token();
                        self.pop_schema_token();
                        assert(self@.ipath =~= ipath);
                        Ok(())
                    },
                }
            },
            _ => Ok(()),
        }
    }

    /// Walks the elements of an array under `elements`.
    fn validate_elements(&mut self, elements: &'a Schema, items: &'a Vec<Json>) -> (r: Result<
        (),
        VmValidateError,
    >)
        requires
            old(self).inv(),
            admissible(old(self).root@, old(self).max_depth(), elements@, old(self)@.depth()),
        ensures
            final(self).stepped(
                *old(self),
                r,
                trace_elements(
                    old(self).root@,
                    old(self).max_depth(),
                    elements@,
                    items_view(items@),
                    0,
                    old(self)@.ipath,
                    old(self)@.spath(),
                    old(self)@.depth(),
                ),
            ),
        decreases
                budget(old(self).max_depth(), old(self)@.depth()),
                items_view(items@),
                items@.len(),
                elements@,
                0int,
    {
        let ghost before = *self;
        let ghost root = self.root@;
        let ghost md = self.max_depth();
        let ghost m = self.max_errors();
        let ghost ipath = self@.ipath;
        let ghost spath = self@.spath();
        let ghost depth = self@.depth();
        let ghost all = items_view(items@);
        let mut i: usize = 0;
        while i < items.len()
            invariant
                i <= items.len(),
                before == *old(self),
                before.inv(),
                self.inv(),
                self.continues(before),
                root == before.root@,
                md == before.max_depth(),
                m == before.max_errors(),
                ipath == before@.ipath,
                spath == before@.spath(),
                depth == before@.depth(),
                all == items_view(items@),
                admissible(root, md, elements@, depth),
                self@.ipath == ipath,
                self@.stacks == before@.stacks,
                run(
                    before@.found,
                    trace_elements(root, md, elements@, all, 0, ipath, spath, depth),
                    m,
                ) == run(
                    self@.found,
                    trace_elements(root, md, elements@, all, i as int, ipath, spath, depth),
                    m,
                ),
            decreases items.len() - i,
        {
            let ghost head = trace(
                root,
                md,
                elements@,
                None,
                all[i as int],
                ipath.push(decimal(i as nat)),
                spath,
                depth,
            );
            let ghost rest = trace_elements(
                root,
                md,
                elements@,
                all,
                i as int + 1,
                ipath,
                spath,
                depth,
            );
            proof {
                lemma_run_followed_by(self@.found, head, rest, m);
                assert(all[i as int] == items@[i as int]@);
                assert(trace_elements(root, md, elements@, all, i as int, ipath, spath, depth)
                    == head.followed_by(rest));
                assert(decreases_to!(all => all[i as int]));
            }
            let ghost here = self@;
            self.instance_tokens.push(Cow::Owned(decimal_string(i)));
            assert(self@.ipath =~= ipath.push(decimal(i as nat)));
            assert(self@.stacks =~= here.stacks);
            assert(self@.found =~= here.found);
            self.validate(elements, None, &items[i])?;
            self.pop_instance_token();
            assert(self@.ipath =~= ipath);
            i = i + 1;
        }
        proof {
            lemma_run_none(self@.found, m);
        }
        Ok(())
    }

    /// Walks the values of the members of an object under `values`.
    fn validate_values(&mut self, values: &'a Schema, members: &'a Vec<(String, Json)>) -> (r:
        Result<(), VmValidateError>)
        requires
            old(self).inv(),
            admissible(old(self).root@, old(self).max_depth(), values@, old(self)@.depth()),
        ensures
            final(self).stepped(
                *old(self),
                r,
                trace_values(
                    old(self).root@,
                    old(self).max_depth(),
                    values@,
                    entries_view(members@),
                    0,
                    old(self)@.ipath,
                    old(self)@.spath(),
                    old(self)@.depth(),
                ),
            ),
        decreases
                budget(old(self).max_depth(), old(self)@.depth()),
                entries_view(members@),
                members@.len(),
                values@,
                0int,
    {
        let ghost before = *self;
        let ghost root = self.root@;
        let ghost md = self.max_depth();
        let ghost m = self.max_errors();
        let ghost ipath = self@.ipath;
        let ghost spath = self@.spath();
        let ghost depth = self@.depth();
        let ghost all = entries_view(members@);
        let mut i: usize = 0;
        while i < members.len()
            invariant
                i <= members.len(),
                before == *old(self),
                before.inv(),
                self.inv(),
                self.continues(before),
                root == before.root@,
                md == before.max_depth(),
                m == before.max_errors(),
                ipath == before@.ipath,
                spath == before@.spath(),
                depth == before@.depth(),
                all == entries_view(members@),
                admissible(root, md, values@, depth),
                self@.ipath == ipath,
                self@.stacks == before@.stacks,
                run(
                    before@.found,
                    trace_values(root, md, values@, all, 0, ipath, spath, depth),
                    m,
                ) == run(
                    self@.found,
                    trace_values(root, md, values@, all, i as int, ipath, spath, depth),
                    m,
                ),
            decreases members.len() - i,
        {
            let ghost head = trace(
                root,
                md,
                values@,
                None,
                all[i as int].1,
                ipath.push(all[i as int].0),
                spath,
                depth,
            );
            let ghost rest = trace_values(root, md, values@, all, i as int + 1, ipath, spath, depth);
            proof {
                lemma_run_followed_by(self@.found, head, rest, m);
                assert(all[i as int] == (members@[i as int].0@, members@[i as int].1@));
                assert(trace_values(root, md, values@, all, i as int, ipath, spath, depth)
                    == head.followed_by(rest));
                assert(decreases_to!(all => all[i as int].1));
            }
            self.push_instance_token(members[i].0.as_str());
            self.validate(values, None, &members[i].1)?;
            self.pop_instance_token();
            assert(self@.ipath =~= ipath);
            i = i + 1;
        }
        proof {
            lemma_run_none(self@.found, m);
        }
        Ok(())
    }

    /// Walks an object under the properties form: its required properties,
    /// its optional properties, then its additional members.
    fn validate_properties(
        &mut self,
        properties: &'a Vec<(String, Schema)>,
        optional_properties: &'a Vec<(String, Schema)>,
        additional_properties: bool,
        parent_tag: Option<&'a str>,
        members: &'a Vec<(String, Json)>,
    ) -> (r: Result<(), VmValidateError>)
        requires
            old(self).inv(),
            old(self).root@.valid(),
            !limited(old(self).max_depth()) ==> refs_end(old(self).root@),
            forall|j: int|
                0 <= j < properties@.len() ==> well_formed(
                    keys(old(self).root@.definitions),
                    (#[trigger] properties@[j]).1@,
                    false,
                ),
            forall|j: int|
                0 <= j < optional_properties@.len() ==> well_formed(
                    keys(old(self).root@.definitions),
                    (#[trigger] optional_properties@[j]).1@,
                    false,
                ),
        ensures
            final(self).stepped(
                *old(self),
                r,
                trace_required(
                    old(self).root@,
                    old(self).max_depth(),
                    entries_view(properties@),
                    0,
                    entries_view(members@),
                    old(self)@.ipath,
                    old(self)@.spath().push("properties"@),
                    old(self)@.depth(),
                ).followed_by(
                    trace_optional(
                        old(self).root@,
                        old(self).max_depth(),
                        entries_view(optional_properties@),
                        0,
                        entries_view(members@),
                        old(self)@.ipath,
                        old(self)@.spath().push("optionalProperties"@),
                        old(self)@.depth(),
                    ),
                ).followed_by(
                    if additional_properties {
                        Trace::none()
                    } else {
                        trace_additional(
                            keys(entries_view(members@)),
                            0,
                            keys(entries_view(properties@)),
                            keys(entries_view(optional_properties@)),
                            tag_view(parent_tag),
                            old(self)@.ipath,
                            old(self)@.spath(),
                        )
                    },
                ),
            ),
        decreases
                budget(old(self).max_depth(), old(self)@.depth()),
                entries_view(members@),
                members@.len() + 1,
                entries_view(properties@),
                1int,
    {
        let ghost before = *self;
        let ghost root = self.root@;
        let ghost md = self.max_depth();
        let ghost m = self.max_errors();
        let ghost ipath = self@.ipath;
        let ghost spath = self@.spath();
        let ghost depth = self@.depth();
        let ghost ms = entries_view(members@);
        let ghost required = trace_required(
            root,
            md,
            entries_view(properties@),
            0,
            ms,
            ipath,
            spath.push("properties"@),
            depth,
        );
        let ghost optional = trace_optional(
            root,
            md,
            entries_view(optional_properties@),
            0,
            ms,
            ipath,
            spath.push("optionalProperties"@),
            depth,
        );
        let ghost additional = if additional_properties {
            Trace::none()
        } else {
            trace_additional(
                keys(ms),
                0,
                keys(entries_view(properties@)),
                keys(entries_view(optional_properties@)),
                tag_view(parent_tag),
                ipath,
                spath,
            )
        };
        proof {
            lemma_run_followed_by(before@.found, required.followed_by(optional), additional, m);
            lemma_run_followed_by(before@.found, required, optional, m);
        }
        proof {
            lemma_restore(before@.stacks, "properties"@);
            lemma_restore(before@.stacks, "optionalProperties"@);
        }
        self.push_schema_token("properties");
        self.validate_required(properties, members)?;
        self.pop_schema_token();
        self.push_schema_token("optionalProperties");
        self.validate_optional(optional_properties, members)?;
        self.pop_schema_token();
        if !additional_properties {
            self.validate_additional(members, properties, optional_properties, parent_tag)?;
        } else {
            proof {
                lemma_run_none(self@.found, m);
            }
        }
        Ok(())
    }

    /// Walks an object by its required properties.
    fn validate_required(
        &mut self,
        properties: &'a Vec<(String, Schema)>,
        members: &'a Vec<(String, Json)>,
    ) -> (r: Result<(), VmValidateError>)
        requires
            old(self).inv(),
            old(self).root@.valid(),
            !limited(old(self).max_depth()) ==> refs_end(old(self).root@),
            forall|j: int|
                0 <= j < properties@.len() ==> well_formed(
                    keys(old(self).root@.definitions),
                    (#[trigger] properties@[j]).1@,
                    false,
                ),
        ensures
            final(self).stepped(
                *old(self),
                r,
                trace_required(
                    old(self).root@,
                    old(self).max_depth(),
                    entries_view(properties@),
                    0,
                    entries_view(members@),
                    old(self)@.ipath,
                    old(self)@.spath(),
                    old(self)@.depth(),
                ),
            ),
        decreases
                budget(old(self).max_depth(), old(self)@.depth()),
                entries_view(members@),
                members@.len(),
                entries_view(properties@),
                0int,
    {
        let ghost before = *self;
        let ghost root = self.root@;
        let ghost md = self.max_depth();
        let ghost m = self.max_errors();
        let ghost ipath = self@.ipath;
        let ghost spath = self@.spath();
        let ghost depth = self@.depth();
        let ghost ms = entries_view(members@);
        let ghost ps = entries_view(properties@);
        let mut i: usize = 0;
        while i < properties.len()
            invariant
                i <= properties.len(),
                before == *old(self),
                before.inv(),
                self.inv(),
                self.continues(before),
                root == before.root@,
                root.valid(),
                !limited(md) ==> refs_end(root),
                md == before.max_depth(),
                m == before.max_errors(),
                ipath == before@.ipath,
                spath == before@.spath(),
                depth == before@.depth(),
                ms == entries_view(members@),
                ps == entries_view(properties@),
                forall|j: int|
                    0 <= j < properties@.len() ==> well_formed(
                        keys(root.definitions),
                        (#[trigger] properties@[j]).1@,
                        false,
                    ),
                self@.ipath == ipath,
                self@.stacks == before@.stacks,
                run(before@.found, trace_required(root, md, ps, 0, ms, ipath, spath, depth), m)
                    == run(
                    self@.found,
                    trace_required(root, md, ps, i as int, ms, ipath, spath, depth),
                    m,
                ),
            decreases properties.len() - i,
        {
            let name = properties[i].0.as_str();
            let sub_schema = &properties[i].1;
            let ghost head = match position(keys(ms), name@) {
                Some(at) => trace(
                    root,
                    md,
                    sub_schema@,
                    None,
                    ms[at].1,
                    ipath.push(name@),
                    spath.push(name@),
                    depth,
                ),
                None => Trace::error(ipath, spath.push(name@)),
            };
            let ghost rest = trace_required(root, md, ps, i as int + 1, ms, ipath, spath, depth);
            proof {
                lemma_run_followed_by(self@.found, head, rest, m);
                assert(properties@[i as int].1@ == sub_schema@);
                lemma_not_root(keys(root.definitions), sub_schema@);
                lemma_position(keys(ms), name@, 0);
                assert(entry_keys(members@) =~= keys(ms));
                assert(ps[i as int] == (name@, sub_schema@));
                assert(trace_required(root, md, ps, i as int, ms, ipath, spath, depth)
                    == head.followed_by(rest));
                lemma_restore(before@.stacks, name@);
            }
            self.push_schema_token(name);
            match find(members, name) {
                Some(at) => {
                    proof {
                        assert(ms[at as int] == (members@[at as int].0@, members@[at as int].1@));
                        assert(decreases_to!(ms => ms[at as int].1));
                    }
                    self.push_instance_token(name);
                    self.validate(sub_schema, None, &members[at].1)?;
                    self.pop_instance_token();
                    assert(self@.ipath =~= ipath);
                },
                None => {
                    self.push_error()?;
                },
            }
            self.pop_schema_token();
            i = i + 1;
        }
        proof {
            lemma_run_none(self@.found, m);
        }
        Ok(())
    }

    /// Walks an object by its optional properties.
    fn validate_optional(
        &mut self,
        properties: &'a Vec<(String, Schema)>,
        members: &'a Vec<(String, Json)>,
    ) -> (r: Result<(), VmValidateError>)
        requires
            old(self).inv(),
            old(self).root@.valid(),
            !limited(old(self).max_depth()) ==> refs_end(old(self).root@),
            forall|j: int|
                0 <= j < properties@.len() ==> well_formed(
                    keys(old(self).root@.definitions),
                    (#[trigger] properties@[j]).1@,
                    false,
                ),
        ensures
            final(self).stepped(
                *old(self),
                r,
                trace_optional(
                    old(self).root@,
                    old(self).max_depth(),
                    entries_view(properties@),
                    0,
                    entries_view(members@),
                    old(self)@.ipath,
                    old(self)@.spath(),
                    old(self)@.depth(),
                ),
            ),
        decreases
                budget(old(self).max_depth(), old(self)@.depth()),
                entries_view(members@),
                members@.len(),
                entries_view(properties@),
                0int,
    {
        let ghost before = *self;
        let ghost root = self.root@;
        let ghost md = self.max_depth();
        let ghost m = self.max_errors();
        let ghost ipath = self@.ipath;
        let ghost spath = self@.spath();
        let ghost depth = self@.depth();
        let ghost ms = entries_view(members@);
        let ghost ps = entries_view(properties@);
        let mut i: usize = 0;
        while i < properties.len()
            invariant
                i <= properties.len(),
                before == *old(self),
                before.inv(),
                self.inv(),
                self.continues(before),
                root == before.root@,
                root.valid(),
                !limited(md) ==> refs_end(root),
                md == before.max_depth(),
                m == before.max_errors(),
                ipath == before@.ipath,
                spath == before@.spath(),
                depth == before@.depth(),
                ms == entries_view(members@),
                ps == entries_view(properties@),
                forall|j: int|
                    0 <= j < properties@.len() ==> well_formed(
                        keys(root.definitions),
                        (#[trigger] properties@[j]).1@,
                        false,
                    ),
                self@.ipath == ipath,
                self@.stacks == before@.stacks,
                run(before@.found, trace_optional(root, md, ps, 0, ms, ipath, spath, depth), m)
                    == run(
                    self@.found,
                    trace_optional(root, md, ps, i as int, ms, ipath, spath, depth),
                    m,
                ),
            decreases properties.len() - i,
        {
            let name = properties[i].0.as_str();
            let sub_schema = &properties[i].1;
            let ghost head = match position(keys(ms), name@) {
                Some(at) => trace(
                    root,
                    md,
                    sub_schema@,
                    None,
                    ms[at].1,
                    ipath.push(name@),
                    spath.push(name@),
                    depth,
                ),
                None => Trace::none(),
            };
            let ghost rest = trace_optional(root, md, ps, i as int + 1, ms, ipath, spath, depth);
            proof {
                lemma_run_followed_by(self@.found, head, rest, m);
                lemma_run_none(self@.found, m);
                assert(properties@[i as int].1@ == sub_schema@);
                lemma_not_root(keys(root.definitions), sub_schema@);
                lemma_position(keys(ms), name@, 0);
                assert(entry_keys(members@) =~= keys(ms));
                assert(ps[i as int] == (name@, sub_schema@));
                assert(trace_optional(root, md, ps, i as int, ms, ipath, spath, depth)
                    == head.followed_by(rest));
                lemma_restore(before@.stacks, name@);
            }
            self.push_schema_token(name);
            match find(members, name) {
                Some(at) => {
                    proof {
                        assert(ms[at as int] == (members@[at as int].0@, members@[at as int].1@));
                        assert(decreases_to!(ms => ms[at as int].1));
                    }
                    self.push_instance_token(name);
                    self.validate(sub_schema, None, &members[at].1)?;
                    self.pop_instance_token();
                    assert(self@.ipath =~= ipath);
                },
                None => {},
            }
            self.pop_schema_token();
            i = i + 1;
        }
        proof {
            lemma_run_none(self@.found, m);
        }
        Ok(())
    }

    /// Holds each additional member of an object as an error.
    fn validate_additional(
        &mut self,
        members: &'a Vec<(String, Json)>,
        properties: &'a Vec<(String, Schema)>,
        optional_properties: &'a Vec<(String, Schema)>,
        parent_tag: Option<&'a str>,
    ) -> (r: Result<(), VmValidateError>)
        requires
            old(self).inv(),
        ensures
            final(self).stepped(
                *old(self),
                r,
                trace_additional(
                    keys(entries_view(members@)),
                    0,
                    keys(entries_view(properties@)),
                    keys(entries_view(optional_properties@)),
                    tag_view(parent_tag),
                    old(self)@.ipath,
                    old(self)@.spath(),
                ),
            ),
    {
        let ghost before = *self;
        let ghost m = self.max_errors();
        let ghost ipath = self@.ipath;
        let ghost spath = self@.spath();
        let ghost names = keys(entries_view(members@));
        let ghost required = keys(entries_view(properties@));
        let ghost optional = keys(entries_view(optional_properties@));
        let ghost tag = tag_view(parent_tag);
        assert(entry_keys(members@) =~= names);
        assert(entry_keys(properties@) =~= required);
        assert(entry_keys(optional_properties@) =~= optional);
        let mut i: usize = 0;
        while i < members.len()
            invariant
                i <= members.len(),
                before == *old(self),
                before.inv(),
                self.inv(),
                self.continues(before),
                m == before.max_errors(),
                ipath == before@.ipath,
                spath == before@.spath(),
                names == entry_keys(members@),
                required == entry_keys(properties@),
                optional == entry_keys(optional_properties@),
                names == keys(entries_view(members@)),
                required == keys(entries_view(properties@)),
                optional == keys(entries_view(optional_properties@)),
                tag == tag_view(parent_tag),
                self@.ipath == ipath,
                self@.stacks == before@.stacks,
                run(
                    before@.found,
                    trace_additional(names, 0, required, optional, tag, ipath, spath),
                    m,
                ) == run(
                    self@.found,
                    trace_additional(names, i as int, required, optional, tag, ipath, spath),
                    m,
                ),
            decreases members.len() - i,
        {
            let name = members[i].0.as_str();
            let ghost head = if is_additional(name@, required, optional, tag) {
                Trace::error(ipath.push(name@), spath)
            } else {
                Trace::none()
            };
            let ghost rest = trace_additional(
                names,
                i as int + 1,
                required,
                optional,
                tag,
                ipath,
                spath,
            );
            proof {
                lemma_run_followed_by(self@.found, head, rest, m);
                lemma_run_none(self@.found, m);
                assert(names[i as int] == name@);
                assert(trace_additional(names, i as int, required, optional, tag, ipath, spath)
                    == head.followed_by(rest));
            }
            let is_tag = match parent_tag {
                Some(t) => str_eq(t, name),
                None => false,
            };
            if !is_tag && find(properties, name).is_none() && find(
                optional_properties,
                name,
            ).is_none() {
                self.push_instance_token(name);
                self.push_error()?;
                self.pop_instance_token();
                assert(self@.ipath =~= ipath);
            }
            i = i + 1;
        }
        proof {
            lemma_run_none(self@.found, m);
        }
        Ok(())
    }
}

} // verus!
