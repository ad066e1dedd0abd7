//! Validation of an instance against a schema.

use std::borrow::Cow;
use vstd::prelude::*;
use crate::entries::entries_view;
use crate::entries::entry_keys;
use crate::entries::find;
use crate::entries::keys;
use crate::entries::strings_view;
use crate::form::SchemaView;
use crate::json::Json;
use crate::json::JsonView;
use crate::schema::lemma_schema_view;
use crate::schema::Schema;
use crate::trace::chain;
use crate::trace::limited;
use crate::trace::outcome;
use crate::trace::refs_end;
use crate::trace::root_trace;
use crate::trace::shallow;
use crate::trace::ErrorIndicator;
use crate::vm::Vm;
use crate::vm::VmValidateError;

verus! {

/// The limits of a validation. A limit of 0 is no limit.
#[derive(Clone, Debug, PartialEq, Eq)]
pub struct ValidateOptions {
    max_depth: usize,
    max_errors: usize,
}

impl ValidateOptions {
    /// The limit on the depth of references.
    pub closed spec fn max_depth(self) -> usize {
        self.max_depth
    }

    /// The limit on the number of errors.
    pub closed spec fn max_errors(self) -> usize {
        self.max_errors
    }

    /// The limit on the depth of references.
    pub(crate) fn max_depth_limit(&self) -> (r: usize)
        ensures
            r == self.max_depth(),
    {
        self.max_depth
    }

    /// The limit on the number of errors.
    pub(crate) fn max_errors_limit(&self) -> (r: usize)
        ensures
            r == self.max_errors(),
    {
        self.max_errors
    }

    /// The options without any limit.
    pub fn new() -> (r: Self)
        ensures
            r.max_depth() == 0,
            r.max_errors() == 0,
    {
        ValidateOptions { max_depth: 0, max_errors: 0 }
    }

    /// These options with the depth of references limited: a validation fails
    /// on the reference that would bring the depth to `max_depth`, the
    /// root being at depth 1.
    pub fn with_max_depth(self, max_depth: usize) -> (r: Self)
        ensures
            r.max_depth() == max_depth,
            r.max_errors() == self.max_errors(),
    {
        ValidateOptions { max_depth, max_errors: self.max_errors }
    }

    /// These options with the number of errors limited: a validation returns
    /// once it has found `max_errors` errors.
    pub fn with_max_errors(self, max_errors: usize) -> (r: Self)
        ensures
            r.max_depth() == self.max_depth(),
            r.max_errors() == max_errors,
    {
        ValidateOptions { max_depth: self.max_depth, max_errors }
    }
}

impl Default for ValidateOptions {
    /// The options without any limit.
    fn default() -> (r: Self)
        ensures
            r.max_depth() == 0,
            r.max_errors() == 0,
    {
        ValidateOptions::new()
    }
}

/// Why a validation gave no list of errors.
#[derive(Clone, Debug, PartialEq, Eq)]
pub enum ValidateError {
    /// The limit on the depth of references was met.
    MaxDepthExceeded,
}

/// One error of a validation: the path to the part of the instance that was
/// rejected, and the path to the part of the schema that rejected it.
#[derive(Clone, Debug, PartialEq, Eq)]
pub struct ValidationErrorIndicator<'a> {
    pub instance_path: Vec<Cow<'a, str>>,
    pub schema_path: Vec<Cow<'a, str>>,
}

/// The tokens of a path by their views.
pub open spec fn tokens_view(tokens: Seq<Cow<'_, str>>) -> Seq<Seq<char>> {
    Seq::new(tokens.len(), |i: int| tokens[i]@)
}

impl<'a> View for ValidationErrorIndicator<'a> {
    type V = ErrorIndicator;

    open spec fn view(&self) -> ErrorIndicator {
        ErrorIndicator {
            instance_path: tokens_view(self.instance_path@),
            schema_path: tokens_view(self.schema_path@),
        }
    }
}

/// The errors of a vector by their views.
pub open spec fn errors_view(errors: Seq<ValidationErrorIndicator<'_>>) -> Seq<ErrorIndicator> {
    Seq::new(errors.len(), |i: int| errors[i]@)
}

/// The tokens of a path as strings of their own.
fn into_owned_tokens(tokens: Vec<Cow<'_, str>>) -> (r: Vec<String>)
    ensures
        strings_view(r@) == tokens_view(tokens@),
{
    let ghost given = tokens@;
    let mut out: Vec<String> = Vec::new();
    for token in it: tokens
        invariant
            it.seq() == given,
            out@.len() == it.index(),
            forall|j: int| 0 <= j < out@.len() ==> out@[j]@ == given[j]@,
    {
        let owned = match token {
            Cow::Borrowed(s) => s.to_owned(),
            Cow::Owned(s) => s,
        };
        out.push(owned);
    }
    assert(strings_view(out@) =~= tokens_view(given));
    out
}

impl<'a> ValidationErrorIndicator<'a> {
    /// The two paths as vectors of strings: the instance path, then the
    /// schema path.
    pub fn into_owned_paths(self) -> (r: (Vec<String>, Vec<String>))
        ensures
            strings_view(r.0@) == self@.instance_path,
            strings_view(r.1@) == self@.schema_path,
    {
        (into_owned_tokens(self.instance_path), into_owned_tokens(self.schema_path))
    }
}

/// What the validation of `instance` against `schema` returns, with the
/// limits `max_depth` and `max_errors`: the error indicators of the walk of
/// the instance, cut off at `max_errors` where there are that many, or that
/// the limit on the depth of references was met.
pub open spec fn validation(
    schema: SchemaView,
    instance: JsonView,
    max_depth: nat,
    max_errors: nat,
) -> Result<Seq<ErrorIndicator>, ()> {
    outcome(root_trace(schema, instance, max_depth), max_errors)
}

/// Whether `instance` can be validated against `schema`: the validation
/// looks into no other schema; or the schema is well-formed and the walk
/// ends, by the limit on the depth of references or because following
/// references from a definition comes to an end.
pub open spec fn admits(schema: SchemaView, instance: JsonView, max_depth: nat) -> bool {
    ||| shallow(schema, instance)
    ||| schema.valid() && (limited(max_depth) || refs_end(schema))
}

/// Validates `instance` against `schema` and returns the errors found, in
/// the order in which the instance is walked: an object by its required
/// properties, its optional properties, then its additional members;
/// properties in the order of their names; members and elements in their
/// own order.
///
/// Where the validation looks into other schemas, the schema must be
/// well-formed, and without a limit on the depth of references, following
/// references from a definition must come to an end
/// ([`Schema::refs_end`]): the walk would not end otherwise.
pub fn validate<'a>(schema: &'a Schema, instance: &'a Json, options: ValidateOptions) -> (r: Result<
    Vec<ValidationErrorIndicator<'a>>,
    ValidateError,
>)
    requires
        admits(schema@, instance@, options.max_depth() as nat),
    ensures
        match validation(
            schema@,
            instance@,
            options.max_depth() as nat,
            options.max_errors() as nat,
        ) {
            Ok(errors) => r matches Ok(found) && errors_view(found@) == errors,
            Err(_) => r matches Err(ValidateError::MaxDepthExceeded),
        },
{
    let mut vm = Vm::new(schema, options);
    match vm.validate(schema, None, instance) {
        Ok(()) => Ok(vm.into_errors()),
        Err(VmValidateError::MaxErrorsReached) => Ok(vm.into_errors()),
        Err(VmValidateError::MaxDepthExceeded) => Err(ValidateError::MaxDepthExceeded),
    }
}

/// Validates `instance` against `schema` where [`validate`] can be called.
/// Else there is no validation, and the result is `None`.
pub fn try_validate<'a>(schema: &'a Schema, instance: &'a Json, options: ValidateOptions) -> (r:
    Option<Result<Vec<ValidationErrorIndicator<'a>>, ValidateError>>)
    ensures
        r is Some <==> admits(schema@, instance@, options.max_depth() as nat),
        r matches Some(returned) ==> match validation(
            schema@,
            instance@,
            options.max_depth() as nat,
            options.max_errors() as nat,
        ) {
            Ok(errors) => returned matches Ok(found) && errors_view(found@) == errors,
            Err(_) => returned matches Err(ValidateError::MaxDepthExceeded),
        },
{
    if !schema.is_shallow_for(instance) {
        if schema.validate().is_err() {
            return None;
        }
        if options.max_depth_limit() < 2 && !schema.refs_end() {
            return None;
        }
    }
    Some(validate(schema, instance, options))
}

impl Schema {
    /// Whether the validation of `instance` against this schema looks into
    /// no other schema.
    pub fn is_shallow_for(&self, instance: &Json) -> (r: bool)
        ensures
            r == shallow(self@, instance@),
    {
        let is_null = match instance {
            Json::Null => true,
            _ => false,
        };
        if is_null && self.nullable() {
            return true;
        }
        match self {
            Schema::Empty { .. } => true,
            Schema::Type { .. } => true,
            Schema::Enum { .. } => true,
            _ => false,
        }
    }

    /// Whether following references from a definition of this schema always
    /// comes to an end.
    pub fn refs_end(&self) -> (r: bool)
        ensures
            r == refs_end(self@),
    {
        let definitions = self.definitions();
        let ghost root = self@;
        let mut i: usize = 0;
        while i < definitions.len()
            invariant
                i <= definitions.len(),
                root == self@,
                *definitions == self.spec_definitions(),
                root.definitions == entries_view(definitions@),
                forall|j: int|
                    0 <= j < i ==> chain(
                        root,
                        (#[trigger] root.definitions[j]).1,
                        root.definitions.len(),
                    ) is Some,
            decreases definitions.len() - i,
        {
            if !self.chain_ends(&definitions[i].1, definitions.len()) {
                assert(root.definitions[i as int].1 == definitions@[i as int].1@);
                return false;
            }
            assert(root.definitions[i as int].1 == definitions@[i as int].1@);
            i = i + 1;
        }
        true
    }

    /// Whether at most `fuel` references are followed from `start` until a
    /// schema that is not of the ref form.
    fn chain_ends(&self, start: &Schema, fuel: usize) -> (r: bool)
        ensures
            r == chain(self@, start@, fuel as nat) is Some,
    {
        let definitions = self.definitions();
        let ghost root = self@;
        let mut current = start;
        let mut left = fuel;
        loop
            invariant
                root == self@,
                root.definitions == entries_view(definitions@),
                chain(root, start@, fuel as nat) is Some <==> chain(root, current@, left as nat)
                    is Some,
            decreases left,
        {
            proof {
                lemma_schema_view(*current);
            }
            match current {
                Schema::Ref { ref_, .. } => {
                    assert(entry_keys(definitions@) =~= keys(root.definitions));
                    match find(definitions, ref_.as_str()) {
                        Some(i) => {
                            assert(root.definitions[i as int].1 == definitions@[i as int].1@);
                            if left == 0 {
                                return false;
                            }
                            current = &definitions[i].1;
                            left = left - 1;
                        },
                        None => {
                            return true;
                        },
                    }
                },
                _ => {
                    return true;
                },
            }
        }
    }
}

} // verus!
