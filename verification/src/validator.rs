//! A validator that holds its limits, and returns its errors as paths of
//! strings of their own.

use vstd::prelude::*;
use crate::entries::strings_view;
use crate::json::Json;
use crate::schema::Schema;
use crate::trace::ErrorIndicator;
use crate::validate::admits;
use crate::validate::validate;
use crate::validate::validation;
use crate::validate::errors_view;
use crate::validate::ValidateError;
use crate::validate::ValidateOptions;

verus! {

/// The limits of a validation; `None` is no limit, as is 0.
#[derive(Debug)]
pub struct Validator {
    pub max_depth: Option<usize>,
    pub max_errors: Option<usize>,
}

/// One error of a validation.
#[derive(Debug)]
pub struct ValidationError {
    pub instance_path: Vec<String>,
    pub schema_path: Vec<String>,
}

impl View for ValidationError {
    type V = ErrorIndicator;

    open spec fn view(&self) -> ErrorIndicator {
        ErrorIndicator {
            instance_path: strings_view(self.instance_path@),
            schema_path: strings_view(self.schema_path@),
        }
    }
}

/// A limit as a number: none is 0.
pub open spec fn limit_of(limit: Option<usize>) -> nat {
    match limit {
        Some(n) => n as nat,
        None => 0,
    }
}

/// The errors of a vector by their views.
pub open spec fn owned_errors_view(errors: Seq<ValidationError>) -> Seq<ErrorIndicator> {
    Seq::new(errors.len(), |i: int| errors[i]@)
}

impl Validator {
    /// Validates `instance` against `schema` within the limits of this
    /// validator, where [`admits`] says that it can be validated.
    pub fn validate(&self, schema: &Schema, instance: &Json) -> (r: Result<
        Vec<ValidationError>,
        ValidateError,
    >)
        requires
            admits(schema@, instance@, limit_of(self.max_depth)),
        ensures
            match validation(
                schema@,
                instance@,
                limit_of(self.max_depth),
                limit_of(self.max_errors),
            ) {
                Ok(errors) => r matches Ok(found) && owned_errors_view(found@) == errors,
                Err(_) => r matches Err(ValidateError::MaxDepthExceeded),
            },
    {
        let max_depth = match self.max_depth {
            Some(n) => n,
            None => 0,
        };
        let max_errors = match self.max_errors {
            Some(n) => n,
            None => 0,
        };
        let options = ValidateOptions::new().with_max_depth(max_depth).with_max_errors(max_errors);
        let found = validate(schema, instance, options)?;
        let ghost given = found@;
        let mut out: Vec<ValidationError> = Vec::new();
        for indicator in it: found
            invariant
                it.seq() == given,
                out@.len() == it.index(),
                forall|j: int| 0 <= j < out@.len() ==> out@[j]@ == given[j]@,
        {
            let (instance_path, schema_path) = indicator.into_owned_paths();
            out.push(ValidationError { instance_path, schema_path });
        }
        assert(owned_errors_view(out@) =~= errors_view(given));
        Ok(out)
    }
}

} // verus!
