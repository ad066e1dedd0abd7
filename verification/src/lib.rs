//! JSON Type Definition (RFC 8927): schemas, their well-formedness, and the
//! validation of JSON instances against them.
//!
//! A schema is read in its loose form, a [`SerdeSchema`], turned into a
//! [`Schema`] by [`Schema::from_serde_schema`], checked by
//! [`Schema::validate`], and then used by [`validate`] on any number of
//! instances.

pub mod entries;
pub mod form;
pub mod json;
pub mod laws;
pub mod number;
pub mod primitive;
pub mod round_trip;
pub mod schema;
pub mod serde_schema;
pub mod text;
pub mod timestamp;
pub mod trace;
pub mod validate;
pub mod validator;
pub mod validity;
mod vm;
mod walk;
pub mod wire;

pub use json::Json;
pub use number::Number;
pub use schema::Definitions;
pub use schema::Metadata;
pub use schema::Schema;
pub use schema::Type;
pub use serde_schema::SerdeSchema;
pub use validate::try_validate;
pub use validate::validate;
pub use validate::ValidateError;
pub use validate::ValidateOptions;
pub use validate::ValidationErrorIndicator;
pub use validity::SchemaValidateError;
pub use wire::FromSerdeSchemaError;
