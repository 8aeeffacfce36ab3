//! Infers a JSON Schema (draft-07 style) from an example JSON value.
//!
//! The values: [`value`] holds the JSON value tree and its mathematical
//! model, [`number`] its numbers, [`members`] the members of its objects and
//! [`identity`] the structural identity of two values. [`text`] and
//! [`sorting`] hold the raw order of strings.
//!
//! The inference: [`schema`] says what the schema of a value and the
//! unification of two schemas are, and computes them.
//!
//! The proofs: [`laws`] states what holds of every inferred schema and of
//! every unification; [`shape`], [`dialect`] and [`validity`] hold the
//! lemmas that the laws and the functions rest on.

pub mod dialect;
pub mod identity;
pub mod laws;
pub mod members;
pub mod number;
pub mod schema;
pub mod shape;
pub mod sorting;
pub mod text;
pub mod validity;
pub mod value;

pub use number::Number;
pub use schema::{
    find_common_schema, generate_array_schema, generate_json_schema, generate_object_schema,
    generate_schema, merge_schemas, type_schema,
};
pub use value::Json;
