//! Worlds: the compiler from the author's YAML to the binary format
//! (`compile`), its compiled-in vocabulary and error type, and the
//! format's reader.

pub mod compiled;
pub mod compiler;
pub mod document;
pub mod errors;
pub mod eval;
pub mod parse;
pub mod round_trip;
pub mod templates;
pub mod yaml;

pub use compiler::{
    component_types, connection_types, reserved_types, FieldShape, FieldSpec, ReservedKind, ReservedSpec,
    TypeSpec, SCHEMA_VERSION,
};
pub use document::compile;
pub use errors::{CompileError, Span};
pub use eval::{World, WorldError, WorldShape};
