//! A text-substitution preprocessor: named, parameterized templates are loaded
//! from a definitions document, and invocations of them in a source document
//! are replaced by their expanded bodies.
pub mod error;
pub mod text;
pub mod scan;
pub mod table;
pub mod loader;
pub mod expand;
pub mod laws;
