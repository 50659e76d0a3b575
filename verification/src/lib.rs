//! A source-to-source translator that turns a restricted subset of C into
//! Rust text: comment stripping, macro preprocessing, parsing, numeric
//! promotion and conversion, operator resolution, and code emission.

pub mod bits;
pub mod builtin;
pub mod builtin_ty;
pub mod comment;
pub mod err;
pub mod fns;
pub mod op;
pub mod parser;
pub mod preprocessor;
pub mod text;
pub mod traits;
pub mod ty;
