//! Generator for TypeScript client code from a Swagger-style schema document.
//!
//! The library turns an in-memory schema model (definitions, paths,
//! operations) into an ordered sequence of TypeScript source lines: a fixed
//! runtime preamble, one type alias per definition (sorted by name), and
//! per-operation parameter types, response unions and client functions.

pub mod ordering;
pub mod parser;
pub mod sanitizer;
pub mod template;
pub mod text;
