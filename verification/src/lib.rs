//! A transpiler from a Yacc/Bison-style BNF grammar to a combinator-expression
//! grammar description.
//!
//! The pipeline isolates the rules section of the source text, strips embedded
//! semantic actions, comments and declaration directives, parses the cleaned
//! text into named productions, infers which productions are optional (those
//! with an empty alternative), and renders the result as a nested combinator
//! expression (literals, symbol references, `seq`, `choice`, `optional`).

pub mod errors;
pub mod text;
pub mod strip;
pub mod split;
pub mod model;
pub mod render;
pub mod pipeline;
