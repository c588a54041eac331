//! Parsing front-end for a small CEL-style expression language.
//!
//! [`parse`] turns a source text into a tree of uniquely numbered nodes
//! ([`ast::IdedExpr`]). The macro call forms `has`, `all`, `exists`,
//! `exists_one`, `map` and `filter` are rewritten into the core constructs
//! ([`macros`]), and what was written is kept in a side table that is keyed
//! by node identifier ([`references::ExpressionReferences`]). [`protobuf`]
//! converts between the tree and its interchange form.
//!
//! What the outcome of a parse is, is said by [`grammar`], over the tokens
//! that [`lexer`] says a text has and the values that [`literal`] gives to
//! its literals. What holds of every outcome is proved from that:
//! [`numbering`] that no identifier occurs twice in a tree, [`records`]
//! that every entry of the table belongs to a comprehension of the tree,
//! and [`doubles`] that no bit pattern is missing where one was handed in
//! for every double literal.
//!
//! No floating point is computed here. A double is held as its IEEE 754 bit
//! pattern; the bit patterns of the double literals of a text are handed to
//! [`parse`], and [`float_literals`] lists the literals that they are for.
pub mod ast;
pub mod doubles;
pub mod error;
pub mod grammar;
pub mod ids;
pub mod lexer;
pub mod literal;
pub mod macros;
pub mod numbering;
pub mod parser;
pub mod protobuf;
pub mod records;
pub mod reference;
pub mod references;
pub mod steps;
pub mod text;
pub mod token;

pub use ast::IdedExpr as Expression;
pub use error::ParseError;
pub use parser::{float_literals, parse, ParseResult};
pub use references::ExpressionReferences;
