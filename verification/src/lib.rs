//! Parser for the attribute list of a template tag.
//!
//! An attribute list is a sequence of positional values, `key=value` pairs and
//! spread expressions. Every node of the resulting tree records its byte span in
//! the input and its 1-indexed line and column.
//!
//! [`TagParser::parse_tag`] is the entry point. The grammar is given twice: as
//! spec functions in [`grammar`] and [`lexical`], which say what an input
//! spells, and as the executable parser in [`parser`], which is proved to
//! compute it. [`laws`] states what holds of every parsed input.

pub mod ast;
pub mod dynamic;
pub mod grammar;
pub mod grammar_shape;
pub mod laws;
pub mod lexical;
pub mod parser;
pub mod shape;
pub mod source;
pub mod strictness;

pub use crate::ast::{
    ParseError, TagAttr, TagToken, TagValue, TagValueFilter, TagValueFilterArg, ValueKind,
};
pub use crate::parser::TagParser;
