//! The parsing front-end of a small programming language.
//!
//! A lexer hands over a sequence of range-tagged tokens; [`parse::parse`]
//! turns it into a syntax tree, or into the list of everything that is wrong
//! with it. Diagnostics carry exact byte ranges, and [`error::Report`]
//! renders them over the source text.
//!
//! - [`range`]: byte ranges and range-tagged values.
//! - [`token`]: the tokens.
//! - [`name`] and [`ast`]: the syntax tree.
//! - [`parse::token_reader`]: the cursor over the tokens, which keeps the
//!   indentation of the current line.
//! - [`parse::grammar`]: the grammar as a mathematical function, and
//!   [`parse::laws`]: what holds of it.
//! - [`parse`]: the parser, proved to compute the grammar.
//! - [`error`] and [`text`]: reports and their rendering.
//!
//! Blocks are delimited by braces and by indentation at once: the statements
//! of a block align to one column, and the closing brace follows the line
//! break that returns to the column of the line that opened the block.

pub mod ast;
pub mod error;
pub mod name;
pub mod parse;
pub mod range;
pub mod text;
pub mod token;
