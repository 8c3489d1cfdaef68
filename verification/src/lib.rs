//! The front end of a small C compiler, with its contracts proved.
//!
//! A text goes through the stages in this order:
//!
//! * [`source_file`] holds the text and maps byte offsets to lines and columns;
//! * [`lexer`] cuts it into tokens, reports runs of unknown bytes as one error
//!   each, and stops at a comment that is nested or left open;
//! * [`parser`] reads the tokens as one function definition, or gives the
//!   first error.
//!
//! [`grammar`] says in terms of bytes what white space, words, numbers and
//! comment markers are; [`lexer_laws`] and [`parser_laws`] state what follows
//! for every text. [`process`] collects the stretches of a text between two
//! patterns and maps offsets across them. [`report`] and [`stages`] prepare
//! what a renderer shows.

pub mod arguments;
pub mod ast;
pub mod errors;
pub mod grammar;
pub mod lexer;
pub mod lexer_laws;
pub mod lines;
pub mod mapped_file;
pub mod parser;
pub mod parser_laws;
pub mod process;
pub mod report;
pub mod source_file;
pub mod span;
pub mod stages;
pub mod text;
pub mod token_collection;
pub mod tokens;
pub mod utilities;
