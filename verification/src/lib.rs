//! Parser and canonical printer for tabletop dice notation.
//!
//! An expression such as `15d10r3l-2d4rl+d3+7d7+66-2d4` is lexed into
//! positioned tokens, parsed by recursive descent into a tree of
//! [`ParseNode`]s, and rendered back into its canonical textual form,
//! with implicit counts filled in (`d20` prints as `1d20`) and operators
//! padded with single spaces.

pub mod ast;
pub mod digits;
pub mod failure;
pub mod laws;
pub mod lexer;
pub mod parser;
pub mod printer;

pub use ast::{NodeView, ParseNode, Terminal};
pub use failure::{Construct, ParseFailure};
pub use lexer::Lexeme;
pub use parser::parse;
pub use printer::print;
