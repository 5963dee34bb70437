//! A lexer for a text-templating language that embeds `{{ action }}` directives in literal text.
//!
//! [`lex`] makes a [`Lexer`] for an input, [`Lexer::run`] turns the input into tokens, and
//! [`Lexer::next_item`] hands them out one by one. What the tokens of an input are is
//! defined in [`grammar`] and [`machine`]; [`laws`] proves what follows from the definition.

pub mod chars;
pub mod grammar;
pub mod laws;
pub mod lexer;
pub mod machine;
pub mod node;
pub mod parse;
pub mod runes;
pub mod states;
pub mod token;

pub use crate::lexer::{lex, Lexer};
pub use crate::runes::is_char_boundary;
pub use crate::token::{Channel, Item, ItemType, Pos, State};
