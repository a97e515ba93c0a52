//! A regular-expression engine built on Brzozowski derivatives.
//!
//! A pattern is compiled to a canonical algebraic representation of its
//! regular language; matching repeatedly differentiates that representation
//! with respect to each consumed character and tests whether the residual
//! expression accepts the empty string.

pub mod derivatives;
pub mod laws;
pub mod lexer;
pub mod parser;

pub use derivatives::{CharRange, Count, Regex, SpecRegex};
pub use lexer::{tokenize, Token};
pub use parser::{parse_string_to_regex, ParseError};
