//! A Pratt (top-down operator precedence) parsing engine, the token kinds it
//! drives, and the lexer that turns text into tokens.

pub mod number;
pub mod token;
pub mod engine;
pub mod fixed;
pub mod dynamic;
pub mod registry;
pub mod lexer;
pub mod laws;

pub use dynamic::{DynamicSymbol, DynamicToken};
pub use engine::{Pratt, Tokenizer};
pub use fixed::StaticSymbol;
pub use lexer::StringTokenizer;
pub use token::{LexError, Led, Nud, ParseError, Symbol, Token};
