//! Front end of a small C-like compiler: a grammar-driven scanner that turns
//! source text into classified tokens.
//!
//! A grammar is an ordered table of token categories, each with an ordered
//! list of regex match rules. The scanner skips white space, then lets the
//! first rule (by table order) that matches at the cursor decide the token.

pub mod command;
pub mod grammar;
pub mod laws;
pub mod pattern;
pub mod scanner;
pub mod token;

pub use command::{Command, code_gen, parse, parse_args};
pub use grammar::{Category, Grammar, TokenClass, init_grammar};
pub use pattern::{PatternError, Rule, hit_at_start};
pub use scanner::{ScanError, lex};
pub use token::Token;
