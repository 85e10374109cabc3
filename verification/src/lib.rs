//! A small interpreter for a Forth-like stack language.
//!
//! Source text is split into tokens, user words are compiled into shared
//! bodies at definition time, and everything runs against a bounded stack of
//! 16-bit integers. Every executable function carries a contract over the
//! mathematical models defined next to it.

pub mod dictionary;
pub mod error;
pub mod interpreter;
pub mod machine;
pub mod parser;
pub mod program;
pub mod runner;
pub mod stack;
pub mod text;
pub mod word;

pub use dictionary::Dictionary;
pub use error::ForthError;
pub use interpreter::Interpreter;
pub use parser::{tokenize, Token};
pub use runner::{render_stack, run_program, stack_capacity, Report};
pub use stack::Stack;
pub use word::Word;
pub use text::{chars_of, is_whitespace, parse_count, parse_number, push_decimal};
