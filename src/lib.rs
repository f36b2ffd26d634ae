//! Evaluation of arithmetic expressions written in a one-character token
//! alphabet: digits, the four operators `a` (+), `b` (-), `c` (*), `d` (/),
//! and the parentheses `e` and `f`.
//!
//! The expression is first reordered into postfix form by a shunting-yard
//! scan, then the postfix sequence is run on a value stack.
pub mod convert;
pub mod eval;
pub mod laws;
pub mod parser;
pub mod token;

pub use eval::EvalError;
pub use parser::Parser;
pub use token::{Op, Token, TokenV};
