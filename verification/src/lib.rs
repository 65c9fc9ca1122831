//! An arithmetic expression calculator over a numeric domain of the
//! caller's choice.
//!
//! A line of text is split into tokens ([`tokenize`]), the tokens are
//! reordered from infix to postfix form by operator precedence
//! ([`shunting_yard`]), and the postfix sequence is evaluated on a stack
//! against a table of variables ([`evaluate_rpn`]). A [`Session`] does this
//! line by line and keeps the variables that its lines assign.
//!
//! The type `V` of numeric values is a parameter. The caller supplies how a
//! literal is read and how an operator is applied; the contracts speak of
//! these two callbacks through the relations that their own postconditions
//! define, and so hold for any arithmetic.

pub mod env;
pub mod eval;
pub mod grammar;
pub mod laws;
pub mod lexer;
pub mod reorder;
pub mod session;
pub mod text;
pub mod token;

pub use env::Environment;
pub use eval::evaluate_rpn;
pub use lexer::tokenize;
pub use reorder::shunting_yard;
pub use session::{evaluate_infix, is_exit_word, Reply, Session};
pub use token::{CalcError, Operator, Token};
