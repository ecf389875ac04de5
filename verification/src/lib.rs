//! A small Lisp: a lexer, a reader, and an evaluator with first-class
//! functions, lexical closures, quasiquotation, macros, and errors that are
//! raised and caught.
//!
//! Source text is lexed into tokens ([`lexer`]), tokens are read into forms
//! ([`compiler`]), and forms, which are values ([`types`]), are evaluated by a
//! machine ([`machine`]) over an arena of environment frames ([`env`]) that
//! holds the core namespace ([`core_ns`]).
//!
//! The machine runs by steps and never on the host stack, so a call in tail
//! position costs no stack at all. It does no arithmetic on doubles, no
//! reading and no writing: for these it stops with a request, and its host
//! answers. A number is held as the bit pattern of a double; equality and
//! order of numbers are decided on the pattern ([`number`]).
//!
//! What the machine does is said once as mathematics ([`semantics`]), every
//! function is verified against that, and what holds of every evaluation is
//! proved from it ([`laws`], [`roundtrip`]).

pub mod compiler;
pub mod core_ns;
pub mod env;
pub mod equality;
pub mod errors;
pub mod evaluator;
pub mod laws;
pub mod lexer;
pub mod machine;
pub mod number;
pub mod printer;
pub mod roundtrip;
pub mod semantics;
pub mod types;
