//! A small, dynamically typed scripting language with first-class functions
//! and closures.
//!
//! Source text flows from left to right through three stages:
//!
//! - the scanner ([`lexer`]) turns bytes into tokens ([`token`]);
//! - the parser ([`parser`]) turns tokens into a syntax tree ([`ast`]),
//!   following the grammar that [`grammar`] states;
//! - the evaluator ([`interpreter`]) walks the tree against the scopes of an
//!   [`environment`], with the meaning that [`semantics`] states.
//!
//! Every executable function carries a contract that says, over the
//! mathematical models of its arguments, what it returns and what it
//! changes. The modules [`progress`], [`shape`] and [`stream`] hold what
//! follows from the grammar for every text, and [`replay`] what follows from
//! the semantics for programs that call host functions.
//!
//! Numbers ([`number`]) are IEEE 754 doubles held by their bits. The
//! evaluator does not render them, nor does it read the clock or draw random
//! numbers: a program's calls of host functions are answered by the host,
//! and what a program prints is kept as values for the host to render.

pub mod ast;
pub mod environment;
pub mod grammar;
pub mod ident;
pub mod interpreter;
pub mod lexer;
pub mod number;
pub mod operator;
pub mod parser;
pub mod progress;
pub mod replay;
pub mod semantics;
pub mod shape;
pub mod stream;
pub mod text;
pub mod token;
pub mod value;
