//! An interpreter for a small Lisp-like language.
//!
//! Source text is split into tokens ([`lexer`]), the tokens are parsed into
//! trees of [`literals::Literal`] values ([`parser`]), and the trees are
//! evaluated against an environment of named values ([`evaluator`]).
//!
//! What evaluation means is written down in [`semantics`], as functions from
//! a form and a state to an outcome; the evaluator is proved to compute
//! them. [`laws`] holds what follows for every program.
//!
//! An evaluation is given a depth: the number of lists that it may evaluate
//! one within another. Where that is not enough it fails with
//! `DepthExceeded`, except within `filter`, which leaves out an item whose
//! call fails, whatever the failure. Where the depth is enough, the outcome
//! is the same at every greater depth ([`laws::depth`]).
//!
//! Numbers are carried as IEEE-754 binary64 bit patterns. The library
//! compares them and does nothing else with them: the arithmetic is supplied
//! by the caller through a [`host::Host`].

pub mod literals;
pub mod comparison;
pub mod environment;
pub mod error;
pub mod host;
pub mod text;
pub mod semantics;
pub mod evaluator;
pub mod functions;
pub mod math_functions;
pub mod vector_manipulation;
pub mod lexer;
pub mod parser;
pub mod laws;
