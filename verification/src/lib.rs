//! Evaluation core of BlueBat, a small dynamically-typed expression language.
//!
//! The core is a tree-walking evaluator over a heap of boxed values and a tree
//! of lexical scopes, both addressed by integer handles and reclaimed by a
//! mark-and-sweep collector. Numbers are IEEE-754 binary64 values carried as
//! their bit patterns; arithmetic on them, and all input and output, is asked
//! of the host one request at a time.

pub mod errors;
pub mod lexer;
pub mod number;
pub mod parser;
pub mod value;
pub mod interpreter;
pub mod evaluator;
pub mod laws;
