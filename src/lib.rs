//! A tree-walking evaluator for a small Scheme-like language: exact integers
//! of any size, values and their models, an arena of lexical scopes whose
//! call frames are released on return, a rewrite of self-recursive functions
//! into loops, the evaluator proved against a big-step semantics, and a
//! reader from program text to expression trees.
pub mod display;
pub mod environment;
pub mod error;
pub mod evaluator;
pub mod integer;
pub mod interpreter;
pub mod laws;
pub mod math;
pub mod optimizer;
pub mod parser;
pub mod reader;
pub mod semantics;
pub mod value;
