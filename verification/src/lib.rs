//! Spade: the core of a tree-walking interpreter for a small dynamically
//! typed scripting language. Source text is scanned into tokens, parsed by
//! recursive descent into a syntax tree, and executed against a stack of
//! lexical scopes; `print` statements produce the program's output, which
//! the embedding writes out.
//!
//! Each stage carries a full functional specification: the scanner, the
//! parser and the evaluator are proved equal to mathematical definitions of
//! what they compute, and the laws of the language — what a block may touch,
//! how shadowing resolves, the arity of a call, the determinism of a run,
//! and the round trip between parsing and printing — are proved from those
//! definitions.

pub mod environment;
pub mod error;
pub mod evaluate;
pub mod expressions;
pub mod interpreter;
pub mod numeric;
pub mod token;
pub mod tree;

use vstd::prelude::*;

verus! {

} // verus!
