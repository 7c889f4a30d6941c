//! The evaluator's error channel: real runtime errors, and the return signal
//! that unwinds to the nearest enclosing call.

use vstd::prelude::*;

use crate::evaluate::{Value, ValueModel};

verus! {

/// What stops the evaluation of a statement: a runtime error, or a `return`
/// travelling to the function call that consumes it.
#[derive(Debug)]
pub enum SpadeError {
    RuntimeError { message: String, line: usize },
    Return(Value),
}

/// The mathematical image of an evaluation signal.
pub ghost enum SpadeErrorModel {
    RuntimeError { message: Seq<char>, line: nat },
    Return(ValueModel),
}

impl View for SpadeError {
    type V = SpadeErrorModel;

    open spec fn view(&self) -> SpadeErrorModel {
        match self {
            SpadeError::RuntimeError { message, line } => SpadeErrorModel::RuntimeError {
                message: message@,
                line: *line as nat,
            },
            SpadeError::Return(v) => SpadeErrorModel::Return(v@),
        }
    }
}

impl SpadeError {
    /// A runtime error with its message and the line it arose on.
    pub fn runtime_error(message: String, line: usize) -> (r: Self)
        ensures
            r@ == (SpadeErrorModel::RuntimeError { message: message@, line: line as nat }),
    {
        SpadeError::RuntimeError { message, line }
    }

    /// The signal a `return` statement raises.
    pub fn return_value(value: Value) -> (r: Self)
        ensures
            r@ == SpadeErrorModel::Return(value@),
    {
        SpadeError::Return(value)
    }
}

} // verus!
