//! Errors of code generation.
use crate::analysis::type_check::TypeCheckError;
use vstd::prelude::*;

verus! {

#[derive(Debug, PartialEq)]
pub enum CompileError {
    CircularInitialization,
    InvalidBitcast(String, String),
    Llvm(String),
    Ssf(TypeCheckError),
    VariableNotFound(String),
}

impl From<TypeCheckError> for CompileError {
    fn from(error: TypeCheckError) -> (r: Self) {
        CompileError::Ssf(error)
    }
}

impl vstd::std_specs::convert::FromSpecImpl<TypeCheckError> for CompileError {
    open spec fn obeys_from_spec() -> bool {
        true
    }

    open spec fn from_spec(error: TypeCheckError) -> CompileError {
        CompileError::Ssf(error)
    }
}

} // verus!
