use crate::analysis::type_check::{TypeCheckError, TypeCheckErrorV};
use vstd::prelude::*;

verus! {

/// Errors of the analyses of a module.
#[derive(Debug, PartialEq)]
pub enum AnalysisError {
    CircularInitialization,
    TypeCheck(TypeCheckError),
}

pub enum AnalysisErrorV {
    CircularInitialization,
    TypeCheck(TypeCheckErrorV),
}

impl View for AnalysisError {
    type V = AnalysisErrorV;

    open spec fn view(&self) -> AnalysisErrorV {
        match self {
            AnalysisError::CircularInitialization => AnalysisErrorV::CircularInitialization,
            AnalysisError::TypeCheck(e) => AnalysisErrorV::TypeCheck(e@),
        }
    }
}

impl From<TypeCheckError> for AnalysisError {
    fn from(error: TypeCheckError) -> (r: Self) {
        AnalysisError::TypeCheck(error)
    }
}

impl vstd::std_specs::convert::FromSpecImpl<TypeCheckError> for AnalysisError {
    open spec fn obeys_from_spec() -> bool {
        true
    }

    open spec fn from_spec(error: TypeCheckError) -> AnalysisError {
        AnalysisError::TypeCheck(error)
    }
}

} // verus!
