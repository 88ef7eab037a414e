//! The options of code generation.
use vstd::prelude::*;

verus! {

/// The names of the allocation functions that generated code calls.
pub struct CompileConfiguration {
    pub malloc_function_name: String,
    pub realloc_function_name: String,
}

} // verus!
