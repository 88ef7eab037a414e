pub mod error;
pub mod reference_count;
pub mod sort_global_variables;
pub mod type_check;
pub mod type_laws;
