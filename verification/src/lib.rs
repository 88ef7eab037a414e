pub mod analysis;
pub mod backend;
pub mod environment;
pub mod free_variables;
pub mod inference_laws;
pub mod ir;
pub mod module;
pub mod rename;
pub mod rename_laws;
pub mod types;
