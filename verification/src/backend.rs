pub mod compile_configuration;
pub mod entry_functions;
pub mod error;
pub mod ffi_function_type;
pub mod initializer_sorter;
