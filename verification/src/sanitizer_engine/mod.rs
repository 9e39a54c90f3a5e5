pub mod engine_structs;
pub mod errors;
pub mod log;
pub mod policy;
pub mod resource_sanitizer;
pub mod rules;
pub mod url;
