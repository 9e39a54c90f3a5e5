use vstd::prelude::*;

pub mod text;
pub mod url;
pub mod errors;
pub mod log;
pub mod rules;
pub mod engine_structs;
pub mod sanitizer_engine;
pub mod resources;
pub mod html;
pub mod http_client;
pub mod crawl_session;
pub mod cli;

verus! {
} // verus!
