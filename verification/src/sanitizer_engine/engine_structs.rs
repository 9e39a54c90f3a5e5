pub use crate::engine_structs::InputSource;
