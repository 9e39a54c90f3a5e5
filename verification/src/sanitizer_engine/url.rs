pub use crate::url::{check_domain, RuleMatch};
