use vstd::prelude::*;

verus! {

/// The command-line arguments of the sanitizer.
#[derive(Debug, Clone)]
pub struct Args {
    /// Input files, directories or URLs
    pub inputs: Vec<String>,
    /// Policy configuration file (.toml)
    pub policy: Option<String>,
    /// Output directory for sanitised content and reports
    pub output_dir: String,
    /// Number of concurrent workers
    pub workers: usize,
    /// Verbose output
    pub verbose: bool,
    /// Print the default policy
    pub generate_policy: bool,
}

} // verus!
