//! Invocation options of the daemon, as plain data. Parsing the command
//! line into these options happens outside the library.

use vstd::prelude::*;

verus! {

/// Log output format.
#[derive(Debug, Clone, Copy, PartialEq, Eq, Structural)]
pub enum LogFormat {
    /// Human-readable text output.
    Text,
    /// JSON lines output.
    Json,
}

impl Default for LogFormat {
    fn default() -> (r: Self)
        ensures
            r == LogFormat::Text,
    {
        LogFormat::Text
    }
}

/// The daemon's invocation options.
#[derive(Debug)]
pub struct Args {
    /// Path of the workspace specification file.
    pub config: String,
    /// Run a single sync pass and exit.
    pub once: bool,
    /// Do not sync; only log what would happen.
    pub dry_run: bool,
    /// Only validate the configuration; do not start.
    pub validate_only: bool,
    /// Override the sync interval of every path, in seconds.
    pub interval: Option<u64>,
    /// Sync only the paths with these names.
    pub only_paths: Vec<String>,
    /// Log output format.
    pub log_format: LogFormat,
    /// Log level name.
    pub log_level: String,
}

impl Args {
    /// Whether the daemon runs continuously: neither a single pass nor
    /// validation only.
    pub fn is_continuous(&self) -> (r: bool)
        ensures
            r == (!self.once && !self.validate_only),
    {
        !self.once && !self.validate_only
    }

    /// Whether any filtering by path name is requested.
    pub fn has_path_filter(&self) -> (r: bool)
        ensures
            r == (self.only_paths@.len() > 0),
    {
        self.only_paths.len() > 0
    }
}

} // verus!
