use vstd::prelude::*;

verus! {

/// The settings of a run, as read from the configuration file.
#[derive(Debug)]
pub struct Config {
    pub provider: String,
    pub model: String,
    pub cache_enabled: Option<bool>,
    pub cache_path: Option<String>,
    pub ollama_url: Option<String>,
    pub api_key: Option<String>,
    pub commit_format: String,
    pub log: LogConfig,
    pub smart_commit: SmartCommitConfig,
}

/// Where and how the log is written.
#[derive(Debug)]
pub struct LogConfig {
    pub path: String,
    pub format: LogFormat,
}

/// The layout of log records.
#[derive(Debug, PartialEq, Eq, Structural, Clone, Copy)]
pub enum LogFormat {
    Nmap,
    Json,
}

/// Settings for bounding the size of the analyzed diff.
#[derive(Debug, Clone, Copy)]
pub struct SmartCommitConfig {
    pub line_threshold: u32,
}

/// The command-line options.
#[derive(Debug)]
pub struct Cli {
    /// Generate a single commit message for all changes.
    pub unique: bool,
    /// Split large diffs into smaller commits (interactive mode).
    pub smart: bool,
    /// A commit message template to use instead of the configured one.
    pub format: Option<String>,
    /// Verbose output and debug logging.
    pub debug: bool,
}

} // verus!
