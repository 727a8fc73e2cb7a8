use vstd::prelude::*;

use vstd::string::StringExecFns;

verus! {

/// The errors of this library; each carries a human-readable description.
#[derive(Debug)]
pub enum Error {
    /// A version-control operation failed.
    Git(String),
    /// An input/output operation failed.
    Io(String),
    /// The language-model provider failed or replied with something unusable.
    Ai(String),
    /// The HTTP transport failed.
    Reqwest(String),
    /// The configuration is incomplete or invalid.
    Config(String),
    /// There are no staged changes to analyze.
    NoStagedChanges,
    /// The cache store failed.
    Sqlite(String),
}

/// The user-facing text of an error: a category prefix and the detail.
pub open spec fn error_text(e: Error) -> Seq<char> {
    match e {
        Error::Git(m) => "Git error: "@ + m@,
        Error::Io(m) => "I/O error: "@ + m@,
        Error::Ai(m) => "AI provider error: "@ + m@,
        Error::Reqwest(m) => "Reqwest error: "@ + m@,
        Error::Config(m) => "Configuration error: "@ + m@,
        Error::NoStagedChanges => "No staged changes found to generate a commit message."@,
        Error::Sqlite(m) => "SQLite error: "@ + m@,
    }
}

impl Error {
    /// The user-facing text of this error.
    pub fn describe(&self) -> (r: String)
        ensures
            r@ == error_text(*self),
    {
        match self {
            Error::Git(m) => String::from_str("Git error: ").concat(m.as_str()),
            Error::Io(m) => String::from_str("I/O error: ").concat(m.as_str()),
            Error::Ai(m) => String::from_str("AI provider error: ").concat(m.as_str()),
            Error::Reqwest(m) => String::from_str("Reqwest error: ").concat(m.as_str()),
            Error::Config(m) => String::from_str("Configuration error: ").concat(m.as_str()),
            Error::NoStagedChanges => String::from_str(
                "No staged changes found to generate a commit message.",
            ),
            Error::Sqlite(m) => String::from_str("SQLite error: ").concat(m.as_str()),
        }
    }
}

} // verus!
