//! Error type returned by the runner side of the crate.

use vstd::prelude::*;
use vstd::string::StringExecFns;

verus! {

/// What can go wrong between selecting a configuration and reaping
/// its child process.
#[derive(Debug)]
pub enum RunnerError {
    /// The configuration's language was classified `Unknown`, so no
    /// command-builder strategy applies.
    UnknownProgrammingLanguage,
    /// A field required by the selected strategy is missing.
    InvalidConfiguration(String),
    /// The strategy for the classified language is reserved but not
    /// implemented.
    NotImplemented(String),
    /// A wrapped failure from outside the configuration itself, such
    /// as an unreadable environment file.
    GenericError(String),
}

impl RunnerError {
    /// The human-readable description of the error.
    pub open spec fn message_spec(self) -> Seq<char> {
        match self {
            RunnerError::UnknownProgrammingLanguage => {
                "Programming language must be known to launch the configuration"@
            },
            RunnerError::InvalidConfiguration(m) => m@,
            RunnerError::NotImplemented(m) => m@,
            RunnerError::GenericError(m) => "Got error: "@ + m@,
        }
    }

    /// Human-readable description, used wherever the error is printed.
    pub fn message(&self) -> (r: String)
        ensures
            r@ == self.message_spec(),
    {
        match self {
            RunnerError::UnknownProgrammingLanguage => {
                String::from_str("Programming language must be known to launch the configuration")
            },
            RunnerError::InvalidConfiguration(m) => m.clone(),
            RunnerError::NotImplemented(m) => m.clone(),
            RunnerError::GenericError(m) => String::from_str("Got error: ").concat(m.as_str()),
        }
    }
}

} // verus!
