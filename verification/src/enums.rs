//! The closed set of programming languages a configuration can be
//! classified into, and the classifier that derives one from the raw
//! `type` discriminator of a configuration.

use vstd::prelude::*;
use vstd::string::StringExecFns;

verus! {

/// Language tag derived from a configuration's `type` field.
///
/// `Unknown` is the fallback whenever the discriminator is not one of
/// the recognized adapter identifiers.
#[derive(Clone, Copy, Debug, PartialEq, Eq, Structural)]
pub enum ProgrammingLanguage {
    JavaScript,
    Python,
    Rust,
    Unknown,
}

impl Default for ProgrammingLanguage {
    fn default() -> (r: Self)
        ensures
            r == ProgrammingLanguage::Unknown,
    {
        ProgrammingLanguage::Unknown
    }
}

impl ProgrammingLanguage {
    /// The human-readable name of the language.
    pub open spec fn name_spec(self) -> Seq<char> {
        match self {
            ProgrammingLanguage::JavaScript => "JavaScript"@,
            ProgrammingLanguage::Python => "Python"@,
            ProgrammingLanguage::Rust => "Rust"@,
            ProgrammingLanguage::Unknown => "Unknown"@,
        }
    }

    /// Human-readable name, used wherever the language is printed.
    pub fn display_name(&self) -> (r: String)
        ensures
            r@ == self.name_spec(),
    {
        match self {
            ProgrammingLanguage::JavaScript => String::from_str("JavaScript"),
            ProgrammingLanguage::Python => String::from_str("Python"),
            ProgrammingLanguage::Rust => String::from_str("Rust"),
            ProgrammingLanguage::Unknown => String::from_str("Unknown"),
        }
    }
}

/// The classification table: which `type` discriminator maps to which
/// language. Every string outside the table maps to `Unknown`.
pub open spec fn classification(t: Seq<char>) -> ProgrammingLanguage {
    if t == "debugpy"@ {
        ProgrammingLanguage::Python
    } else if t == "node-terminal"@ {
        ProgrammingLanguage::JavaScript
    } else if t == "lldb"@ {
        ProgrammingLanguage::Rust
    } else {
        ProgrammingLanguage::Unknown
    }
}

/// Map a configuration's raw `type` string to its language tag.
///
/// Total over all strings: anything outside the classification table
/// yields `Unknown`.
pub fn classify(config_type: &str) -> (r: ProgrammingLanguage)
    ensures
        r == classification(config_type@),
{
    let t = config_type.to_owned();
    if t == String::from_str("debugpy") {
        ProgrammingLanguage::Python
    } else if t == String::from_str("node-terminal") {
        ProgrammingLanguage::JavaScript
    } else if t == String::from_str("lldb") {
        ProgrammingLanguage::Rust
    } else {
        ProgrammingLanguage::Unknown
    }
}

} // verus!
