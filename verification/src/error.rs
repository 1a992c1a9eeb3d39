//! What can go wrong in a search.

use crate::matcher::Engine;
use vstd::prelude::*;
use vstd::string::StringExecFns;

verus! {

/// Why a call failed.
#[derive(Debug)]
pub enum SearchError {
    /// The pattern is not one that the selected engine compiles.
    InvalidPattern {
        /// The engine that turned the pattern down.
        engine: Engine,
        /// That engine's own account of what is wrong.
        diagnostic: String,
    },
    /// The extended engine was asked for where it is not enabled.
    EngineUnavailable,
    /// The one file that the caller named could not be read.
    Io(String),
}

impl SearchError {
    /// The text of [`SearchError::message`].
    pub open spec fn message_text(self) -> Seq<char> {
        match self {
            SearchError::InvalidPattern { engine: Engine::Default, diagnostic } => "Invalid regex: "@
                + diagnostic@,
            SearchError::InvalidPattern { engine: Engine::Extended, diagnostic } =>
                "Invalid PCRE pattern: "@ + diagnostic@,
            SearchError::EngineUnavailable => "pcre2 engine not enabled"@,
            SearchError::Io(detail) => detail@,
        }
    }

    /// The error as one line for a person to read.
    pub fn message(&self) -> (text: String)
        ensures
            text@ == self.message_text(),
    {
        match self {
            SearchError::InvalidPattern { engine, diagnostic } => {
                let prefix = match engine {
                    Engine::Default => "Invalid regex: ",
                    Engine::Extended => "Invalid PCRE pattern: ",
                };
                String::from_str(prefix).concat(diagnostic.as_str())
            },
            SearchError::EngineUnavailable => String::from_str("pcre2 engine not enabled"),
            SearchError::Io(detail) => detail.clone(),
        }
    }
}

} // verus!
