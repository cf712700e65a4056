//! The library's error type.
use vstd::prelude::*;

verus! {

/// Errors raised by the bot's library logic.
#[derive(Debug, Clone)]
pub enum FinallyAValueBotError {
    /// A tool, hook or command could not be run or was rejected.
    ToolExecution(String),
    /// A configuration value is missing or invalid.
    Config(String),
    /// An I/O failure, carried as its message.
    Io(String),
    /// A storage failure, carried as its message.
    Database(String),
    /// A language-model provider failed or answered something unusable.
    LlmApi(String),
}

impl FinallyAValueBotError {
    /// The message carried by the error.
    pub open spec fn spec_message(&self) -> Seq<char> {
        match self {
            FinallyAValueBotError::ToolExecution(m) => m@,
            FinallyAValueBotError::Config(m) => m@,
            FinallyAValueBotError::Io(m) => m@,
            FinallyAValueBotError::Database(m) => m@,
            FinallyAValueBotError::LlmApi(m) => m@,
        }
    }

    /// Human-readable rendering of the error (what `to_string` printed).
    pub fn message(&self) -> (r: String)
        ensures
            r@ == self.spec_message(),
    {
        match self {
            FinallyAValueBotError::ToolExecution(m) => m.clone(),
            FinallyAValueBotError::Config(m) => m.clone(),
            FinallyAValueBotError::Io(m) => m.clone(),
            FinallyAValueBotError::Database(m) => m.clone(),
            FinallyAValueBotError::LlmApi(m) => m.clone(),
        }
    }
}

} // verus!
