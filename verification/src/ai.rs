//! The AI layer's error type and its stub backend.
//!
//! Model-backed capabilities (colour matching, voice isolation, rotoscoping,
//! generation, voiceover) are fulfilled by swappable backends; the stub
//! backend reports every capability as not configured.

use vstd::prelude::*;
use vstd::string::StringExecFns;

verus! {

/// Errors surfaced by AI backends.
#[derive(Debug)]
pub enum AiError {
    /// No model/credentials configured for this capability (the stub default).
    NotConfigured,
    /// The backend (cloud or on-device) failed.
    Backend(String),
}

impl AiError {
    /// The error's message.
    pub open spec fn spec_message(&self) -> Seq<char> {
        match self {
            AiError::NotConfigured => "AI backend not configured for this capability"@,
            AiError::Backend(m) => "AI backend error: "@ + m@,
        }
    }

    /// The error's message.
    pub fn message(&self) -> (r: String)
        ensures
            r@ == self.spec_message(),
    {
        match self {
            AiError::NotConfigured => String::from_str("AI backend not configured for this capability"),
            AiError::Backend(m) => {
                let mut s = String::from_str("AI backend error: ");
                s.append(m.as_str());
                s
            },
        }
    }
}

/// A no-op backend: every capability returns [`AiError::NotConfigured`].
#[derive(Debug, Default, Clone, Copy)]
pub struct StubBackend;

impl StubBackend {
    /// What every capability of the stub backend answers.
    pub fn answer<T>(&self) -> (r: Result<T, AiError>)
        ensures
            r matches Err(AiError::NotConfigured),
    {
        Err(AiError::NotConfigured)
    }
}

} // verus!
