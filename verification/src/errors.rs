//! Typed errors, each mapped to a CLI exit code.
//!
//! Exit-code convention: 0 ok · 2 usage/precondition · 3 admission-gate refusal · 4 STATE corrupt.
use vstd::prelude::*;

verus! {

#[derive(Debug, Clone)]
pub enum CairnError {
    /// Bad arguments, illegal enum, missing/invalid config, illegal state op. -> 2
    Usage(String),
    /// Admission gate refused the transition. -> 3
    Gate { message: String, missing: Vec<String> },
    /// STATE.yaml unreadable / missing required fields / unknown enum. -> 4
    StateCorrupt(String),
}

impl CairnError {
    /// The exit code of an error.
    pub open spec fn spec_code(&self) -> i32 {
        match self {
            CairnError::Usage(_) => 2,
            CairnError::Gate { .. } => 3,
            CairnError::StateCorrupt(_) => 4,
        }
    }

    /// The message an error carries.
    pub open spec fn spec_message(&self) -> Seq<char> {
        match self {
            CairnError::Usage(m) => m@,
            CairnError::Gate { message, .. } => message@,
            CairnError::StateCorrupt(m) => m@,
        }
    }

    pub fn code(&self) -> (r: i32)
        ensures
            r == self.spec_code(),
    {
        match self {
            CairnError::Usage(_) => 2,
            CairnError::Gate { .. } => 3,
            CairnError::StateCorrupt(_) => 4,
        }
    }

    pub fn message(&self) -> (r: &str)
        ensures
            r@ == self.spec_message(),
    {
        match self {
            CairnError::Usage(m) => m.as_str(),
            CairnError::Gate { message, .. } => message.as_str(),
            CairnError::StateCorrupt(m) => m.as_str(),
        }
    }
}

/// A usage-class error (exit code 2) with the given message.
pub fn usage(m: String) -> (r: CairnError)
    ensures
        r == CairnError::Usage(m),
{
    CairnError::Usage(m)
}

/// A corrupt-STATE error (exit code 4) with the given message.
pub fn corrupt(m: String) -> (r: CairnError)
    ensures
        r == CairnError::StateCorrupt(m),
{
    CairnError::StateCorrupt(m)
}

} // verus!
