use vstd::prelude::*;

verus! {

/// Why a source text was rejected by the compiler.
#[derive(Clone, Copy, Debug, PartialEq, Eq, Structural)]
pub enum CompileError {
    /// A loop-open bracket was never closed by the end of the scan.
    UnmatchedOpen,
    /// A loop-close bracket had no preceding open bracket to match.
    UnmatchedClose,
}

/// Why a run was abandoned by the execution engine.
///
/// The source language leaves a pointer move below cell zero undefined; this
/// engine treats it, and a move past the largest addressable cell, as a fatal
/// runtime fault instead of wrapping the pointer around.
#[derive(Clone, Copy, Debug, PartialEq, Eq, Structural)]
pub enum RuntimeError {
    /// A pointer move left the addressable range of the tape.
    PointerOutOfRange,
    /// The driver gave up after stepping `u64::MAX` times without halting.
    StepLimitExceeded,
}

/// Why the accumulated output could not be surfaced as text.
#[derive(Clone, Copy, Debug, PartialEq, Eq, Structural)]
pub enum EncodingError {
    /// The output bytes are not valid UTF-8.
    InvalidUtf8,
}

impl CompileError {
    /// A short human-readable description of the error.
    pub fn message(&self) -> (r: &'static str)
        ensures
            r@.len() > 0,
    {
        let r = match self {
            CompileError::UnmatchedOpen => "unmatched [ found in the program",
            CompileError::UnmatchedClose => "unmatched ] found in the program",
        };
        proof {
            reveal_strlit("unmatched [ found in the program");
            reveal_strlit("unmatched ] found in the program");
        }
        r
    }
}

impl RuntimeError {
    /// A short human-readable description of the error.
    pub fn message(&self) -> (r: &'static str)
        ensures
            r@.len() > 0,
    {
        let r = match self {
            RuntimeError::PointerOutOfRange => "pointer moved outside the tape",
            RuntimeError::StepLimitExceeded => "step limit exceeded before the program halted",
        };
        proof {
            reveal_strlit("pointer moved outside the tape");
            reveal_strlit("step limit exceeded before the program halted");
        }
        r
    }
}

impl EncodingError {
    /// A short human-readable description of the error.
    pub fn message(&self) -> (r: &'static str)
        ensures
            r@.len() > 0,
    {
        let r = match self {
            EncodingError::InvalidUtf8 => "output bytes are not valid UTF-8",
        };
        proof {
            reveal_strlit("output bytes are not valid UTF-8");
        }
        r
    }
}

} // verus!
