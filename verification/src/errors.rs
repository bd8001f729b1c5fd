//! The failure taxonomy of the interpreter core.

use vstd::prelude::*;
use vstd::string::StringExecFns;

verus! {

/// The conditions the core can surface to its caller.
#[derive(Clone, Copy, Debug, PartialEq, Eq, Structural)]
pub enum BefungeError {
    /// An opcode value outside the single-byte range, or not matching any
    /// recognized opcode.  Recoverable per the configured policy.
    InvalidOperation,
    /// The character-input opcode found no buffered input; the caller may
    /// prompt for more and resume.
    InputExhausted,
    /// The numeric-input opcode, which has no implementation and must fail
    /// loudly rather than silently corrupt program semantics.
    Unimplemented,
    /// A cell value that cannot be written to the textual program format.
    SerializationMismatch,
}

impl BefungeError {
    /// A short human-readable description of the condition.
    pub fn describe(&self) -> (r: String)
        ensures
            self is InvalidOperation ==> r@ == "invalid operation"@,
            self is InputExhausted ==> r@ == "input exhausted"@,
            self is Unimplemented ==> r@ == "unimplemented operation"@,
            self is SerializationMismatch ==> r@ == "value not serializable"@,
    {
        match self {
            BefungeError::InvalidOperation => String::from_str("invalid operation"),
            BefungeError::InputExhausted => String::from_str("input exhausted"),
            BefungeError::Unimplemented => String::from_str("unimplemented operation"),
            BefungeError::SerializationMismatch => String::from_str("value not serializable"),
        }
    }
}

} // verus!
