//! Program-level failures. Every one of these makes the current frame
//! finalize with success set to false.
use vstd::prelude::*;

verus! {

/// The reasons a frame reverts.
#[derive(Debug, PartialEq, Eq, Structural)]
pub enum VmError {
    /// A push was attempted on a full stack.
    StackOverflow,
    /// A pop or peek was attempted past the bottom of the stack.
    StackUnderflow,
    /// A jump targeted anything but a reachable JUMPDEST byte.
    InvalidJump,
    /// The decoded byte names no instruction.
    InvalidOpcode,
    /// A state-mutating instruction ran inside a static frame.
    StaticViolation,
    /// A transfer asked for more than the sender holds.
    InsufficientBalance,
    /// An operand (an offset, size or jump target) does not fit the
    /// machine's address range. Such values can never name real memory or
    /// code, so the frame reverts where an unchecked interpreter would
    /// abort the whole host process.
    OutOfRange,
}

impl VmError {
    /// A short name for diagnostics.
    pub fn describe(&self) -> &'static str {
        match self {
            VmError::StackOverflow => "stack overflow",
            VmError::StackUnderflow => "stack underflow",
            VmError::InvalidJump => "invalid jump destination",
            VmError::InvalidOpcode => "invalid opcode",
            VmError::StaticViolation => "write in static context",
            VmError::InsufficientBalance => "insufficient balance",
            VmError::OutOfRange => "operand out of range",
        }
    }
}

} // verus!
