//! The errors a step of the interpreter can surface.

use vstd::prelude::*;

verus! {

/// An error reported by a renderer, surfaced unchanged through `step`.
#[derive(Debug, Clone, Copy, PartialEq, Eq, Structural)]
pub struct RenderError;

/// Every failure a core operation can report. None of these is ever
/// downgraded to a default value: each aborts the current step.
#[derive(Debug, Clone, Copy, PartialEq, Eq, Structural)]
pub enum EmulatorError {
    /// A memory address or register index outside its valid range.
    OutOfBounds,
    /// An operation the machine's current state cannot honour, such as a
    /// return with an empty call stack.
    InvalidState,
    /// A decoded opcode/operand combination outside the defined set.
    UnknownInstruction,
    /// A renderer failure, carried through unchanged.
    Render(RenderError),
}

} // verus!
