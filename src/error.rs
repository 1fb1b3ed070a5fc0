//! Errors that stop one step of the machine.
use vstd::prelude::*;

verus! {

/// Why an instruction step could not complete.
#[derive(Debug, Clone, Copy, PartialEq, Eq, Structural)]
pub enum EmuError {
    /// The operand text does not follow the addressing-mode grammar.
    MalformedOperand,
    /// A register name that the register file does not know.
    UnknownRegister,
    /// An instruction or operand combination that the engine does not execute.
    NotImplemented,
    /// An access reaches past the end of physical memory.
    OutOfBounds,
    /// A page-table level on the walk is not present.
    PageFault,
}

} // verus!
