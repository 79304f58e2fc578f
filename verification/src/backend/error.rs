use vstd::prelude::*;

use super::instruction::Instruction;

verus! {

/// What went wrong while loading a program or executing an instruction.
#[derive(Clone, Copy, Debug, PartialEq, Eq, Structural)]
pub enum BackendErrorKind {
    MemoryOverflow,
    ProgramInvalid,
    ProgramNotLoaded,
    StackOverflow,
    StackUnderflow,
    UnrecognizedInstruction,
    UnrecognizedKey,
    UnrecognizedSprite,
    DisplayNotConnected,
}

/// An error raised by a backend, together with the address and, when it
/// was decoded, the instruction word that caused it.
#[derive(Clone, Copy, Debug, PartialEq, Eq)]
pub struct BackendError {
    pub instruction: Option<(usize, Option<Instruction>)>,
    pub kind: BackendErrorKind,
}

impl BackendError {
    /// Whether the host should stop emulation over this: a memory
    /// fault, an invalid program or a tick without one loaded. The
    /// other kinds are transient and worth no more than a log line.
    pub fn is_fatal(&self) -> (r: bool)
        ensures
            r == (self.kind == BackendErrorKind::MemoryOverflow || self.kind
                == BackendErrorKind::ProgramInvalid || self.kind
                == BackendErrorKind::ProgramNotLoaded),
    {
        matches!(
            self.kind,
            BackendErrorKind::MemoryOverflow
                | BackendErrorKind::ProgramInvalid
                | BackendErrorKind::ProgramNotLoaded
        )
    }
}

} // verus!
