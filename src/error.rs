use vstd::prelude::*;

verus! {

/// Failures of loading or running a program. All of them end the current run.
#[derive(Debug, PartialEq, Eq)]
pub enum Error {
    /// Reading the program failed; carries the reader's message.
    IOError(String),
    /// The program does not fit in memory.
    InvalidROM,
    /// Execution ran past the loaded program.
    EndOfROM,
    /// The fetched word is not an instruction; carries the word.
    UnknownInstruction(u16),
    /// A call was made with all sixteen stack slots in use.
    StackOverflow,
    /// A return was made with an empty call stack.
    StackUnderflow,
    /// A failure of the driver around the machine; carries its message.
    Unexpected(String),
}

} // verus!
