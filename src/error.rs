use vstd::prelude::*;

verus! {

/// Failures reported to the host loop.
#[derive(Clone, Copy, Debug, PartialEq, Eq, Structural)]
pub enum Chip8Error {
    /// A program does not fit in the memory above the load address.
    RomTooLarge,
    /// The fetched word matches no instruction; it carries the raw opcode.
    UnknownOpcode(u16),
    /// A call was made with all sixteen stack slots in use.
    StackOverflow,
    /// A return was made with an empty call stack.
    StackUnderflow,
    /// The program counter points past the last full instruction word.
    PcOutOfBounds(u16),
    /// An access through the index register would leave memory.
    AddressOutOfBounds(u16),
}

} // verus!
