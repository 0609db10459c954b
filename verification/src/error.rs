//! Error kinds raised by the CHIP-8 virtual machine.
//!
//! Every error is fatal to the running session: the frame loop propagates it
//! to its caller and halts.

use vstd::prelude::*;

verus! {

/// The failure conditions of the virtual machine.
#[derive(Clone, Copy, Debug, PartialEq, Eq, Structural)]
pub enum Chip8Error {
    /// A memory read or write addressed a byte at or beyond the end of memory.
    OutOfBoundsMemoryAccess,
    /// A program image does not fit between the load address and the end of memory.
    ProgramTooLarge,
    /// A subroutine return was executed while the call stack was empty.
    StackUnderflow,
    /// The decoder could not classify an instruction word; carries the raw word.
    UnsupportedOpcode(u16),
    /// A register index outside 0..=15 was used (defensive; unreachable from
    /// decoded instructions, whose register fields are 4 bits wide).
    InvalidRegisterIndex,
    /// A key lookup was attempted with a value above 15.
    InvalidKeyIndex,
}

} // verus!
