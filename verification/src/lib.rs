//! A CHIP-8 virtual machine with verified contracts.
//!
//! The library models the machine state (memory, registers, call stack,
//! timers, framebuffer, keypad), decodes 16-bit instruction words into a
//! closed operation type, and executes each operation with bit-exact,
//! specified semantics. The frame loop around it (terminal rendering, audio,
//! host input, file loading) lives outside the library and only exchanges
//! plain values with it.

pub mod display;
pub mod emulator;
pub mod error;
pub mod instruction;
pub mod state;
