//! An interpreter core for the CHIP-8 virtual machine: machine state, the
//! fetch-decode-execute cycle and the countdown timers.

pub mod error;
pub mod font;
pub mod model;
pub mod emulator;
pub mod laws;

pub use emulator::Emulator;
pub use error::Chip8Error;
