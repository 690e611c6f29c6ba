//! A verified CHIP-8 virtual machine.
//!
//! The machine state, the instruction decoder, the instruction executor and
//! the cycle driver live here; rendering, key polling, audio and ROM file
//! loading are left to the host, which exchanges plain values with the core.

pub mod state;
pub mod decode;
pub mod step;
pub mod cpu;
pub mod laws;

pub use cpu::Chip8;
pub use cpu::CycleOutcome;
pub use decode::Instruction;
pub use state::Chip8Error;
