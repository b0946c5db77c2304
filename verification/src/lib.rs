//! Components of a CHIP-8 interpreter: bounds-checked memory, saturating
//! timers, an instruction decoder, the CPU dispatch engine and an emulator
//! that drives them, each with a verified contract.

pub mod cpu;
pub mod display;
pub mod emulator;
pub mod error;
pub mod instruction;
pub mod ram;
pub mod timer;
