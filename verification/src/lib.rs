//! A verified CHIP-8 interpreter core.
//!
//! The machine state (memory, registers, call stack, timers, framebuffer,
//! keypad) lives in [`cpu::Chip8`]; its mathematical model is
//! [`semantics::State`], and every instruction's effect is specified by
//! [`semantics::step_spec`]. Host concerns (window, real keyboard, ROM
//! files) stay outside this crate.

pub mod cpu;
pub mod decode;
pub mod laws;
mod rng;
pub mod semantics;

pub use cpu::Chip8;
pub use decode::Instr;
pub use semantics::Chip8Error;
pub use semantics::State;
