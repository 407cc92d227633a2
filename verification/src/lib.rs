//! A verified interpreter core for the CHIP-8 instruction set.
//!
//! The machine state (registers, memory, stack, timers, framebuffer and
//! key latches) lives in [`machine::Emu`]; the semantics of every opcode
//! is given by the specification functions in [`step`], and the
//! fetch/decode/execute cycle is implemented and verified against them
//! in [`cpu`].

pub mod cpu;
pub mod laws;
pub mod machine;
pub mod step;

pub use machine::Emu;
pub use machine::EmuError;
pub use machine::SCREEN_HEIGHT;
pub use machine::SCREEN_WIDTH;
