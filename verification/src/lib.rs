//! An interpreter for a small 8-bit virtual machine: sixteen byte registers,
//! 4 KiB of flat memory, a sixteen-entry call stack, two countdown timers, a
//! 64x32 monochrome framebuffer and a sixteen-key keypad.
//!
//! The machine's behaviour is defined mathematically in [`semantics`] over the
//! abstract [`state::State`]; [`machine::Machine`] is the executable
//! interpreter, proved to follow that definition step by step.

pub mod laws;
pub mod machine;
mod partial;
pub mod rng;
pub mod semantics;
pub mod state;
mod wrap;

pub use machine::{LoadError, Machine};
