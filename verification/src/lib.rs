//! A verified CHIP-8 interpreter core.
//!
//! The [`Emu`] machine owns all interpreter state: 4 KiB of memory with the
//! font sprite table at address 0, sixteen 8-bit registers, a 16-bit index
//! register and program counter, a bounded call stack, a 64x32 monochrome
//! framebuffer, a 16-key keypad, and two countdown timers.
//!
//! A host drives the machine: it calls [`Emu::tick`] once per emulated CPU
//! cycle (one fetch/decode/execute step) and [`Emu::tick_timers`] on an
//! independent fixed cadence, paints the framebuffer from
//! [`Emu::get_display`], and feeds key events through [`Emu::set_key`].
//! The interpreter itself performs no I/O.
//!
//! Every instruction's effect on the machine state is stated by the spec
//! transition function [`step::spec_execute`]; `tick`'s contract ties the
//! executable interpreter to that function. Failures (unknown opcode, stack
//! overflow or underflow, out-of-bounds memory access) are returned as typed
//! errors and leave the state as it was after the fetch.

use vstd::prelude::*;

pub mod state;
pub mod step;
pub mod draw;
pub mod exec;
pub mod rng;
pub mod laws;

pub use state::{Emu, Chip8Error, StateV};

verus! {

/// Framebuffer width in pixels.
pub const SCREEN_WIDTH: usize = 64;

/// Framebuffer height in pixels.
pub const SCREEN_HEIGHT: usize = 32;

/// Number of framebuffer cells (row-major).
pub const SCREEN_SIZE: usize = 2048;

/// Bytes of machine memory.
pub const RAM_SIZE: usize = 4096;

/// Number of general-purpose registers V0..VF.
pub const NUM_REGS: usize = 16;

/// Capacity of the call stack.
pub const STACK_SIZE: usize = 16;

/// Number of keypad keys.
pub const NUM_KEYS: usize = 16;

/// Address at which program bytes are loaded and execution starts.
pub const START_ADDR: u16 = 0x200;

/// Bytes occupied by the font sprite table at address 0.
pub const FONTSET_SIZE: usize = 80;

} // verus!
