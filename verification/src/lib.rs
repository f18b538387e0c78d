//! A verified CHIP-8 virtual machine core: 4KB memory, sixteen general
//! registers, a bounded call stack, two 60 Hz countdown timers, and a
//! 64x32 monochrome display written by XOR sprite blits.
//!
//! The host (window, input, presentation) lives outside this crate; it
//! feeds the core raw program bytes and reads back the frame buffer.
use vstd::prelude::*;

pub mod bits;
pub mod display;
pub mod machine;
pub mod memory;
pub mod registers;
pub mod timer;

verus! {

/// Number of addressable bytes of guest memory.
pub const MEM_SIZE: usize = 0x1000;

/// First address of the program region.
pub const PROG_START: usize = 0x200;

/// Largest program that fits between `PROG_START` and the end of memory.
pub const MAX_PROGRAM_SIZE: usize = 0xE00;

/// First address of the built-in font table.
pub const FONT_MEMORY_START: usize = 0x50;

/// Width of the display in pixels.
pub const DISPLAY_WIDTH: usize = 64;

/// Height of the display in pixels.
pub const DISPLAY_HEIGHT: usize = 32;

} // verus!
