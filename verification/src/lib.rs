pub mod cpu;
pub mod instruction;
pub mod keyboard;
mod rng;

use vstd::prelude::*;

verus! {

/// Number of pixel rows in the display buffer.
pub const CHIP8_HEIGHT: usize = 32;

/// Number of pixel columns in the display buffer.
pub const CHIP8_WIDTH: usize = 64;

} // verus!
