//! Core logic of a microcontroller block-stacking game: piece geometry,
//! a bit-packed playfield with collision tests and row clearing, the
//! tick-driven game state machine, debounced button input feeding a
//! lock-free queue, the LED-matrix rendering and wire protocol, and the
//! persisted high-score list.
//!
//! Hardware access (SPI bus writes, GPIO interrupts, the monotonic timer)
//! stays outside this crate; every function here works on plain values.

pub mod blocks;
pub mod display;
pub mod highscore;
pub mod input;
pub mod logic;
pub mod max72xx;
pub mod piece;
pub mod render;

use vstd::prelude::*;

verus! {

/// Width of the logical display and of the playfield, in pixels.
pub const DISPLAY_WIDTH: u8 = 8;

/// Height of the logical display and of the playfield, in pixels
/// (a vertical cascade of four 8x8 modules).
pub const DISPLAY_HEIGHT: u8 = 32;

} // verus!
