//! The command type table of the wire protocol.

use vstd::prelude::*;

verus! {

/// Greeting; echoed back with the fixed greeting payload semantics.
pub const HELLO: u8 = 1;

/// Reseed the simulation with a fresh random generation.
pub const CREATE_NEW_GOL_GENERATION: u8 = 40;

/// Turn one randomly chosen cell alive.
pub const AWAKEN_RANDOM_GOL_CELL: u8 = 41;

/// Turn one randomly chosen cell dead.
pub const KILL_RANDOM_GOL_CELL: u8 = 42;

/// Advance the simulation by one generation.
pub const ADVANCE_GOL_GENERATION: u8 = 43;

/// Clear the whole grid and reset the generation counter.
pub const KILL_ALL_GOL_CELLS: u8 = 45;

/// Restart the decorative painting from its blank canvas.
pub const CREATE_NEW_MLP_PAINTING: u8 = 20;

/// Apply a batch of strokes to the decorative painting.
pub const ADVANCE_MLP_PAINTING: u8 = 21;

/// Turn alive the cell named by the payload's (x, y) pair.
pub const REQUEST_RANDOM_COLORED_PIXEL: u8 = 200;

/// Outbound: one pixel changed (payload: x, y big-endian u16 each, then r, g, b).
pub const DRAW_PIXEL: u8 = 100;

/// Outbound: a full canvas frame (payload: width, height big-endian u16 each,
/// then width*height*3 RGB bytes).
pub const DRAW_FRAME: u8 = 101;

} // verus!
