//! Fixed parameters of the canvas and of the pixel encoding.

use vstd::prelude::*;

verus! {

/// Width of the shared canvas, in cells/pixels.
pub const CANVAS_WIDTH: u16 = 100;

/// Height of the shared canvas, in cells/pixels.
pub const CANVAS_HEIGHT: u16 = 100;

/// Byte length of a pixel-message payload: x (2 bytes), y (2 bytes), r, g, b.
pub const PIXEL_PAYLOAD_SIZE: usize = 7;

/// Color of a live cell when a fixed color is wanted instead of a random one.
pub const LIVE_CELL_R: u8 = 0;

/// See `LIVE_CELL_R`.
pub const LIVE_CELL_G: u8 = 0;

/// See `LIVE_CELL_R`.
pub const LIVE_CELL_B: u8 = 0;

/// Red component of the color every dead cell renders as.
pub const DEAD_CELL_R: u8 = 255;

/// Green component of the color every dead cell renders as.
pub const DEAD_CELL_G: u8 = 255;

/// Blue component of the color every dead cell renders as.
pub const DEAD_CELL_B: u8 = 255;

/// The payload a greeting echo carries: the bytes of "hello".
pub open spec fn spec_hello_payload() -> Seq<u8> {
    seq![104u8, 101u8, 108u8, 108u8, 111u8]
}

/// Builds the greeting payload.
pub fn hello_payload() -> (r: Vec<u8>)
    ensures
        r@ == spec_hello_payload(),
{
    let mut v: Vec<u8> = Vec::new();
    v.push(104);
    v.push(101);
    v.push(108);
    v.push(108);
    v.push(111);
    proof {
        assert(v@ =~= spec_hello_payload());
    }
    v
}

} // verus!
