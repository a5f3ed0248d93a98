//! The command dispatcher: maps one decoded wire message to exactly one
//! outbound encoded message, invoking the simulation or the painting.
//!
//! `dispatch_post` states, per command type, what the dispatcher did to the
//! shared state and what the reply holds. Commands whose effect is random
//! (random cell, random batch size, random accent color) are specified by a
//! witness that every outcome satisfies.

use vstd::prelude::*;
use crate::codec::{
    clone_bytes, encodable, spec_encode, encode_ws_message, PROTOCOL_VERSION, WireModel, WsMessage,
};
use crate::color::{create_random_rgb, Rgb};
use crate::constants::{CANVAS_HEIGHT, CANVAS_WIDTH, spec_hello_payload, hello_payload};
use crate::grid::{cells_updated, stepped, GameOfLifeBits};
use crate::message_types;
use crate::painting::{
    apply_batch, apply_one, blank_canvas, paint_point, painting_pixel, stroke_result,
    MonaLisaPainting, PaintingModel,
};
use crate::rng::{random_i16_in, random_u16_below, random_usize_below};

verus! {

/// High byte of a big-endian `u16`.
pub open spec fn be16_hi(n: u16) -> u8 {
    (n >> 8) as u8
}

/// Low byte of a big-endian `u16`.
pub open spec fn be16_lo(n: u16) -> u8 {
    (n & 0xff) as u8
}

/// The payload of a pixel message: coordinates big-endian, then the color.
pub open spec fn spec_pixel_payload(x: u16, y: u16, r: u8, g: u8, b: u8) -> Seq<u8> {
    seq![be16_hi(x), be16_lo(x), be16_hi(y), be16_lo(y), r, g, b]
}

/// The encoded pixel message for `(x, y)` in color `(r, g, b)`.
pub open spec fn spec_pixel_message(x: u16, y: u16, r: u8, g: u8, b: u8) -> Seq<u8> {
    spec_encode(WireModel {
        version: PROTOCOL_VERSION,
        msg_type: message_types::DRAW_PIXEL,
        flags: 0,
        payload: spec_pixel_payload(x, y, r, g, b),
    })
}

/// The payload of a frame message: the dimensions big-endian, then the
/// row-major RGB bytes.
pub open spec fn spec_frame_payload(width: u16, height: u16, data: Seq<u8>) -> Seq<u8> {
    seq![be16_hi(width), be16_lo(width), be16_hi(height), be16_lo(height)] + data
}

/// The encoded frame message carrying `data` for the fixed canvas.
pub open spec fn spec_frame_message(data: Seq<u8>) -> Seq<u8> {
    spec_encode(WireModel {
        version: PROTOCOL_VERSION,
        msg_type: message_types::DRAW_FRAME,
        flags: 0,
        payload: spec_frame_payload(CANVAS_WIDTH, CANVAS_HEIGHT, data),
    })
}

/// The encoded echo of a message: same type and payload, version fixed,
/// flags cleared.
pub open spec fn spec_echo_message(m: WireModel) -> Seq<u8> {
    spec_encode(WireModel {
        version: PROTOCOL_VERSION,
        msg_type: m.msg_type,
        flags: 0,
        payload: m.payload,
    })
}

/// A frame whose RGB bytes render grid `g`: dead cells in the fixed white,
/// live cells each in some accent color below white.
pub open spec fn frame_witness_for_grid(out: Seq<u8>, data: Seq<u8>, g: GameOfLifeBits) -> bool {
    &&& out == spec_frame_message(data)
    &&& data.len() == g.width as int * g.height as int * 3
    &&& forall|x: int, y: int|
        0 <= x < g.width && 0 <= y < g.height ==> #[trigger] crate::grid::pixel_rendered(
            data, g.width as int, x, y, g.cell(x, y))
}

/// `out` is a frame message rendering grid `g`.
pub open spec fn is_frame_message_for_grid(out: Seq<u8>, g: GameOfLifeBits) -> bool {
    exists|data: Seq<u8>| frame_witness_for_grid(out, data, g)
}

/// A frame whose RGB bytes are exactly the painting's canvas.
pub open spec fn frame_witness_for_painting(out: Seq<u8>, data: Seq<u8>, p: PaintingModel) -> bool {
    &&& out == spec_frame_message(data)
    &&& data.len() == p.width() * p.height() * 3
    &&& forall|x: int, y: int|
        0 <= x < p.width() && 0 <= y < p.height() ==> #[trigger] painting_pixel(
            data, p.width(), x, y, p.canvas[y][x])
}

/// `out` is a frame message rendering painting state `p`.
pub open spec fn is_frame_message_for_painting(out: Seq<u8>, p: PaintingModel) -> bool {
    exists|data: Seq<u8>| frame_witness_for_painting(out, data, p)
}

/// Builds the encoded pixel message for one on-canvas pixel.
pub fn create_pixel_message(x: u16, y: u16, r: u8, g: u8, b: u8) -> (msg: Vec<u8>)
    requires
        x < CANVAS_WIDTH,
        y < CANVAS_HEIGHT,
    ensures
        msg@ == spec_pixel_message(x, y, r, g, b),
{
    proof {
        assert(x >> 8 <= 0xff && x & 0xff <= 0xff) by (bit_vector);
        assert(y >> 8 <= 0xff && y & 0xff <= 0xff) by (bit_vector);
    }
    let mut payload: Vec<u8> = Vec::with_capacity(crate::constants::PIXEL_PAYLOAD_SIZE);
    payload.push((x >> 8) as u8);
    payload.push((x & 0xff) as u8);
    payload.push((y >> 8) as u8);
    payload.push((y & 0xff) as u8);
    payload.push(r);
    payload.push(g);
    payload.push(b);
    proof {
        assert(payload@ =~= spec_pixel_payload(x, y, r, g, b));
    }
    let msg = WsMessage {
        version: PROTOCOL_VERSION,
        msg_type: message_types::DRAW_PIXEL,
        flags: 0,
        payload,
    };
    encode_ws_message(&msg)
}

/// Builds the encoded frame message around full-canvas RGB data.
pub fn create_frame_message(frame_data: Vec<u8>) -> (msg: Vec<u8>)
    requires
        frame_data@.len() == CANVAS_WIDTH as int * CANVAS_HEIGHT as int * 3,
    ensures
        msg@ == spec_frame_message(frame_data@),
{
    let w = CANVAS_WIDTH;
    let h = CANVAS_HEIGHT;
    proof {
        assert(w >> 8 <= 0xff && w & 0xff <= 0xff) by (bit_vector);
        assert(h >> 8 <= 0xff && h & 0xff <= 0xff) by (bit_vector);
    }
    let mut frame_data = frame_data;
    let mut payload: Vec<u8> = Vec::with_capacity(4 + frame_data.len());
    payload.push((w >> 8) as u8);
    payload.push((w & 0xff) as u8);
    payload.push((h >> 8) as u8);
    payload.push((h & 0xff) as u8);
    let ghost data = frame_data@;
    payload.append(&mut frame_data);
    proof {
        assert(payload@ =~= spec_frame_payload(CANVAS_WIDTH, CANVAS_HEIGHT, data));
    }
    let msg = WsMessage {
        version: PROTOCOL_VERSION,
        msg_type: message_types::DRAW_FRAME,
        flags: 0,
        payload,
    };
    encode_ws_message(&msg)
}

/// The fixed greeting message.
pub fn get_dummy_payload() -> (msg: Vec<u8>)
    ensures
        msg@ == spec_encode(WireModel {
            version: PROTOCOL_VERSION,
            msg_type: message_types::HELLO,
            flags: 0,
            payload: spec_hello_payload(),
        }),
{
    let response = WsMessage {
        version: PROTOCOL_VERSION,
        msg_type: message_types::HELLO,
        flags: 0,
        payload: hello_payload(),
    };
    encode_ws_message(&response)
}

/// The engine the command layer works on: the fixed canvas dimensions.
pub open spec fn canvas_engine(e: GameOfLifeBits) -> bool {
    e.wf() && e.width == CANVAS_WIDTH && e.height == CANVAS_HEIGHT
}

/// The painting the command layer works on: the fixed canvas dimensions.
pub open spec fn canvas_painting(p: MonaLisaPainting) -> bool {
    p.wf() && p.width == CANVAS_WIDTH as usize && p.height == CANVAS_HEIGHT as usize
}

/// A full-canvas frame of the current generation.
pub fn current_generation(engine: &GameOfLifeBits) -> (out: Vec<u8>)
    requires
        canvas_engine(*engine),
    ensures
        is_frame_message_for_grid(out@, *engine),
{
    let frame_data = engine.to_rgb_data();
    let ghost data = frame_data@;
    let out = create_frame_message(frame_data);
    proof {
        assert(frame_witness_for_grid(out@, data, *engine));
    }
    out
}

/// Everything `awaken_random_cell` promises of one outcome: which cell was
/// lit and that the reply is the pixel message for it, in some accent color.
pub open spec fn awaken_random_witness(
    pre: GameOfLifeBits,
    post: GameOfLifeBits,
    out: Seq<u8>,
    x: u16,
    y: u16,
    c: Rgb,
) -> bool {
    &&& x < pre.width && y < pre.height
    &&& post.wf() && post.same_shape(pre)
    &&& post.generation_count == pre.generation_count
    &&& cells_updated(pre, post, x as int, y as int, true)
    &&& c.r < 255 && c.g < 255 && c.b < 255
    &&& out == spec_pixel_message(x, y, c.r, c.g, c.b)
}

/// Turns a random cell alive and replies with its pixel message in a random
/// accent color.
pub fn awaken_random_cell(engine: &mut GameOfLifeBits) -> (out: Vec<u8>)
    requires
        canvas_engine(*old(engine)),
    ensures
        canvas_engine(*final(engine)),
        exists|w: (u16, u16, Rgb)|
            #[trigger] awaken_random_witness(*old(engine), *final(engine), out@, w.0, w.1, w.2),
{
    let (x, y) = engine.awaken_random_cell();
    let c = create_random_rgb();
    let out = create_pixel_message(x, y, c.r, c.g, c.b);
    proof {
        let w = (x, y, c);
        assert(awaken_random_witness(*old(engine), *engine, out@, w.0, w.1, w.2));
    }
    out
}

/// Everything `awaken_cell` promises: the named cell was lit and the reply
/// is its pixel message in some accent color.
pub open spec fn awaken_cell_witness(
    pre: GameOfLifeBits,
    post: GameOfLifeBits,
    out: Seq<u8>,
    x: u16,
    y: u16,
    c: Rgb,
) -> bool {
    &&& post.wf() && post.same_shape(pre)
    &&& post.generation_count == pre.generation_count
    &&& cells_updated(pre, post, x as int, y as int, true)
    &&& post.cell(x as int, y as int)
    &&& c.r < 255 && c.g < 255 && c.b < 255
    &&& out == spec_pixel_message(x, y, c.r, c.g, c.b)
}

/// Turns the named cell alive and replies with its pixel message in a random
/// accent color.
pub fn awaken_cell(engine: &mut GameOfLifeBits, x: u16, y: u16) -> (out: Vec<u8>)
    requires
        canvas_engine(*old(engine)),
        x < old(engine).width,
        y < old(engine).height,
    ensures
        canvas_engine(*final(engine)),
        exists|c: Rgb| #[trigger] awaken_cell_witness(*old(engine), *final(engine), out@, x, y, c),
{
    engine.awaken_cell_in(x, y);
    let c = create_random_rgb();
    let out = create_pixel_message(x, y, c.r, c.g, c.b);
    proof {
        assert(awaken_cell_witness(*old(engine), *engine, out@, x, y, c));
    }
    out
}

/// Everything `kill_random_cell` promises: which cell was cleared, and that
/// the reply is its pixel message in the fixed dead-cell white.
pub open spec fn kill_random_witness(
    pre: GameOfLifeBits,
    post: GameOfLifeBits,
    out: Seq<u8>,
    x: u16,
    y: u16,
) -> bool {
    &&& x < pre.width && y < pre.height
    &&& post.wf() && post.same_shape(pre)
    &&& post.generation_count == pre.generation_count
    &&& cells_updated(pre, post, x as int, y as int, false)
    &&& out == spec_pixel_message(x, y, 255, 255, 255)
}

/// Turns a random cell dead and replies with its pixel message in the fixed
/// dead-cell white.
pub fn kill_random_cell(engine: &mut GameOfLifeBits) -> (out: Vec<u8>)
    requires
        canvas_engine(*old(engine)),
    ensures
        canvas_engine(*final(engine)),
        exists|w: (u16, u16)|
            #[trigger] kill_random_witness(*old(engine), *final(engine), out@, w.0, w.1),
{
    let (x, y) = engine.kill_random_cell();
    let out = create_pixel_message(x, y, crate::constants::DEAD_CELL_R,
        crate::constants::DEAD_CELL_G, crate::constants::DEAD_CELL_B);
    proof {
        let w = (x, y);
        assert(kill_random_witness(*old(engine), *engine, out@, w.0, w.1));
    }
    out
}

/// Clears the whole grid and replies with a frame of the now-empty canvas.
pub fn kill_all_cells(engine: &mut GameOfLifeBits) -> (out: Vec<u8>)
    requires
        canvas_engine(*old(engine)),
    ensures
        canvas_engine(*final(engine)),
        final(engine).same_shape(*old(engine)),
        final(engine).generation_count == 0,
        forall|x: int, y: int| !(#[trigger] final(engine).cell(x, y)),
        is_frame_message_for_grid(out@, *final(engine)),
{
    engine.kill_all_cells();
    current_generation(engine)
}

/// Reseeds the grid with a fresh random generation and replies with its frame.
pub fn create_new_generation(engine: &mut GameOfLifeBits) -> (out: Vec<u8>)
    requires
        canvas_engine(*old(engine)),
    ensures
        canvas_engine(*final(engine)),
        final(engine).same_shape(*old(engine)),
        final(engine).generation_count == 0,
        is_frame_message_for_grid(out@, *final(engine)),
{
    reset_game_of_life_random(engine);
    current_generation(engine)
}

/// Advances the simulation one generation and replies with its frame.
pub fn advance_generation(engine: &mut GameOfLifeBits) -> (out: Vec<u8>)
    requires
        canvas_engine(*old(engine)),
        old(engine).generation_count < u64::MAX,
    ensures
        canvas_engine(*final(engine)),
        stepped(*old(engine), *final(engine)),
        is_frame_message_for_grid(out@, *final(engine)),
{
    engine.step();
    current_generation(engine)
}

/// Reseeds the grid with a random pattern at generation 0.
pub fn reset_game_of_life_random(engine: &mut GameOfLifeBits)
    requires
        old(engine).wf(),
    ensures
        final(engine).wf(),
        final(engine).same_shape(*old(engine)),
        final(engine).generation_count == 0,
{
    engine.initialize_random();
}

/// Resets the grid to the glider pattern at generation 0.
pub fn reset_game_of_life_glider(engine: &mut GameOfLifeBits)
    requires
        old(engine).wf(),
    ensures
        final(engine).wf(),
        final(engine).same_shape(*old(engine)),
        final(engine).generation_count == 0,
        forall|x: int, y: int|
            #[trigger] final(engine).cell(x, y) == (crate::grid::glider_lit(x, y) && x < old(
            engine).width && y < old(engine).height),
{
    engine.initialize_glider();
}

/// Resets the grid to the centered blinker pattern at generation 0.
pub fn reset_game_of_life_blinker(engine: &mut GameOfLifeBits)
    requires
        old(engine).wf(),
    ensures
        final(engine).wf(),
        final(engine).same_shape(*old(engine)),
        final(engine).generation_count == 0,
        forall|x: int, y: int|
            #[trigger] final(engine).cell(x, y) == crate::grid::blinker_lit(
                old(engine).width as int, old(engine).height as int, x, y),
{
    engine.initialize_blinker();
}

/// A full-canvas frame of the painting as it stands.
pub fn current_painting_frame(painting: &MonaLisaPainting) -> (out: Vec<u8>)
    requires
        canvas_painting(*painting),
    ensures
        is_frame_message_for_painting(out@, painting@),
{
    let frame_data = painting.to_rgb_data();
    let ghost data = frame_data@;
    let out = create_frame_message(frame_data);
    proof {
        assert(frame_witness_for_painting(out@, data, painting@));
    }
    out
}

/// Rewinds the painting to its blank canvas and replies with its frame.
pub fn start_new_painting(painting: &mut MonaLisaPainting) -> (out: Vec<u8>)
    requires
        canvas_painting(*old(painting)),
    ensures
        canvas_painting(*final(painting)),
        final(painting)@.canvas == blank_canvas(old(painting).width as int,
            old(painting).height as int),
        final(painting)@.strokes == old(painting)@.strokes,
        final(painting)@.current_stroke == 0,
        !final(painting)@.complete,
        is_frame_message_for_painting(out@, final(painting)@),
{
    painting.reset();
    current_painting_frame(painting)
}

/// Applies the next stroke: replies with the pixel message of the last point
/// painted, or with a full frame when the stroke painted nothing (in
/// particular when the painting is complete).
pub fn apply_single_brush_stroke(painting: &mut MonaLisaPainting) -> (out: Vec<u8>)
    requires
        canvas_painting(*old(painting)),
    ensures
        canvas_painting(*final(painting)),
        final(painting)@ == apply_one(old(painting)@),
        (match stroke_result(old(painting)@) {
            Some(r) => out@ == spec_pixel_message(r.0 as u16, r.1 as u16, r.2.r, r.2.g, r.2.b),
            None => is_frame_message_for_painting(out@, final(painting)@),
        }),
{
    proof {
        crate::painting::lemma_stroke_result_in_range(old(painting)@);
        assert(old(painting)@.height() == old(painting).height);
        assert(old(painting)@.width() == old(painting).width);
    }
    let stroke_info = painting.apply_next_stroke();
    match stroke_info {
        Some(info) => {
            let (x, y, c) = info;
            create_pixel_message(x as u16, y as u16, c.r, c.g, c.b)
        },
        None => current_painting_frame(painting),
    }
}

/// Applies up to `count` strokes and replies with a full frame of the result.
pub fn apply_brush_strokes_batch(painting: &mut MonaLisaPainting, count: usize) -> (out: Vec<u8>)
    requires
        canvas_painting(*old(painting)),
    ensures
        canvas_painting(*final(painting)),
        final(painting)@ == apply_batch(old(painting)@, count as nat),
        is_frame_message_for_painting(out@, final(painting)@),
{
    painting.apply_multiple_strokes(count);
    current_painting_frame(painting)
}

/// Applies every remaining stroke (none when already complete) and replies
/// with a full frame of the result.
pub fn fast_forward_painting(painting: &mut MonaLisaPainting) -> (out: Vec<u8>)
    requires
        canvas_painting(*old(painting)),
    ensures
        canvas_painting(*final(painting)),
        old(painting)@.complete || old(painting)@.strokes.len() == old(painting)@.current_stroke
            ==> final(painting)@ == old(painting)@,
        !old(painting)@.complete && old(painting)@.strokes.len() > old(painting)@.current_stroke
            ==> final(painting)@ == apply_batch(old(painting)@, (old(painting)@.strokes.len()
            - old(painting)@.current_stroke) as nat),
        is_frame_message_for_painting(out@, final(painting)@),
{
    let remaining: usize = if painting.is_complete() {
        0
    } else {
        painting.remaining_strokes()
    };
    if remaining > 0 {
        painting.apply_multiple_strokes(remaining);
    }
    current_painting_frame(painting)
}

/// How far the reveal has come, in percent.
pub fn painting_progress(painting: &MonaLisaPainting) -> (r: usize)
    ensures
        r as int == painting@.reveal_progress,
{
    painting.progress_percentage()
}

/// Whether the whole stroke list has been applied.
pub fn is_painting_complete(painting: &MonaLisaPainting) -> (r: bool)
    ensures
        r == painting@.complete,
{
    painting.is_complete()
}

/// One color component nudged by `delta`, clamped to the byte range.
pub open spec fn nudged(component: u8, delta: int) -> u8 {
    if component + delta < 0 {
        0
    } else if component + delta > 255 {
        255
    } else {
        (component + delta) as u8
    }
}

fn nudge_component(component: u8, delta: i16) -> (r: u8)
    requires
        -255 <= delta <= 255,
    ensures
        r == nudged(component, delta as int),
{
    let v: i16 = component as i16 + delta;
    if v < 0 {
        0
    } else if v > 255 {
        255
    } else {
        v as u8
    }
}

/// Everything `add_random_detail_stroke` promises: one canvas pixel was
/// recolored to a small variation of its old color, and the reply is its
/// pixel message.
pub open spec fn detail_stroke_witness(
    pre: PaintingModel,
    post: PaintingModel,
    out: Seq<u8>,
    x: usize,
    y: usize,
    delta: int,
) -> bool {
    &&& 0 <= (x as int) < pre.width() && 0 <= (y as int) < pre.height()
    &&& -20 <= delta <= 20
    &&& {
        let old_c = pre.canvas[y as int][x as int];
        let new_c = Rgb {
            r: nudged(old_c.r, delta),
            g: nudged(old_c.g, delta),
            b: nudged(old_c.b, delta),
        };
        post == (PaintingModel { canvas: paint_point(pre.canvas, (x, y), new_c), ..pre })
            && out == spec_pixel_message(x as u16, y as u16, new_c.r, new_c.g, new_c.b)
    }
}

/// Recolors one random canvas pixel by a small random variation of its own
/// color and replies with its pixel message.
pub fn add_random_detail_stroke(painting: &mut MonaLisaPainting) -> (out: Vec<u8>)
    requires
        canvas_painting(*old(painting)),
    ensures
        canvas_painting(*final(painting)),
        exists|w: (usize, usize, int)|
            #[trigger] detail_stroke_witness(old(painting)@, final(painting)@, out@, w.0, w.1,
                w.2),
{
    proof {
        assert(old(painting)@.height() == old(painting).height);
        assert(old(painting)@.width() == old(painting).width);
    }
    let x = random_usize_below(painting.width);
    let y = random_usize_below(painting.height);
    let existing = painting.pixel_at(x, y);
    let delta = random_i16_in(-20, 20);
    let new_c = Rgb {
        r: nudge_component(existing.r, delta),
        g: nudge_component(existing.g, delta),
        b: nudge_component(existing.b, delta),
    };
    painting.set_pixel(x, y, new_c);
    let out = create_pixel_message(x as u16, y as u16, new_c.r, new_c.g, new_c.b);
    proof {
        let w = (x, y, delta as int);
        assert(detail_stroke_witness(old(painting)@, painting@, out@, w.0, w.1, w.2));
    }
    out
}

/// A batch advance of the painting by some count below the canvas width.
pub open spec fn batch_advanced(p0: PaintingModel, p1: PaintingModel, k: usize) -> bool {
    k < CANVAS_WIDTH && p1 == apply_batch(p0, k as nat)
}

/// What dispatching message `m` does, per command type: how the engine went
/// from `e0` to `e1`, the painting from `p0` to `p1`, and what the one
/// outbound message `out` holds.
pub open spec fn dispatch_post(
    m: WireModel,
    e0: GameOfLifeBits,
    e1: GameOfLifeBits,
    p0: PaintingModel,
    p1: PaintingModel,
    out: Seq<u8>,
) -> bool {
    if m.msg_type == message_types::CREATE_NEW_GOL_GENERATION {
        &&& p1 == p0
        &&& e1.same_shape(e0)
        &&& e1.generation_count == 0
        &&& is_frame_message_for_grid(out, e1)
    } else if m.msg_type == message_types::AWAKEN_RANDOM_GOL_CELL {
        &&& p1 == p0
        &&& exists|w: (u16, u16, Rgb)| #[trigger] awaken_random_witness(e0, e1, out, w.0, w.1, w.2)
    } else if m.msg_type == message_types::KILL_RANDOM_GOL_CELL {
        &&& p1 == p0
        &&& exists|w: (u16, u16)| #[trigger] kill_random_witness(e0, e1, out, w.0, w.1)
    } else if m.msg_type == message_types::ADVANCE_GOL_GENERATION {
        &&& p1 == p0
        &&& stepped(e0, e1)
        &&& is_frame_message_for_grid(out, e1)
    } else if m.msg_type == message_types::KILL_ALL_GOL_CELLS {
        &&& p1 == p0
        &&& e1.same_shape(e0)
        &&& e1.generation_count == 0
        &&& forall|x: int, y: int| !(#[trigger] e1.cell(x, y))
        &&& is_frame_message_for_grid(out, e1)
    } else if m.msg_type == message_types::CREATE_NEW_MLP_PAINTING {
        &&& e1 == e0
        &&& p1.canvas == blank_canvas(p0.width(), p0.height())
        &&& p1.strokes == p0.strokes
        &&& p1.current_stroke == 0
        &&& !p1.complete
        &&& is_frame_message_for_painting(out, p1)
    } else if m.msg_type == message_types::ADVANCE_MLP_PAINTING {
        &&& e1 == e0
        &&& exists|k: usize| #[trigger] batch_advanced(p0, p1, k)
        &&& is_frame_message_for_painting(out, p1)
    } else if m.msg_type == message_types::REQUEST_RANDOM_COLORED_PIXEL && m.payload.len() >= 2
        && m.payload[0] < CANVAS_WIDTH && m.payload[1] < CANVAS_HEIGHT {
        &&& p1 == p0
        &&& exists|c: Rgb|
            #[trigger] awaken_cell_witness(e0, e1, out, m.payload[0] as u16, m.payload[1] as u16,
                c)
    } else {
        // The greeting, unknown command types, and a pixel request whose
        // payload is missing or off the canvas: the command is echoed back
        // and no state changes.
        &&& e1 == e0
        &&& p1 == p0
        &&& out == spec_echo_message(m)
    }
}

/// One decoded inbound message, ready to be dispatched.
pub struct WsPayload {
    pub parsed: WsMessage,
}

impl WsPayload {
    fn create_echo_response(&self) -> (out: Vec<u8>)
        requires
            encodable(self.parsed@),
            7 + self.parsed@.payload.len() <= usize::MAX,
        ensures
            out@ == spec_echo_message(self.parsed@),
    {
        let payload = clone_bytes(&self.parsed.payload);
        let response = WsMessage {
            version: PROTOCOL_VERSION,
            msg_type: self.parsed.msg_type,
            flags: 0,
            payload,
        };
        encode_ws_message(&response)
    }

    /// Maps the parsed command to its effect and produces exactly one
    /// outbound message; `dispatch_post` pins what happened for every type.
    pub fn handle_payload(&self, engine: &mut GameOfLifeBits, painting: &mut MonaLisaPainting) -> (out: Vec<u8>)
        requires
            canvas_engine(*old(engine)),
            canvas_painting(*old(painting)),
            old(engine).generation_count < u64::MAX,
            encodable(self.parsed@),
            7 + self.parsed@.payload.len() <= usize::MAX,
        ensures
            canvas_engine(*final(engine)),
            canvas_painting(*final(painting)),
            dispatch_post(self.parsed@, *old(engine), *final(engine), old(painting)@,
                final(painting)@, out@),
    {
        proof {
            assert(old(painting)@.height() == old(painting).height);
            assert(old(painting)@.width() == old(painting).width);
        }
        let t = self.parsed.msg_type;
        if t == message_types::CREATE_NEW_GOL_GENERATION {
            create_new_generation(engine)
        } else if t == message_types::AWAKEN_RANDOM_GOL_CELL {
            awaken_random_cell(engine)
        } else if t == message_types::KILL_RANDOM_GOL_CELL {
            kill_random_cell(engine)
        } else if t == message_types::ADVANCE_GOL_GENERATION {
            advance_generation(engine)
        } else if t == message_types::KILL_ALL_GOL_CELLS {
            kill_all_cells(engine)
        } else if t == message_types::CREATE_NEW_MLP_PAINTING {
            start_new_painting(painting)
        } else if t == message_types::ADVANCE_MLP_PAINTING {
            let k = random_usize_below(CANVAS_WIDTH as usize);
            let out = apply_brush_strokes_batch(painting, k);
            proof {
                assert(batch_advanced(old(painting)@, painting@, k));
            }
            out
        } else if t == message_types::REQUEST_RANDOM_COLORED_PIXEL {
            if self.parsed.payload.len() >= 2 {
                let x = self.parsed.payload[0];
                let y = self.parsed.payload[1];
                if (x as u16) < CANVAS_WIDTH && (y as u16) < CANVAS_HEIGHT {
                    awaken_cell(engine, x as u16, y as u16)
                } else {
                    self.create_echo_response()
                }
            } else {
                self.create_echo_response()
            }
        } else {
            self.create_echo_response()
        }
    }
}

} // verus!
