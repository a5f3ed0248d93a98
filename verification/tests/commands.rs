//! Dispatcher and painting tests: one reply per command, exact message
//! layouts, bounds checks, and the painting reveal.

use canvas_core::codec::{decode_ws_message, WsMessage};
use canvas_core::color::{create_random_rgb, Rgb};
use canvas_core::dispatch::{
    add_random_detail_stroke, advance_generation, apply_brush_strokes_batch,
    apply_single_brush_stroke, awaken_cell, create_frame_message, create_new_generation,
    create_pixel_message, current_generation, current_painting_frame, fast_forward_painting,
    get_dummy_payload, is_painting_complete, kill_all_cells, kill_random_cell, painting_progress,
    reset_game_of_life_blinker, reset_game_of_life_glider, reset_game_of_life_random,
    start_new_painting, WsPayload,
};
use canvas_core::grid::GameOfLifeBits;
use canvas_core::painting::{BrushStroke, MonaLisaPainting};

fn canvas_engine() -> GameOfLifeBits {
    let mut g = GameOfLifeBits::new(100, 100);
    g.clear();
    g
}

fn blank_painting() -> MonaLisaPainting {
    MonaLisaPainting::new(100, 100, Vec::new())
}

fn parsed(bytes: &Vec<u8>) -> WsMessage {
    decode_ws_message(bytes).expect("dispatcher output must decode")
}

fn payload_msg(msg_type: u8, flags: u8, payload: Vec<u8>) -> WsPayload {
    WsPayload { parsed: WsMessage { version: 1, msg_type, flags, payload } }
}

#[test]
fn pixel_message_layout_exact() {
    let out = create_pixel_message(3, 4, 9, 8, 7);
    assert_eq!(out, vec![1, 100, 0, 0, 0, 0, 7, 0, 3, 0, 4, 9, 8, 7]);
}

#[test]
fn frame_message_layout() {
    let out = create_frame_message(vec![0u8; 30000]);
    let m = parsed(&out);
    assert_eq!(m.msg_type, 101);
    assert_eq!(m.flags, 0);
    assert_eq!(m.payload.len(), 4 + 30000);
    // Canvas dimensions lead the payload, big-endian.
    assert_eq!(&m.payload[0..4], &[0, 100, 0, 100]);
}

#[test]
fn dummy_payload_is_hello_message() {
    assert_eq!(get_dummy_payload(), vec![1, 1, 0, 0, 0, 0, 5, b'h', b'e', b'l', b'l', b'o']);
}

#[test]
fn unknown_type_is_echoed_with_flags_cleared() {
    let mut engine = canvas_engine();
    let mut painting = blank_painting();
    let wp = payload_msg(77, 5, vec![1, 2]);
    let out = wp.handle_payload(&mut engine, &mut painting);
    assert_eq!(out, vec![1, 77, 0, 0, 0, 0, 2, 1, 2]);
}

#[test]
fn pixel_request_awakens_named_cell() {
    let mut engine = canvas_engine();
    let mut painting = blank_painting();
    let wp = payload_msg(200, 0, vec![5, 6]);
    let out = wp.handle_payload(&mut engine, &mut painting);
    assert!(engine.get_cell(5, 6));
    let m = parsed(&out);
    assert_eq!(m.msg_type, 100);
    assert_eq!(&m.payload[0..4], &[0, 5, 0, 6]);
}

#[test]
fn pixel_request_out_of_bounds_fails_into_echo() {
    let mut engine = canvas_engine();
    let mut painting = blank_painting();
    let wp = payload_msg(200, 0, vec![200, 0]);
    let out = wp.handle_payload(&mut engine, &mut painting);
    // The command fails without a panic: it is echoed and nothing changes.
    assert_eq!(out, vec![1, 200, 0, 0, 0, 0, 2, 200, 0]);
    assert_eq!(engine.population_count(), 0);

    let wp = payload_msg(200, 0, Vec::new());
    let out = wp.handle_payload(&mut engine, &mut painting);
    assert_eq!(out, vec![1, 200, 0, 0, 0, 0, 0]);
    assert_eq!(engine.population_count(), 0);
}

#[test]
fn awaken_and_kill_random_reply_with_pixels_in_bounds() {
    let mut engine = canvas_engine();
    let mut painting = blank_painting();

    let wp = payload_msg(41, 0, Vec::new());
    let out = wp.handle_payload(&mut engine, &mut painting);
    let m = parsed(&out);
    assert_eq!(m.msg_type, 100);
    let x = u16::from_be_bytes([m.payload[0], m.payload[1]]);
    let y = u16::from_be_bytes([m.payload[2], m.payload[3]]);
    assert!(x < 100 && y < 100);
    assert!(engine.get_cell(x as usize, y as usize));
    // Accent colors never reach the dead-cell white.
    assert!(m.payload[4] < 255 && m.payload[5] < 255 && m.payload[6] < 255);

    let wp = payload_msg(42, 0, Vec::new());
    let out = wp.handle_payload(&mut engine, &mut painting);
    let m = parsed(&out);
    assert_eq!(m.msg_type, 100);
    let x = u16::from_be_bytes([m.payload[0], m.payload[1]]);
    let y = u16::from_be_bytes([m.payload[2], m.payload[3]]);
    assert!(x < 100 && y < 100);
    assert!(!engine.get_cell(x as usize, y as usize));
    assert_eq!(&m.payload[4..7], &[255, 255, 255]);
}

#[test]
fn advance_generation_steps_once_and_frames() {
    let mut engine = canvas_engine();
    engine.initialize_blinker();
    let out = advance_generation(&mut engine);
    assert_eq!(engine.generation_count, 1);
    assert!(engine.get_cell(50, 49) && engine.get_cell(50, 51));
    let m = parsed(&out);
    assert_eq!(m.msg_type, 101);
    assert_eq!(m.payload.len(), 4 + 30000);
}

#[test]
fn kill_all_command_empties_grid() {
    let mut engine = GameOfLifeBits::new(100, 100);
    let mut painting = blank_painting();
    let wp = payload_msg(45, 0, Vec::new());
    let out = wp.handle_payload(&mut engine, &mut painting);
    assert_eq!(engine.population_count(), 0);
    assert_eq!(engine.generation_count, 0);
    let m = parsed(&out);
    assert_eq!(m.msg_type, 101);
    // An all-dead canvas renders as all-white pixels.
    assert!(m.payload[4..].iter().all(|&b| b == 255));
}

#[test]
fn create_new_generation_reseeds_at_zero() {
    let mut engine = canvas_engine();
    engine.step();
    assert_eq!(engine.generation_count, 1);
    let out = create_new_generation(&mut engine);
    assert_eq!(engine.generation_count, 0);
    assert_eq!(parsed(&out).msg_type, 101);
}

#[test]
fn resets_install_their_patterns() {
    let mut engine = canvas_engine();
    reset_game_of_life_glider(&mut engine);
    assert_eq!(engine.population_count(), 5);
    assert!(engine.get_cell(1, 0));
    reset_game_of_life_blinker(&mut engine);
    assert_eq!(engine.population_count(), 3);
    assert!(engine.get_cell(50, 50));
    reset_game_of_life_random(&mut engine);
    assert_eq!(engine.generation_count, 0);
}

#[test]
fn current_generation_frames_live_state() {
    let mut engine = canvas_engine();
    engine.awaken_cell_in(0, 0);
    let out = current_generation(&engine);
    let m = parsed(&out);
    assert_eq!(m.msg_type, 101);
    // Pixel (0, 0) is live: not white. Pixel (1, 0) is dead: white.
    assert!(m.payload[4] < 255 || m.payload[5] < 255 || m.payload[6] < 255);
    assert_eq!(&m.payload[7..10], &[255, 255, 255]);
}

fn two_stroke_painting() -> MonaLisaPainting {
    let strokes = vec![
        BrushStroke { points: vec![(1, 1), (2, 2)], color: Rgb { r: 10, g: 20, b: 30 } },
        BrushStroke { points: vec![(500, 500)], color: Rgb { r: 1, g: 2, b: 3 } },
    ];
    MonaLisaPainting::new(100, 100, strokes)
}

#[test]
fn single_stroke_reports_last_painted_point() {
    let mut p = two_stroke_painting();
    let out = apply_single_brush_stroke(&mut p);
    // Both points landed; the last one is reported, in the stroke's color.
    assert_eq!(out, vec![1, 100, 0, 0, 0, 0, 7, 0, 2, 0, 2, 10, 20, 30]);
    assert_eq!(painting_progress(&p), 50);

    // The second stroke lands nowhere, so a full frame comes back.
    let out = apply_single_brush_stroke(&mut p);
    let m = parsed(&out);
    assert_eq!(m.msg_type, 101);
    assert_eq!(painting_progress(&p), 100);

    // Past the end, the painting reports complete and frames again.
    assert!(!is_painting_complete(&p));
    let out = apply_single_brush_stroke(&mut p);
    assert!(is_painting_complete(&p));
    assert_eq!(parsed(&out).msg_type, 101);
}

#[test]
fn painted_pixels_appear_in_frames() {
    let mut p = two_stroke_painting();
    apply_single_brush_stroke(&mut p);
    let out = current_painting_frame(&p);
    let m = parsed(&out);
    let base = |x: usize, y: usize| 4 + 3 * (y * 100 + x);
    // Painted pixels carry the stroke color; the rest keeps the background.
    assert_eq!(&m.payload[base(1, 1)..base(1, 1) + 3], &[10, 20, 30]);
    assert_eq!(&m.payload[base(2, 2)..base(2, 2) + 3], &[10, 20, 30]);
    assert_eq!(&m.payload[base(0, 0)..base(0, 0) + 3], &[240, 235, 220]);
}

#[test]
fn start_new_painting_restores_background() {
    let mut p = two_stroke_painting();
    apply_single_brush_stroke(&mut p);
    let out = start_new_painting(&mut p);
    let m = parsed(&out);
    assert_eq!(m.msg_type, 101);
    assert_eq!(&m.payload[4..7], &[240, 235, 220]);
    assert_eq!(painting_progress(&p), 0);
    assert!(!is_painting_complete(&p));
}

#[test]
fn batch_and_fast_forward_advance_the_reveal() {
    let mut p = two_stroke_painting();
    let out = apply_brush_strokes_batch(&mut p, 1);
    assert_eq!(parsed(&out).msg_type, 101);
    assert_eq!(painting_progress(&p), 50);

    let mut p = two_stroke_painting();
    let out = fast_forward_painting(&mut p);
    assert_eq!(parsed(&out).msg_type, 101);
    assert_eq!(painting_progress(&p), 100);
}

#[test]
fn batch_command_dispatches_and_frames() {
    let mut engine = canvas_engine();
    let mut p = two_stroke_painting();
    let wp = payload_msg(21, 0, Vec::new());
    let out = wp.handle_payload(&mut engine, &mut p);
    assert_eq!(parsed(&out).msg_type, 101);
    let wp = payload_msg(20, 0, Vec::new());
    let out = wp.handle_payload(&mut engine, &mut p);
    assert_eq!(parsed(&out).msg_type, 101);
    assert_eq!(painting_progress(&p), 0);
}

#[test]
fn random_detail_stroke_nudges_one_pixel() {
    let mut p = MonaLisaPainting::new(1, 1, Vec::new());
    let out = add_random_detail_stroke(&mut p);
    let m = parsed(&out);
    assert_eq!(m.msg_type, 100);
    // Only pixel (0, 0) exists on a 1x1 canvas.
    assert_eq!(&m.payload[0..4], &[0, 0, 0, 0]);
    // The new color is the background nudged by at most 20 per component.
    let (r, g, b) = (m.payload[4], m.payload[5], m.payload[6]);
    assert!((220..=255).contains(&r));
    assert!((215..=255).contains(&g));
    assert!((200..=240).contains(&b));
}

#[test]
fn random_rgb_components_stay_below_white() {
    for _ in 0..100 {
        let c = create_random_rgb();
        assert!(c.r < 255 && c.g < 255 && c.b < 255);
    }
}

#[test]
fn awaken_cell_command_colors_named_pixel() {
    let mut engine = canvas_engine();
    let out = awaken_cell(&mut engine, 7, 9);
    assert!(engine.get_cell(7, 9));
    let m = parsed(&out);
    assert_eq!(m.msg_type, 100);
    assert_eq!(&m.payload[0..4], &[0, 7, 0, 9]);

    let out = kill_random_cell(&mut engine);
    assert_eq!(parsed(&out).msg_type, 100);
    let out = kill_all_cells(&mut engine);
    assert_eq!(parsed(&out).msg_type, 101);
    assert_eq!(engine.population_count(), 0);
}
