use clock_fb::color::{parse_hex_color, rgb_to_rgb565, Rgb};
use clock_fb::command::{handle_line, parse_bright, parse_shift, Action};
use clock_fb::frame::Frame;
use clock_fb::geometry::parse_fb_size;
use clock_fb::layout::{measure, padding_for_size, Glyph};
use clock_fb::place::compute_pos;
use clock_fb::state::{compose, RenderState};

fn default_state() -> RenderState {
    RenderState::new(Rgb { r: 0, g: 255, b: 0 }, 280, 90)
}

fn square_glyph(x: i32, y: i32, side: usize, cov: u8) -> Glyph {
    Glyph { x, y, w: side, h: side, cov: vec![cov; side * side] }
}

#[test]
fn rgb565_packs_primaries() {
    assert_eq!(rgb_to_rgb565(255, 0, 0).0, 0xF800);
    assert_eq!(rgb_to_rgb565(0, 255, 0).0, 0x07E0);
    assert_eq!(rgb_to_rgb565(0, 0, 255).0, 0x001F);
    assert_eq!(rgb_to_rgb565(255, 255, 255).0, 0xFFFF);
    assert_eq!(rgb_to_rgb565(0, 0, 0).0, 0x0000);
}

#[test]
fn rgb565_truncates_low_bits() {
    // 7 = 0b111: red and blue lose all of it, green keeps one bit.
    assert_eq!(rgb_to_rgb565(7, 7, 7).0, 0x0020);
    let c = rgb_to_rgb565(0x12, 0x34, 0x56).0;
    assert_eq!(c >> 11, 0x12 >> 3);
    assert_eq!((c >> 5) & 0x3F, 0x34 >> 2);
    assert_eq!(c & 0x1F, 0x56 >> 3);
}

#[test]
fn hex_color_parses_valid() {
    assert_eq!(parse_hex_color("#FF8001"), Rgb { r: 255, g: 128, b: 1 });
    assert_eq!(parse_hex_color("00ff00"), Rgb { r: 0, g: 255, b: 0 });
    assert_eq!(parse_hex_color("##123456"), Rgb { r: 0x12, g: 0x34, b: 0x56 });
}

#[test]
fn hex_color_falls_back_to_green() {
    assert_eq!(parse_hex_color("FF00"), Rgb { r: 0, g: 255, b: 0 });
    assert_eq!(parse_hex_color("#GGGGGG"), Rgb { r: 0, g: 255, b: 0 });
    assert_eq!(parse_hex_color(""), Rgb { r: 0, g: 255, b: 0 });
    assert_eq!(parse_hex_color("#FF00000"), Rgb { r: 0, g: 255, b: 0 });
}

#[test]
fn hex_color_roundtrip_through_packer() {
    // A valid color keeps its truncated channels through the packer.
    let c = parse_hex_color("#FF0000");
    let p = rgb_to_rgb565(c.r, c.g, c.b).0;
    assert_eq!(p, 0xF800);
    let c2 = parse_hex_color("#0000FF");
    let p2 = rgb_to_rgb565(c2.r, c2.g, c2.b).0;
    assert_eq!(p2, 0x001F);
}

#[test]
fn bright_clamps_low() {
    assert_eq!(parse_bright(b"-1"), 0);
}

#[test]
fn bright_clamps_high() {
    assert_eq!(parse_bright(b"2"), 1000);
}

#[test]
fn bright_fallback_on_garbage() {
    assert_eq!(parse_bright(b"abc"), 1000);
    assert_eq!(parse_bright(b""), 1000);
    assert_eq!(parse_bright(b"1.2.3"), 1000);
    assert_eq!(parse_bright(b"+"), 1000);
}

#[test]
fn bright_parses_fractions() {
    assert_eq!(parse_bright(b"0.5"), 500);
    assert_eq!(parse_bright(b"0.25"), 250);
    assert_eq!(parse_bright(b".75"), 750);
    assert_eq!(parse_bright(b"1."), 1000);
    assert_eq!(parse_bright(b"0.1234"), 123);
    assert_eq!(parse_bright(b"0"), 0);
    assert_eq!(parse_bright(b"1"), 1000);
}

#[test]
fn bright_parses_exponent_forms() {
    assert_eq!(parse_bright(b"1e-1"), 100);
    assert_eq!(parse_bright(b"5E-1"), 500);
    assert_eq!(parse_bright(b"125e-3"), 125);
    assert_eq!(parse_bright(b"0.05e1"), 500);
    assert_eq!(parse_bright(b"5e-4"), 0);
    assert_eq!(parse_bright(b"2e0"), 1000);
    assert_eq!(parse_bright(b"1e2"), 1000);
    assert_eq!(parse_bright(b"1e+1"), 1000);
    // A leading-zero exponent still counts its value, not its digits.
    assert_eq!(parse_bright(b"1e-00000000000000000001"), 100);
    // Astronomical exponents clamp (or vanish) like any out-of-range value.
    assert_eq!(parse_bright(b"1e99999999999999999999999"), 1000);
    assert_eq!(parse_bright(b"1e-99999999999999999999999"), 0);
    assert_eq!(parse_bright(b"0e99999999999999999999999"), 0);
    // A bare or malformed exponent fails the whole parse.
    assert_eq!(parse_bright(b"1e"), 1000);
    assert_eq!(parse_bright(b"1e-"), 1000);
    assert_eq!(parse_bright(b"1e2.5"), 1000);
}

#[test]
fn shift_parses_and_clamps() {
    assert_eq!(parse_shift(b"50"), 10);
    assert_eq!(parse_shift(b"-50"), -10);
    assert_eq!(parse_shift(b"7"), 7);
    assert_eq!(parse_shift(b"-3"), -3);
    assert_eq!(parse_shift(b"+4"), 4);
    assert_eq!(parse_shift(b"x"), 0);
    assert_eq!(parse_shift(b""), 0);
    assert_eq!(parse_shift(b"99999999999999999999999999"), 0);
}

#[test]
fn command_time_sets_text() {
    let mut st = default_state();
    let act = handle_line(&mut st, b"TIME 10:30");
    assert_eq!(act, Action::Render);
    assert_eq!(st.time_text, b"10:30".to_vec());
    assert_eq!(st.date_text, b"".to_vec());
}

#[test]
fn command_time_keeps_inner_spaces() {
    let mut st = default_state();
    handle_line(&mut st, b"  DATE  Mon 3 Jan  ");
    assert_eq!(st.date_text, b"Mon 3 Jan".to_vec());
}

#[test]
fn command_bright_clamps() {
    let mut st = default_state();
    assert_eq!(handle_line(&mut st, b"BRIGHT -1"), Action::Render);
    assert_eq!(st.bright, 0);
    assert_eq!(handle_line(&mut st, b"BRIGHT 2"), Action::Render);
    assert_eq!(st.bright, 1000);
    assert_eq!(handle_line(&mut st, b"BRIGHT abc"), Action::Render);
    assert_eq!(st.bright, 1000);
    assert_eq!(handle_line(&mut st, b"BRIGHT 0.5"), Action::Render);
    assert_eq!(st.bright, 500);
    assert_eq!(handle_line(&mut st, b"BRIGHT 1e-1"), Action::Render);
    assert_eq!(st.bright, 100);
}

#[test]
fn command_bright_without_operand_keeps_value() {
    let mut st = default_state();
    handle_line(&mut st, b"BRIGHT 0.5");
    assert_eq!(st.bright, 500);
    assert_eq!(handle_line(&mut st, b"BRIGHT"), Action::Render);
    assert_eq!(st.bright, 500);
}

#[test]
fn command_shift_clamps() {
    let mut st = default_state();
    assert_eq!(handle_line(&mut st, b"SHIFT 50 -50"), Action::Render);
    assert_eq!(st.shift_x, 10);
    assert_eq!(st.shift_y, -10);
}

#[test]
fn command_shift_missing_operand_keeps_value() {
    let mut st = default_state();
    handle_line(&mut st, b"SHIFT 5 -5");
    assert_eq!((st.shift_x, st.shift_y), (5, -5));
    assert_eq!(handle_line(&mut st, b"SHIFT 1"), Action::Render);
    assert_eq!((st.shift_x, st.shift_y), (5, -5));
}

#[test]
fn command_color_sets_color() {
    let mut st = default_state();
    assert_eq!(handle_line(&mut st, b"COLOR #0000FF"), Action::Render);
    assert_eq!(st.color, Rgb { r: 0, g: 0, b: 255 });
    handle_line(&mut st, b"COLOR nonsense");
    assert_eq!(st.color, Rgb { r: 0, g: 255, b: 0 });
}

#[test]
fn command_unknown_changes_nothing() {
    let mut st = default_state();
    handle_line(&mut st, b"TIME 10:30");
    handle_line(&mut st, b"SHIFT 3 4");
    let before = (
        st.time_text.clone(),
        st.date_text.clone(),
        st.color,
        st.bright,
        st.time_size,
        st.date_size,
        st.shift_x,
        st.shift_y,
        st.margin,
    );
    let act = handle_line(&mut st, b"FOOBAR xyz");
    assert_eq!(act, Action::Ignore);
    let after = (
        st.time_text.clone(),
        st.date_text.clone(),
        st.color,
        st.bright,
        st.time_size,
        st.date_size,
        st.shift_x,
        st.shift_y,
        st.margin,
    );
    assert_eq!(before, after);
    // Case matters: lowercase keywords are unknown too.
    assert_eq!(handle_line(&mut st, b"time 11:00"), Action::Ignore);
    assert_eq!(st.time_text, b"10:30".to_vec());
}

#[test]
fn command_quit_stops_processing() {
    let mut st = default_state();
    let lines: Vec<&[u8]> = vec![b"TIME 10:30", b"QUIT", b"TIME 99:99", b"BRIGHT 0"];
    let mut applied = Vec::new();
    for line in lines {
        let act = handle_line(&mut st, line);
        if act == Action::Quit {
            break;
        }
        applied.push(line.to_vec());
    }
    // Only the line before QUIT ever ran; the buffered rest never did.
    assert_eq!(applied.len(), 1);
    assert_eq!(st.time_text, b"10:30".to_vec());
    assert_eq!(st.bright, 1000);
}

#[test]
fn measure_unions_glyph_boxes() {
    let gs = vec![square_glyph(0, 10, 4, 255), square_glyph(10, 0, 4, 255)];
    let (w, h) = measure(&gs);
    // Union spans x in [0, 14), y in [0, 14).
    assert_eq!((w, h), (14, 14));
    let empty: Vec<Glyph> = Vec::new();
    assert_eq!(measure(&empty), (0, 0));
}

#[test]
fn measure_handles_negative_offsets() {
    let gs = vec![square_glyph(-3, -2, 5, 1)];
    assert_eq!(measure(&gs), (5, 5));
}

#[test]
fn padding_scales_with_size_and_has_floors() {
    // Small sizes hit the floors.
    assert_eq!(padding_for_size(12), (16, 6));
    // Large sizes scale: ceil(280/12) = 24, ceil(280/28) = 10.
    assert_eq!(padding_for_size(280), (24, 10));
    assert_eq!(padding_for_size(90), (16, 6));
}

#[test]
fn renderable_text_canvas_strictly_larger() {
    let gs = vec![square_glyph(0, 0, 1, 255)];
    let (w, h) = measure(&gs);
    assert!(w >= 1 && h >= 1);
    let (plr, ptb) = padding_for_size(280);
    assert!(w + 2 * plr > w);
    assert!(h + 2 * ptb > h);
}

#[test]
fn placement_centers_and_stays_in_margins() {
    // 100x50 ink at size 280 on 1920x1200: pads (24, 10).
    let p = compute_pos(100, 50, 280, 0, None, 1920, 1200, 0, 0, 30);
    assert_eq!(p.canvas_w, 148);
    assert_eq!(p.canvas_h, 70);
    assert_eq!(p.x, 960 - 74);
    assert_eq!(p.y, 600 - 35);
    assert!(p.x + p.canvas_w + 30 <= 1920);
    assert!(p.y + p.canvas_h + 30 <= 1200);
}

#[test]
fn placement_clamps_to_margin() {
    // A block as wide as the screen is pulled back to the margin band.
    let p = compute_pos(1800, 100, 90, 0, None, 1920, 1200, 10, -10, 30);
    assert!(p.x >= 30 || p.x + p.canvas_w + 30 <= 1920 || p.x == 0);
    assert!(p.x + p.canvas_w <= 1920);
}

#[test]
fn placement_honors_min_top() {
    let p = compute_pos(100, 50, 90, 140, Some(700), 1920, 1200, 0, 0, 30);
    assert!(p.y >= 700);
}

#[test]
fn date_sits_below_time_with_gap() {
    // Mirror one render cycle's placement coupling on a big surface.
    let tp = compute_pos(400, 200, 280, -100, None, 1920, 1200, 0, 0, 30);
    let floor = tp.y + tp.canvas_h + 8;
    let dp = compute_pos(300, 60, 90, 140, Some(floor), 1920, 1200, 0, 0, 30);
    assert!(dp.y >= floor);
}

#[test]
fn compose_scenario_blue_at_half_brightness() {
    // TIME 10:30, COLOR #0000FF, BRIGHT 0.5: covered pixels show the
    // blue channel at half intensity, everything else is black.
    let mut st = default_state();
    assert_eq!(handle_line(&mut st, b"TIME 10:30"), Action::Render);
    assert_eq!(handle_line(&mut st, b"COLOR #0000FF"), Action::Render);
    assert_eq!(handle_line(&mut st, b"BRIGHT 0.5"), Action::Render);
    let mut f = Frame::new(400, 300);
    // Pretend an earlier render left stale pixels everywhere.
    for b in f.buf.iter_mut() {
        *b = 0xAA;
    }
    let time_gs = vec![square_glyph(0, 0, 10, 255)];
    let date_gs: Vec<Glyph> = Vec::new();
    compose(&st, &mut f, &time_gs, &date_gs);
    // base blue = 255 * 500 / 1000 = 127; full coverage keeps 127;
    // RGB565 of (0, 0, 127) = 127 >> 3 = 15, little-endian bytes (15, 0).
    let mut painted = 0usize;
    for y in 0..300usize {
        for x in 0..400usize {
            let i = (y * 400 + x) * 2;
            let pair = (f.buf[i], f.buf[i + 1]);
            if pair != (0, 0) {
                assert_eq!(pair, (15, 0));
                painted += 1;
            }
        }
    }
    // Exactly the 10x10 glyph square is painted, nothing else survives
    // the full-frame clear.
    assert_eq!(painted, 100);
}

#[test]
fn compose_empty_blocks_clear_frame() {
    let st = default_state();
    let mut f = Frame::new(64, 64);
    for b in f.buf.iter_mut() {
        *b = 0xFF;
    }
    let none: Vec<Glyph> = Vec::new();
    compose(&st, &mut f, &none, &none);
    assert!(f.buf.iter().all(|&b| b == 0));
}

#[test]
fn compose_skips_zero_coverage() {
    let st = default_state();
    let mut f = Frame::new(64, 64);
    let gs = vec![square_glyph(0, 0, 4, 0)];
    compose(&st, &mut f, &gs, &Vec::new());
    assert!(f.buf.iter().all(|&b| b == 0));
}

#[test]
fn compose_bounds_checks_offscreen_glyphs() {
    // A glyph hanging off every edge must only paint in-frame pixels.
    let st = default_state();
    let mut f = Frame::new(32, 32);
    let gs = vec![square_glyph(-1000, -1000, 8, 255), square_glyph(900, 900, 8, 255)];
    compose(&st, &mut f, &gs, &Vec::new());
    assert_eq!(f.buf.len(), 32 * 32 * 2);
    assert!(f.buf.iter().all(|&b| b == 0));
}

#[test]
fn fb_size_parses_and_falls_back() {
    assert_eq!(parse_fb_size(b"1920,1200\n"), (1920, 1200));
    assert_eq!(parse_fb_size(b"800,600"), (800, 600));
    assert_eq!(parse_fb_size(b"garbage"), (1920, 1200));
    assert_eq!(parse_fb_size(b"1,2,3"), (1920, 1200));
    assert_eq!(parse_fb_size(b"abc,600"), (1920, 600));
    assert_eq!(parse_fb_size(b"800, 600"), (800, 1200));
    assert_eq!(parse_fb_size(b""), (1920, 1200));
}

#[test]
fn fb_size_accepts_leading_plus() {
    assert_eq!(parse_fb_size(b"+800,600"), (800, 600));
    assert_eq!(parse_fb_size(b"800,+600"), (800, 600));
    assert_eq!(parse_fb_size(b"-800,600"), (1920, 600));
    assert_eq!(parse_fb_size(b"++800,600"), (1920, 600));
}

#[test]
fn state_defaults_match_startup() {
    let st = default_state();
    assert_eq!(st.bright, 1000);
    assert_eq!((st.shift_x, st.shift_y), (0, 0));
    assert_eq!(st.margin, 30);
    assert_eq!(st.time_size, 280);
    assert_eq!(st.date_size, 90);
    assert!(st.time_text.is_empty() && st.date_text.is_empty());
}
