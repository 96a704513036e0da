use dashcam_hud::canvas::{alpha_blend, bput, fill_rect, safe_put, Canvas, Color};
use dashcam_hud::draw::{draw_line, glow_circle, glow_dot, glow_line};
use dashcam_hud::font::{char_bm, draw_text, draw_text_c, th, tw};
use dashcam_hud::gps_tag::draw_gps_tag;
use dashcam_hud::panel::{bg_panel, corner_bracket, draw_panel, neon_cyan, white};

fn rgba(r: u8, g: u8, b: u8, a: u8) -> Color {
    Color { r, g, b, a }
}

fn at(img: &Canvas, x: u32, y: u32) -> Color {
    img.pixel(x, y).unwrap()
}

const CLEAR: Color = Color { r: 0, g: 0, b: 0, a: 0 };

#[test]
fn new_canvas_is_transparent() {
    let img = Canvas::new(4, 3);
    assert_eq!(img.dimensions(), (4, 3));
    for y in 0..3 {
        for x in 0..4 {
            assert_eq!(at(&img, x, y), CLEAR);
        }
    }
    assert!(img.pixel(4, 0).is_none());
    assert!(img.pixel(0, 3).is_none());
}

#[test]
fn safe_put_skips_pixels_off_the_canvas() {
    let mut img = Canvas::new(2, 2);
    safe_put(&mut img, 1, 1, rgba(1, 2, 3, 4));
    safe_put(&mut img, 2, 0, rgba(9, 9, 9, 9));
    safe_put(&mut img, 0, 7, rgba(9, 9, 9, 9));
    assert_eq!(at(&img, 1, 1), rgba(1, 2, 3, 4));
    assert_eq!(at(&img, 0, 0), CLEAR);
    assert_eq!(at(&img, 1, 0), CLEAR);
}

#[test]
fn blend_of_transparent_opaque_and_half() {
    let dst = rgba(10, 20, 30, 255);
    assert_eq!(alpha_blend(dst, rgba(200, 200, 200, 0)), dst);
    assert_eq!(alpha_blend(dst, rgba(200, 100, 50, 255)), rgba(200, 100, 50, 255));
    // (255 * 128 + 0 * 127) / 255 = 128; alpha 128 + 255 * 127 / 255 = 255
    assert_eq!(alpha_blend(rgba(0, 0, 0, 255), rgba(255, 255, 255, 128)), rgba(128, 128, 128, 255));
    // over a transparent pixel the colour is scaled and the alpha kept
    assert_eq!(alpha_blend(CLEAR, rgba(4, 10, 24, 200)), rgba(3, 7, 18, 200));
}

#[test]
fn bput_blends_and_skips_off_canvas() {
    let mut img = Canvas::new(2, 1);
    safe_put(&mut img, 0, 0, rgba(0, 0, 0, 255));
    bput(&mut img, 0, 0, rgba(255, 255, 255, 128));
    bput(&mut img, 5, 5, rgba(255, 255, 255, 128));
    assert_eq!(at(&img, 0, 0), rgba(128, 128, 128, 255));
    assert_eq!(at(&img, 1, 0), CLEAR);
}

#[test]
fn fill_rect_covers_exactly_the_rectangle() {
    let mut img = Canvas::new(6, 5);
    fill_rect(&mut img, 1, 2, 3, 2, rgba(50, 60, 70, 255));
    for y in 0..5 {
        for x in 0..6 {
            let inside = (1..4).contains(&x) && (2..4).contains(&y);
            let want = if inside { rgba(50, 60, 70, 255) } else { CLEAR };
            assert_eq!(at(&img, x, y), want, "pixel ({x}, {y})");
        }
    }
    // a rectangle running off the canvas is clipped
    fill_rect(&mut img, 4, 4, 10, 10, rgba(1, 1, 1, 255));
    assert_eq!(at(&img, 5, 4), rgba(1, 1, 1, 255));
}

#[test]
fn rgba_bytes_are_row_by_row() {
    let mut img = Canvas::new(2, 2);
    safe_put(&mut img, 1, 0, rgba(1, 2, 3, 4));
    safe_put(&mut img, 0, 1, rgba(5, 6, 7, 8));
    let bytes = img.into_rgba_bytes();
    assert_eq!(bytes, vec![0, 0, 0, 0, 1, 2, 3, 4, 5, 6, 7, 8, 0, 0, 0, 0]);
}

#[test]
fn text_width_and_height() {
    assert_eq!(tw("abc", 2), 36);
    assert_eq!(tw("", 3), 0);
    assert_eq!(tw("km/h", 1), 24);
    assert_eq!(th(1), 9);
    assert_eq!(th(3), 27);
}

#[test]
fn glyph_bitmaps() {
    assert_eq!(char_bm('T'), [0b11111, 0b00100, 0b00100, 0b00100, 0b00100, 0b00100, 0b00100, 0b00100, 0b00100]);
    assert_eq!(char_bm(' '), [0; 9]);
    // unknown characters get the box glyph
    assert_eq!(char_bm('q'), [0b11111, 0b10001, 0b10001, 0b10001, 0b10001, 0b10001, 0b10001, 0b10001, 0b11111]);
}

#[test]
fn draw_text_sets_glyph_pixels() {
    let mut img = Canvas::new(20, 12);
    let c = rgba(9, 8, 7, 255);
    draw_text(&mut img, "T", 1, 1, 1, c);
    for x in 1..6 {
        assert_eq!(at(&img, x, 1), c);
    }
    assert_eq!(at(&img, 3, 2), c);
    assert_eq!(at(&img, 2, 2), CLEAR);
    assert_eq!(at(&img, 3, 9), c);
    assert_eq!(at(&img, 3, 10), CLEAR);
}

#[test]
fn draw_text_scales_and_advances() {
    let mut img = Canvas::new(30, 20);
    let c = rgba(1, 1, 1, 255);
    draw_text(&mut img, "-T", 0, 0, 2, c);
    // '-' is row 4 of the glyph, doubled: rows 8 and 9, columns 0..10
    assert_eq!(at(&img, 0, 8), c);
    assert_eq!(at(&img, 9, 9), c);
    assert_eq!(at(&img, 0, 7), CLEAR);
    // 'T' starts 12 pixels further right
    assert_eq!(at(&img, 12, 0), c);
    assert_eq!(at(&img, 11, 0), CLEAR);
}

#[test]
fn centred_text_is_centred_on_cx() {
    let mut img = Canvas::new(40, 12);
    let c = rgba(2, 2, 2, 255);
    // "TT" is 12 wide at scale 1: left edge at 20 - 6 = 14
    draw_text_c(&mut img, "TT", 20, 0, 1, c);
    assert_eq!(at(&img, 14, 0), c);
    assert_eq!(at(&img, 13, 0), CLEAR);
    let mut img2 = Canvas::new(40, 12);
    // held at 0 when the text is wider than twice cx
    draw_text_c(&mut img2, "TT", 2, 0, 1, c);
    assert_eq!(at(&img2, 0, 0), c);
}

#[test]
fn panel_interior_is_glass() {
    let mut img = Canvas::new(120, 80);
    draw_panel(&mut img, 0, 0, 100, 60, "");
    // away from brackets and scanlines: just the glass fill
    assert_eq!(at(&img, 50, 31), alpha_blend(CLEAR, bg_panel()));
    // outside the panel nothing changes
    assert_eq!(at(&img, 110, 70), CLEAR);
    // the top-left corner carries the cyan bracket
    let corner = at(&img, 0, 0);
    assert_eq!(corner.a, 255);
    assert_eq!((corner.r, corner.g, corner.b), (0, 230, 255));
}

#[test]
fn panel_label_is_drawn_at_its_top_left() {
    let mut img = Canvas::new(120, 80);
    draw_panel(&mut img, 10, 10, 100, 60, "T");
    // the first row of 'T' at (16..21, 16)
    let dim = dashcam_hud::panel::neon_cyan_dim();
    assert_eq!(at(&img, 16, 16), dim);
    assert_eq!(at(&img, 20, 16), dim);
}

#[test]
fn corner_bracket_marks_the_corners() {
    let mut img = Canvas::new(50, 50);
    corner_bracket(&mut img, 5, 5, 30, 20, 6, neon_cyan());
    assert_eq!(at(&img, 5, 5), neon_cyan());
    assert_eq!(at(&img, 34, 24), neon_cyan());
    assert_eq!(at(&img, 20, 5), CLEAR);
    assert_eq!(at(&img, 20, 15), CLEAR);
}

#[test]
fn lines_and_circles_reach_the_canvas() {
    let mut img = Canvas::new(20, 20);
    draw_line(&mut img, 2, 5, 12, 5, white());
    assert_eq!(at(&img, 7, 5), white());
    assert_eq!(at(&img, 7, 12), CLEAR);

    let mut img2 = Canvas::new(20, 20);
    img2.draw_filled_circle(10, 10, 3, rgba(5, 6, 7, 255));
    assert_eq!(at(&img2, 10, 10), rgba(5, 6, 7, 255));
    assert_eq!(at(&img2, 0, 0), CLEAR);

    let mut img3 = Canvas::new(20, 20);
    img3.draw_hollow_circle(10, 10, 4, rgba(5, 6, 7, 255));
    assert_eq!(at(&img3, 14, 10), rgba(5, 6, 7, 255));
    assert_eq!(at(&img3, 10, 10), CLEAR);
}

#[test]
fn glowing_primitives_keep_their_core_colour() {
    let mut img = Canvas::new(40, 40);
    glow_dot(&mut img, 20, 20, 3, rgba(200, 100, 0, 255));
    assert_eq!(at(&img, 20, 20), rgba(200, 100, 0, 255));
    // the outer halo is faint
    let halo = at(&img, 20 + 8, 20);
    assert!(halo.a > 0 && halo.a < 255);

    let mut img2 = Canvas::new(40, 40);
    glow_line(&mut img2, 5, 20, 35, 20, rgba(0, 255, 0, 255), 2);
    assert_eq!(at(&img2, 20, 20), rgba(0, 255, 0, 255));
    assert!(at(&img2, 20, 22).a > 0);

    let mut img3 = Canvas::new(40, 40);
    glow_circle(&mut img3, 20, 20, 10, rgba(0, 80, 130, 135));
    assert!(at(&img3, 30, 20).a > 0);
    assert_eq!(at(&img3, 20, 20), CLEAR);
}

#[test]
fn gps_tag_shows_captions_and_values() {
    let mut img = Canvas::new(400, 120);
    draw_gps_tag(&mut img, "1", "1");
    let dim = dashcam_hud::panel::neon_cyan_dim();
    // the tag's corner is at (64, 24); "LAT" starts at (72, 37)
    assert_eq!(at(&img, 72, 37), dim);
    // "1" at (102, 35), scale 2: its top row is column 2 of the glyph
    assert_eq!(at(&img, 106, 35), white());
    assert_eq!(at(&img, 107, 36), white());
    // "LON" at (72, 62) and its value at (102, 60)
    assert_eq!(at(&img, 72, 62), dim);
    assert_eq!(at(&img, 106, 60), white());
    // glass between the lines, and nothing left of the tag
    assert_eq!(at(&img, 300, 91), alpha_blend(CLEAR, bg_panel()));
    assert_eq!(at(&img, 50, 50), CLEAR);
}

#[test]
fn speed_bar_fill_and_glow_row() {
    let bar = dashcam_hud::widgets::Rect { x: 10, y: 10, w: 40, h: 8 };
    let mut img = Canvas::new(70, 30);
    let c = rgba(200, 100, 0, 255);
    dashcam_hud::gauges::draw_speed_bar(&mut img, bar, 15, c);
    // filled part, unfilled part, and the faint row above the fill
    assert_eq!(at(&img, 12, 14), c);
    assert_eq!(at(&img, 30, 14), alpha_blend(CLEAR, rgba(10, 16, 34, 200)));
    assert_eq!(at(&img, 12, 9), alpha_blend(CLEAR, rgba(200, 100, 0, 80)));
    assert_eq!(at(&img, 30, 9), CLEAR);
    // brackets 3 pixels outside the bar
    let dim = dashcam_hud::panel::neon_cyan_dim();
    assert_eq!(at(&img, 7, 7), alpha_blend(alpha_blend(alpha_blend(CLEAR, dim), dim), dim));
}

#[test]
fn z_bar_with_label() {
    let bar = dashcam_hud::widgets::Rect { x: 10, y: 10, w: 40, h: 8 };
    let mut img = Canvas::new(70, 30);
    dashcam_hud::gauges::draw_z_bar(&mut img, bar, 20);
    assert_eq!(at(&img, 29, 12), alpha_blend(alpha_blend(CLEAR, rgba(10, 16, 34, 200)), neon_cyan()));
    assert_eq!(at(&img, 30, 12), alpha_blend(CLEAR, rgba(10, 16, 34, 200)));
    // 'Z' top row at (55..60, 10) in grey
    assert_eq!(at(&img, 55, 10), dashcam_hud::panel::grey());
}

#[test]
fn speed_readout_layers() {
    let mut img = Canvas::new(200, 200);
    // "8" at scale 5 is 30 wide: left edge 100 - 15 = 85, top 100 + 10 + 10 = 120
    dashcam_hud::gauges::draw_speed_readout(&mut img, 100, 100, 30, "8", rgba(0, 255, 0, 255));
    // '8' row 0 is 0b01110: the core's first lit pixel is (90, 120) in white
    assert_eq!(at(&img, 90, 120), white());
    // the shadow shows 2 pixels down-right, past the core's right end
    assert_eq!(at(&img, 106, 122), rgba(0, 0, 0, 170));
    // "km/h" centred on 100, 6 pixels below the 45-pixel-high text
    let grey = dashcam_hud::panel::grey();
    assert_eq!(at(&img, 76, 171), grey);
}
