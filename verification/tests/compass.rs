use dashcam_hud::canvas::{alpha_blend, Canvas, Color};
use dashcam_hud::compass::{draw_compass_readouts, draw_compass_tick, draw_end_shading, draw_marker};
use dashcam_hud::widgets::Rect;

fn at(img: &Canvas, x: u32, y: u32) -> Color {
    img.pixel(x, y).unwrap()
}

const CLEAR: Color = Color { r: 0, g: 0, b: 0, a: 0 };

#[test]
fn end_shading_darkens_both_ends() {
    let mut img = Canvas::new(140, 4);
    draw_end_shading(&mut img, Rect { x: 10, y: 1, w: 120, h: 2 });
    // the outermost columns get alpha 120
    assert_eq!(at(&img, 10, 1), Color { r: 1, g: 4, b: 11, a: 120 });
    assert_eq!(at(&img, 129, 2), Color { r: 1, g: 4, b: 11, a: 120 });
    // 59 in from either end: alpha 2
    assert_eq!(at(&img, 69, 1), Color { r: 0, g: 0, b: 0, a: 2 });
    assert_eq!(at(&img, 70, 1), Color { r: 0, g: 0, b: 0, a: 2 });
    // rows outside the bar and columns beside it are left alone
    assert_eq!(at(&img, 10, 0), CLEAR);
    assert_eq!(at(&img, 10, 3), CLEAR);
    assert_eq!(at(&img, 9, 1), CLEAR);
    assert_eq!(at(&img, 130, 1), CLEAR);
}

#[test]
fn marker_is_a_triangle_below_its_tip() {
    let c = Color { r: 0, g: 230, b: 255, a: 255 };
    let mut img = Canvas::new(40, 30);
    draw_marker(&mut img, 20, 20, 0, c);
    // row 0 (at y = 20) is empty; row 1 (y = 19) is the single column 20
    assert_eq!(at(&img, 20, 20), CLEAR);
    assert_eq!(at(&img, 20, 19), c);
    assert_eq!(at(&img, 21, 19), CLEAR);
    // row 11 (y = 9) spans columns 10 to 30
    assert_eq!(at(&img, 10, 9), c);
    assert_eq!(at(&img, 30, 9), c);
    assert_eq!(at(&img, 9, 9), CLEAR);
    assert_eq!(at(&img, 31, 9), CLEAR);
    assert_eq!(at(&img, 20, 8), CLEAR);
}

#[test]
fn marker_glow_sits_one_pixel_outside() {
    let g = Color { r: 0, g: 200, b: 255, a: 40 };
    let mut img = Canvas::new(40, 30);
    draw_marker(&mut img, 20, 20, 1, g);
    assert_eq!(at(&img, 20, 19), CLEAR);
    let once = alpha_blend(CLEAR, g);
    assert_eq!(once, Color { r: 0, g: 31, b: 40, a: 40 });
    assert_eq!(at(&img, 19, 19), once);
    assert_eq!(at(&img, 21, 19), once);
    // near the left edge the columns are held at 0 and blended twice there
    let mut edge = Canvas::new(10, 30);
    draw_marker(&mut edge, 2, 20, 0, Color { r: 255, g: 255, b: 255, a: 255 });
    assert_eq!(at(&edge, 0, 9), Color { r: 255, g: 255, b: 255, a: 255 });
}

#[test]
fn compass_point_tick_with_halo_and_name() {
    let bar = Rect { x: 0, y: 0, w: 720, h: 72 };
    let mut img = Canvas::new(720, 72);
    draw_compass_tick(&mut img, bar, 100, 90);
    let cyan = Color { r: 0, g: 230, b: 255, a: 255 };
    // 18 pixels high, ending 4 above the bar's bottom
    assert_eq!(at(&img, 100, 50), cyan);
    assert_eq!(at(&img, 100, 67), cyan);
    assert_eq!(at(&img, 100, 49), CLEAR);
    assert_eq!(at(&img, 100, 68), CLEAR);
    // faint halo either side of the top
    let halo = alpha_blend(CLEAR, Color { r: 0, g: 230, b: 255, a: 60 });
    assert_eq!(at(&img, 99, 50), halo);
    assert_eq!(at(&img, 101, 50), halo);
    // "E" in white, scale 2, centred on the tick 6 pixels below the top
    let white = Color { r: 218, g: 234, b: 255, a: 255 };
    assert_eq!(at(&img, 94, 6), white);
    assert_eq!(at(&img, 103, 7), white);
}

#[test]
fn major_and_plain_ticks() {
    let bar = Rect { x: 0, y: 0, w: 720, h: 72 };
    let mut img = Canvas::new(720, 72);
    draw_compass_tick(&mut img, bar, 100, 50);
    // a 10-pixel white tick and the label "050" 24 above the bottom
    assert_eq!(at(&img, 100, 58), Color { r: 218, g: 234, b: 255, a: 255 });
    assert_eq!(at(&img, 100, 57), CLEAR);
    assert_eq!(at(&img, 92, 48), Color { r: 55, g: 75, b: 100, a: 170 });
    let mut plain = Canvas::new(720, 72);
    draw_compass_tick(&mut plain, bar, 100, 57);
    let grey = alpha_blend(CLEAR, Color { r: 78, g: 94, b: 118, a: 200 });
    assert_eq!(at(&plain, 100, 65), grey);
    assert_eq!(at(&plain, 100, 64), CLEAR);
    assert_eq!(at(&plain, 99, 65), CLEAR);
}

#[test]
fn readouts_badge_speed_and_time() {
    let bar = Rect { x: 0, y: 0, w: 720, h: 72 };
    let mut img = Canvas::new(720, 72);
    draw_compass_readouts(&mut img, bar, "214", " 72", "17:14:45");
    // the badge box, 68 wide at x = 326
    assert_eq!(at(&img, 330, 30), alpha_blend(CLEAR, Color { r: 0, g: 18, b: 38, a: 220 }));
    assert_eq!(at(&img, 325, 30), CLEAR);
    assert_eq!(at(&img, 326, 5), Color { r: 0, g: 230, b: 255, a: 255 });
    // speed: '7' starts 12 pixels right of the space, at (24, 26)
    assert_eq!(at(&img, 24, 26), Color { r: 218, g: 234, b: 255, a: 255 });
    // "km/h" below it and the time at the right edge
    let grey = Color { r: 78, g: 94, b: 118, a: 200 };
    assert_eq!(at(&img, 12, 42), grey);
    assert_eq!(at(&img, 662, 32), grey);
}
