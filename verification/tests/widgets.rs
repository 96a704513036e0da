use dashcam_hud::canvas::Color;
use dashcam_hud::panel::{grey, neon_cyan, neon_orange, neon_red, white};
use dashcam_hud::widgets::{
    bearing, compass_bar, compass_point, dial_label_color, dial_tick, gauge_panel, gps_tag_place,
    minimap_origin, point_color, radar_place, radar_ring, redline_marker_start, segment_in_redline,
    speed_bar, speedometer_place, tick_color, tick_height, tick_kind, tick_top, trail_dot_alpha,
    trail_strokes, vignette_alpha, z_bar, Rect, TickKind, TrailStroke,
};

#[test]
fn bearings_wrap_into_a_full_turn() {
    assert_eq!(bearing(0, 0), 0);
    assert_eq!(bearing(0, -10), 350);
    assert_eq!(bearing(350, 80), 70);
    assert_eq!(bearing(-725, 0), 355);
    assert_eq!(bearing(214, -80), 134);
    assert_eq!(bearing(720, 0), 0);
}

#[test]
fn tick_kinds_and_sizes() {
    assert_eq!(tick_kind(0), TickKind::Cardinal);
    assert_eq!(tick_kind(45), TickKind::Cardinal);
    assert_eq!(tick_kind(90), TickKind::Cardinal);
    assert_eq!(tick_kind(50), TickKind::Major);
    assert_eq!(tick_kind(55), TickKind::Minor);
    assert_eq!(tick_kind(57), TickKind::Plain);
    assert_eq!(tick_height(TickKind::Cardinal), 18);
    assert_eq!(tick_height(TickKind::Major), 10);
    assert_eq!(tick_height(TickKind::Minor), 6);
    assert_eq!(tick_height(TickKind::Plain), 3);
    assert_eq!(tick_color(TickKind::Cardinal), neon_cyan());
    assert_eq!(tick_color(TickKind::Major), white());
    assert_eq!(tick_color(TickKind::Minor), grey());
    assert_eq!(tick_color(TickKind::Plain), grey());
}

#[test]
fn compass_points_and_colours() {
    let names: Vec<String> = (0..8).map(|k| compass_point(k * 45)).collect();
    assert_eq!(names, vec!["N", "NE", "E", "SE", "S", "SW", "W", "NW"]);
    assert_eq!(compass_point(10), "");
    assert_eq!(point_color(0), neon_orange());
    assert_eq!(point_color(180), neon_red());
    assert_eq!(point_color(90), white());
}

#[test]
fn compass_bar_geometry() {
    assert_eq!(compass_bar(3840), Rect { x: 1560, y: 24, w: 720, h: 72 });
    assert_eq!(compass_bar(720), Rect { x: 0, y: 24, w: 720, h: 72 });
    assert_eq!(tick_top(24, 72, 18), 74);
    assert_eq!(vignette_alpha(0), 120);
    assert_eq!(vignette_alpha(59), 2);
}

#[test]
fn gauge_panels_are_held_on_the_image() {
    // speedometer: radius 195, padding 34
    let (cx, cy, r) = speedometer_place(2160);
    assert_eq!((cx, cy, r), (231, 1929, 195));
    let p = gauge_panel(cx, cy, r, 34, 0);
    assert_eq!(p, Rect { x: 2, y: 1700, w: 458, h: 458 });
    // radar: radius 130, padding 30, 38 rows for the readout
    let (gx, gy, gr) = radar_place();
    assert_eq!(gauge_panel(gx, gy, gr, 30, 38), Rect { x: 6, y: 6, w: 320, h: 358 });
    // a gauge too close to the edge is held at 0
    assert_eq!(gauge_panel(10, 10, 50, 5, 0), Rect { x: 0, y: 0, w: 110, h: 110 });
}

#[test]
fn redline_zone_starts_at_82_percent() {
    assert!(!segment_in_redline(0));
    assert!(!segment_in_redline(49));
    assert!(segment_in_redline(50));
    assert!(segment_in_redline(59));
    assert_eq!(redline_marker_start(), 49);
}

#[test]
fn dial_ticks() {
    let t0 = dial_tick(0, 195);
    assert!(t0.major);
    assert_eq!((t0.inner, t0.outer, t0.glow), (165, 197, 2));
    assert_eq!(t0.color, white());
    let t1 = dial_tick(1, 195);
    assert!(!t1.major);
    assert_eq!((t1.inner, t1.outer, t1.glow), (177, 197, 1));
    assert_eq!(t1.color, grey());
    assert_eq!(dial_tick(8, 195).color, white());
    assert_eq!(dial_tick(9, 195).color, neon_red());
    assert_eq!(dial_tick(10, 195).color, neon_red());
    assert_eq!(dial_label_color(8), grey());
    assert_eq!(dial_label_color(10), Color { r: 200, g: 50, b: 60, a: 200 });
}

#[test]
fn bars_under_the_gauges() {
    let p = Rect { x: 2, y: 1700, w: 458, h: 458 };
    assert_eq!(speed_bar(p), Rect { x: 22, y: 2132, w: 418, h: 8 });
    let q = Rect { x: 6, y: 6, w: 320, h: 358 };
    assert_eq!(z_bar(q), Rect { x: 20, y: 344, w: 292, h: 8 });
}

#[test]
fn radar_rings() {
    let rings: Vec<(i32, u8, String)> = (0..3).map(|i| radar_ring(i, 130)).collect();
    assert_eq!(rings[0], (43, 70, "0.3".to_string()));
    assert_eq!(rings[1], (86, 100, "0.6".to_string()));
    assert_eq!(rings[2], (130, 135, "1.0".to_string()));
}

#[test]
fn radar_trail_brightens_towards_the_present() {
    assert_eq!(trail_dot_alpha(0), 25);
    assert_eq!(trail_dot_alpha(1), 31);
    assert_eq!(trail_dot_alpha(22), 157);
    assert_eq!(trail_dot_alpha(23), 160);
    assert_eq!(trail_dot_alpha(39), 160);
}

#[test]
fn minimap_trail_strokes() {
    assert!(trail_strokes(0).is_empty());
    assert!(trail_strokes(1).is_empty());
    assert_eq!(
        trail_strokes(3),
        vec![
            TrailStroke { from: 1, to: 2, alpha: 220, glow_alpha: 44 },
            TrailStroke { from: 0, to: 1, alpha: 216, glow_alpha: 43 },
        ]
    );
    let long = trail_strokes(100);
    assert_eq!(long.len(), 49);
    assert_eq!(long[0], TrailStroke { from: 98, to: 99, alpha: 220, glow_alpha: 44 });
    assert_eq!(long[48], TrailStroke { from: 50, to: 51, alpha: 35, glow_alpha: 7 });
    assert_eq!(long[46].alpha, 36);
}

#[test]
fn corner_widgets() {
    assert_eq!(minimap_origin(3840, 2160, 280, 30), (3530, 1850));
    assert_eq!(gps_tag_place(3840), (3504, 24));
}
