//! The integer decisions of the HUD widgets: where each widget and its panel
//! sit, which compass ticks are cardinal or major and how they are labelled,
//! which speedometer segments lie in the redline zone, and how the G-force
//! and mini-map trails fade.
use vstd::prelude::*;
use crate::canvas::Color;
use crate::elements::HudElements;
use crate::panel::{
    grey, grey_rgba, neon_cyan, neon_cyan_rgba, neon_orange, neon_orange_rgba, neon_red,
    neon_red_rgba, white, white_rgba,
};
use crate::text::push_char;
use vstd::string::StringExecFns;

verus! {

/// A rectangle on the image: top-left corner and size.
#[derive(Debug, Clone, Copy, PartialEq, Eq, Structural)]
pub struct Rect {
    pub x: u32,
    pub y: u32,
    pub w: u32,
    pub h: u32,
}

/// `v` held at 0 from below, then taken as a `u32` (a negative `i32` never
/// reaches the cast).
pub open spec fn floor_at_zero(v: int) -> u32 {
    if v > 0 {
        v as u32
    } else {
        0
    }
}

/// The panel around a round gauge of radius `radius` centred at `(cx, cy)`:
/// `pad` pixels of margin on every side, `extra_h` more rows below, and the
/// corner held on the image.
pub fn gauge_panel(cx: i32, cy: i32, radius: i32, pad: i32, extra_h: i32) -> (r: Rect)
    requires
        0 <= radius,
        0 <= pad,
        0 <= extra_h,
        radius * 2 + pad * 2 + extra_h <= i32::MAX,
    ensures
        r.x == floor_at_zero(cx - radius - pad),
        r.y == floor_at_zero(cy - radius - pad),
        r.w == radius * 2 + pad * 2,
        r.h == radius * 2 + pad * 2 + extra_h,
{
    let x = cx as i64 - radius as i64 - pad as i64;
    let y = cy as i64 - radius as i64 - pad as i64;
    let side = (radius * 2 + pad * 2) as u32;
    Rect {
        x: if x > 0 {
            x as u32
        } else {
            0
        },
        y: if y > 0 {
            y as u32
        } else {
            0
        },
        w: side,
        h: side + extra_h as u32,
    }
}

// ─── Speedometer ──────────────────────────────────────────────────────────────

/// The number of dash segments of the speedometer arc.
pub const SPEED_SEGMENTS: i32 = 60;

/// Whether the fraction `num / den` of the dial lies in the redline zone,
/// which starts at 82 % of full scale.
pub open spec fn in_redline(num: int, den: int) -> bool {
    num * 50 >= 41 * den
}

/// Whether background segment `s` of the arc is drawn in the redline colour.
pub fn segment_in_redline(s: i32) -> (b: bool)
    requires
        0 <= s <= SPEED_SEGMENTS,
    ensures
        b == in_redline(s as int, SPEED_SEGMENTS as int),
{
    s * 50 >= 41 * SPEED_SEGMENTS
}

/// The first segment that carries the redline marker: 82 % of the
/// segments, rounded down.
pub fn redline_marker_start() -> (s: i32)
    ensures
        s == 82 * SPEED_SEGMENTS / 100,
{
    82 * SPEED_SEGMENTS / 100
}

/// How one of the eleven speedometer ticks (0 to 10) is drawn.
#[derive(Debug, Clone, Copy, PartialEq, Eq, Structural)]
pub struct DialTick {
    /// Even ticks are major: longer, with a speed label.
    pub major: bool,
    /// Inner radius of the tick line.
    pub inner: i32,
    /// Outer radius of the tick line.
    pub outer: i32,
    /// Glow radius of the tick line.
    pub glow: i32,
    pub color: Color,
}

/// The colour of dial tick `tick`: red in the redline zone, else white for
/// a major tick and grey for a minor one.
pub open spec fn dial_tick_rgba(tick: int) -> (u8, u8, u8, u8) {
    if in_redline(tick, 10) {
        neon_red_rgba()
    } else if tick % 2 == 0 {
        white_rgba()
    } else {
        grey_rgba()
    }
}

/// Dial tick `tick` of a speedometer of radius `radius`.
pub fn dial_tick(tick: i32, radius: i32) -> (t: DialTick)
    requires
        0 <= tick <= 10,
        30 <= radius <= i32::MAX - 2,
    ensures
        t.major == (tick % 2 == 0),
        t.inner == if tick % 2 == 0 {
            radius - 30
        } else {
            radius - 18
        },
        t.outer == radius + 2,
        t.glow == if tick % 2 == 0 {
            2i32
        } else {
            1i32
        },
        t.color@ == dial_tick_rgba(tick as int),
{
    let major = tick % 2 == 0;
    let color = if tick * 50 >= 41 * 10 {
        neon_red()
    } else if major {
        white()
    } else {
        grey()
    };
    DialTick {
        major,
        inner: if major {
            radius - 30
        } else {
            radius - 18
        },
        outer: radius + 2,
        glow: if major {
            2
        } else {
            1
        },
        color,
    }
}

/// The colour of the speed label of a major dial tick.
pub fn dial_label_color(tick: i32) -> (c: Color)
    requires
        0 <= tick <= 10,
    ensures
        c@ == if in_redline(tick as int, 10) {
            (200u8, 50u8, 60u8, 200u8)
        } else {
            grey_rgba()
        },
{
    if tick * 50 >= 41 * 10 {
        Color { r: 200, g: 50, b: 60, a: 200 }
    } else {
        grey()
    }
}

/// The linear speed bar under the dial of a speedometer whose panel is `p`.
pub fn speed_bar(p: Rect) -> (r: Rect)
    requires
        p.x + 20 <= u32::MAX,
        p.h >= 26,
        p.y + p.h <= u32::MAX,
        p.w >= 40,
    ensures
        r == (Rect { x: (p.x + 20) as u32, y: (p.y + p.h - 26) as u32, w: (p.w - 40) as u32, h: 8 }),
{
    Rect { x: p.x + 20, y: p.y + p.h - 26, w: p.w - 40, h: 8 }
}

// ─── G-force radar ────────────────────────────────────────────────────────────

/// The radius, ring alpha and label of ring `i` (0 to 2) of a radar of
/// radius `radius`: at a third, two thirds and all of the radius.
pub fn radar_ring(i: usize, radius: i32) -> (r: (i32, u8, String))
    requires
        i < 3,
        0 <= radius <= i32::MAX / 2,
    ensures
        r.0 == if i == 0 {
            radius / 3
        } else if i == 1 {
            2 * radius / 3
        } else {
            radius as int
        },
        r.1 == if i == 0 {
            70u8
        } else if i == 1 {
            100u8
        } else {
            135u8
        },
        r.2@ == if i == 0 {
            "0.3"@
        } else if i == 1 {
            "0.6"@
        } else {
            "1.0"@
        },
{
    if i == 0 {
        (radius / 3, 70, "0.3".to_owned())
    } else if i == 1 {
        (2 * radius / 3, 100, "0.6".to_owned())
    } else {
        (radius, 135, "1.0".to_owned())
    }
}

/// The alpha of entry `idx` of the G-force trail (oldest first): 25, rising
/// by 6 per entry, capped at 160.
pub fn trail_dot_alpha(idx: usize) -> (a: u8)
    ensures
        a == dot_alpha(idx as int),
{
    if idx < 23 {
        (25 + idx * 6) as u8
    } else {
        160
    }
}

/// The alpha of entry `idx` of the G-force trail.
pub open spec fn dot_alpha(idx: int) -> int {
    if 25 + 6 * idx < 160 {
        25 + 6 * idx
    } else {
        160
    }
}

/// Older G-force samples fade out: an entry nearer the end of the trail
/// (newer) is at least as opaque as one before it, all between 25 and 160.
pub proof fn law_radar_trail_fades(older: int, newer: int)
    requires
        0 <= older <= newer,
    ensures
        dot_alpha(older) <= dot_alpha(newer),
        25 <= dot_alpha(older) <= 160,
{
}

/// The z-axis bar of a radar whose panel is `p`.
pub fn z_bar(p: Rect) -> (r: Rect)
    requires
        p.x + 14 <= u32::MAX,
        p.h >= 20,
        p.y + p.h <= u32::MAX,
        p.w >= 28,
    ensures
        r == (Rect { x: (p.x + 14) as u32, y: (p.y + p.h - 20) as u32, w: (p.w - 28) as u32, h: 8 }),
{
    Rect { x: p.x + 14, y: p.y + p.h - 20, w: p.w - 28, h: 8 }
}

// ─── Compass ──────────────────────────────────────────────────────────────────

/// The compass bar of an image `width` pixels wide: 720 × 72, centred
/// horizontally, 24 pixels from the top.
pub fn compass_bar(width: u32) -> (r: Rect)
    requires
        width >= 720,
    ensures
        r == (Rect { x: (width / 2 - 360) as u32, y: 24, w: 720, h: 72 }),
{
    Rect { x: width / 2 - 360, y: 24, w: 720, h: 72 }
}

/// The alpha of the edge shading `dx` pixels in from either end of the
/// compass bar.
pub fn vignette_alpha(dx: u32) -> (a: u8)
    requires
        dx < 60,
    ensures
        a == 2 * (60 - dx),
{
    (60 - dx) as u8 * 2
}

/// The compass bearing `offset` degrees from `heading`, in `0..360`.
pub fn bearing(heading: i32, offset: i32) -> (d: u32)
    requires
        i32::MIN <= heading + offset <= i32::MAX,
    ensures
        d < 360,
        d == (heading + offset) % 360,
{
    let v = heading + offset;
    let r = v % 360;
    if r < 0 {
        (r + 360) as u32
    } else {
        r as u32
    }
}

/// The kinds of compass tick, from the longest.
#[derive(Debug, Clone, Copy, PartialEq, Eq, Structural)]
pub enum TickKind {
    /// Every 45°: a compass point.
    Cardinal,
    /// Every 10°: labelled with the bearing.
    Major,
    /// Every 5°.
    Minor,
    /// Every other degree.
    Plain,
}

/// The kind of tick at bearing `deg`.
pub open spec fn tick_kind_spec(deg: int) -> TickKind {
    if deg % 45 == 0 {
        TickKind::Cardinal
    } else if deg % 10 == 0 {
        TickKind::Major
    } else if deg % 5 == 0 {
        TickKind::Minor
    } else {
        TickKind::Plain
    }
}

/// The kind of tick at bearing `deg`.
pub fn tick_kind(deg: u32) -> (k: TickKind)
    ensures
        k == tick_kind_spec(deg as int),
{
    if deg % 45 == 0 {
        TickKind::Cardinal
    } else if deg % 10 == 0 {
        TickKind::Major
    } else if deg % 5 == 0 {
        TickKind::Minor
    } else {
        TickKind::Plain
    }
}

/// The height of a tick: 18, 10, 6 or 3 pixels.
pub fn tick_height(k: TickKind) -> (h: u32)
    ensures
        h == match k {
            TickKind::Cardinal => 18u32,
            TickKind::Major => 10u32,
            TickKind::Minor => 6u32,
            TickKind::Plain => 3u32,
        },
{
    match k {
        TickKind::Cardinal => 18,
        TickKind::Major => 10,
        TickKind::Minor => 6,
        TickKind::Plain => 3,
    }
}

/// The colour of a tick: cyan for compass points, white for major ticks,
/// grey otherwise.
pub fn tick_color(k: TickKind) -> (c: Color)
    ensures
        c@ == match k {
            TickKind::Cardinal => neon_cyan_rgba(),
            TickKind::Major => white_rgba(),
            _ => grey_rgba(),
        },
{
    match k {
        TickKind::Cardinal => neon_cyan(),
        TickKind::Major => white(),
        _ => grey(),
    }
}

/// The name of the compass point at bearing `deg`, empty where there is none.
pub open spec fn point_name(deg: int) -> Seq<char> {
    if deg == 0 {
        seq!['N']
    } else if deg == 45 {
        seq!['N', 'E']
    } else if deg == 90 {
        seq!['E']
    } else if deg == 135 {
        seq!['S', 'E']
    } else if deg == 180 {
        seq!['S']
    } else if deg == 225 {
        seq!['S', 'W']
    } else if deg == 270 {
        seq!['W']
    } else if deg == 315 {
        seq!['N', 'W']
    } else {
        seq![]
    }
}

fn letters(a: char, b: Option<char>) -> (s: String)
    ensures
        s@ == match b {
            Some(c) => seq![a, c],
            None => seq![a],
        },
{
    let mut s = String::new();
    push_char(&mut s, a);
    match b {
        Some(c) => push_char(&mut s, c),
        None => {},
    }
    proof {
        assert(seq![a] =~= Seq::<char>::empty().push(a));
        if let Some(c) = b {
            assert(seq![a, c] =~= Seq::<char>::empty().push(a).push(c));
        }
    }
    s
}

/// The name of the compass point at bearing `deg`.
pub fn compass_point(deg: u32) -> (s: String)
    ensures
        s@ == point_name(deg as int),
{
    if deg == 0 {
        letters('N', None)
    } else if deg == 45 {
        letters('N', Some('E'))
    } else if deg == 90 {
        letters('E', None)
    } else if deg == 135 {
        letters('S', Some('E'))
    } else if deg == 180 {
        letters('S', None)
    } else if deg == 225 {
        letters('S', Some('W'))
    } else if deg == 270 {
        letters('W', None)
    } else if deg == 315 {
        letters('N', Some('W'))
    } else {
        String::new()
    }
}

/// The colour of a compass point's name: orange for north, red for south,
/// white for the others.
pub fn point_color(deg: u32) -> (c: Color)
    ensures
        c@ == if deg == 0 {
            neon_orange_rgba()
        } else if deg == 180 {
            neon_red_rgba()
        } else {
            white_rgba()
        },
{
    if deg == 0 {
        neon_orange()
    } else if deg == 180 {
        neon_red()
    } else {
        white()
    }
}

/// The top row of a tick of height `tick_h` on a compass bar whose top is at
/// `by` and whose height is `bh`: 4 pixels above the bar's bottom edge.
pub fn tick_top(by: u32, bh: u32, tick_h: u32) -> (y: u32)
    requires
        by + bh <= u32::MAX,
        tick_h + 4 <= bh,
    ensures
        y == by + bh - tick_h - 4,
{
    by + bh - tick_h - 4
}

// ─── Mini-map ─────────────────────────────────────────────────────────────────

/// One stroke of the mini-map's recent trail, between two telemetry
/// samples, and its alpha.
#[derive(Debug, Clone, Copy, PartialEq, Eq, Structural)]
pub struct TrailStroke {
    /// The earlier sample.
    pub from: usize,
    /// The later sample.
    pub to: usize,
    /// Alpha of the stroke itself.
    pub alpha: u8,
    /// Alpha of its four side glows.
    pub glow_alpha: u8,
}

/// The alpha of stroke `idx` of the recent trail (0 is the newest): 220,
/// falling by 4 per stroke, never below 35.
pub open spec fn stroke_alpha(idx: int) -> u8 {
    if 220 - 4 * idx > 35 {
        (220 - 4 * idx) as u8
    } else {
        35
    }
}

/// The recent trail fades with age: each older stroke is at most as opaque
/// as a newer one, and none is fainter than 35.
pub proof fn law_trail_fades(newer: int, older: int)
    requires
        0 <= newer <= older,
    ensures
        stroke_alpha(older) <= stroke_alpha(newer),
        35 <= stroke_alpha(older) <= 220,
{
}

/// The strokes of the recent trail over the first `n` samples: the last 50
/// samples, joined newest first, each to the one before it.
pub fn trail_strokes(n: usize) -> (t: Vec<TrailStroke>)
    ensures
        t@.len() == if n < 50 {
            if n == 0 {
                0
            } else {
                n - 1
            }
        } else {
            49
        },
        forall|k: int|
            0 <= k < t@.len() ==> #[trigger] t@[k] == (TrailStroke {
                from: (n - 2 - k) as usize,
                to: (n - 1 - k) as usize,
                alpha: stroke_alpha(k),
                glow_alpha: (stroke_alpha(k) / 5) as u8,
            }),
{
    let m: usize = if n < 50 {
        n
    } else {
        50
    };
    let mut t: Vec<TrailStroke> = Vec::new();
    if m == 0 {
        return t;
    }
    let mut k: usize = 0;
    while k + 1 < m
        invariant
            m <= n,
            m <= 50,
            m >= 1,
            m == (if n < 50 { n } else { 50 }),
            t@.len() == k,
            k + 1 <= m,
            forall|j: int|
                0 <= j < k ==> #[trigger] t@[j] == (TrailStroke {
                    from: (n - 2 - j) as usize,
                    to: (n - 1 - j) as usize,
                    alpha: stroke_alpha(j),
                    glow_alpha: (stroke_alpha(j) / 5) as u8,
                }),
        decreases m - k,
    {
        let alpha: u8 = if 220 - 4 * (k as u32) > 35 {
            (220 - 4 * (k as u32)) as u8
        } else {
            35
        };
        t.push(TrailStroke { from: n - 2 - k, to: n - 1 - k, alpha, glow_alpha: alpha / 5 });
        k = k + 1;
    }
    t
}

/// The corner of the `size` × `size` mini-map, `margin` pixels in from the
/// bottom-right corner of a `width` × `height` image.
pub fn minimap_origin(width: u32, height: u32, size: u32, margin: u32) -> (o: (u32, u32))
    requires
        size + margin <= width,
        size + margin <= height,
    ensures
        o == ((width - size - margin) as u32, (height - size - margin) as u32),
{
    (width - size - margin, height - size - margin)
}

// ─── Layout ───────────────────────────────────────────────────────────────────

/// The centre and radius of the speedometer on an image `height` pixels
/// high: radius 195, 36 pixels in from the bottom-left corner.
pub fn speedometer_place(height: i32) -> (p: (i32, i32, i32))
    requires
        height >= i32::MIN + 231,
    ensures
        p == (231i32, (height - 231) as i32, 195i32),
{
    (231, height - 231, 195)
}

/// The centre and radius of the G-force radar: radius 130, 36 pixels in
/// from the top-left corner.
pub fn radar_place() -> (p: (i32, i32, i32))
    ensures
        p == (166i32, 166i32, 130i32),
{
    (166, 166, 130)
}

/// The corner of the GPS tag, 310 × 72, 26 pixels in from the right edge
/// of an image `width` pixels wide and 24 from the top.
pub fn gps_tag_place(width: u32) -> (o: (u32, u32))
    requires
        width >= 336,
    ensures
        o == ((width - 336) as u32, 24u32),
{
    (width - 336, 24)
}

/// The list of enabled widgets as the header prints it: `"speed "`,
/// `"gforce "`, `"compass "`, `"gps "` and `"map"`, in that order, each where
/// its widget is on.
pub open spec fn summary_text(e: HudElements) -> Seq<char> {
    (if e.speedometer {
        "speed "@
    } else {
        seq![]
    }) + (if e.gforce {
        "gforce "@
    } else {
        seq![]
    }) + (if e.compass {
        "compass "@
    } else {
        seq![]
    }) + (if e.gps_tag {
        "gps "@
    } else {
        seq![]
    }) + (if e.minimap {
        "map"@
    } else {
        seq![]
    })
}

fn append_if(s: &mut String, on: bool, piece: &str)
    ensures
        final(s)@ == old(s)@ + if on {
            piece@
        } else {
            seq![]
        },
{
    if on {
        s.append(piece);
    } else {
        assert(old(s)@ + seq![] =~= old(s)@);
    }
}

/// The list of enabled widgets as the header prints it.
pub fn summary(e: HudElements) -> (s: String)
    ensures
        s@ == summary_text(e),
{
    let mut s = String::new();
    append_if(&mut s, e.speedometer, "speed ");
    append_if(&mut s, e.gforce, "gforce ");
    append_if(&mut s, e.compass, "compass ");
    append_if(&mut s, e.gps_tag, "gps ");
    append_if(&mut s, e.minimap, "map");
    proof {
        let e0: Seq<char> = seq![];
        assert(summary_text(e) =~= e0 + (if e.speedometer {
            "speed "@
        } else {
            seq![]
        }) + (if e.gforce {
            "gforce "@
        } else {
            seq![]
        }) + (if e.compass {
            "compass "@
        } else {
            seq![]
        }) + (if e.gps_tag {
            "gps "@
        } else {
            seq![]
        }) + (if e.minimap {
            "map"@
        } else {
            seq![]
        }));
    }
    s
}

} // verus!
