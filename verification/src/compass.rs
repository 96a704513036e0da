//! The fixed decorations of the compass bar: the shading at both ends and
//! the triangular marker under the current heading.
use vstd::prelude::*;
use crate::canvas::{Canvas, Color, image_size, image_pixels, in_bounds, in_rect, blend, bput, fill_rect};
use crate::font::{draw_text, text_fits, text_width, th, tw};
use crate::ffmpeg::{decimal, digit_char, lemma_decimal_len, three_digits, zero_padded};
use crate::text::{all_digits, digits_value, is_digit};
use crate::font::{centred_left, draw_text_c, text_covers};
use crate::panel::{
    blend_times, blended_at, bput_tracked, bracket_fits, bracket_points, corner_bracket, grey,
    grey_rgba, hits, lemma_blended_empty, lemma_hits_concat, neon_cyan, neon_cyan_rgba, neon_orange_rgba, neon_red_rgba,
    white, white_rgba,
};
use crate::widgets::{
    Rect, TickKind, compass_point, point_color, point_name, tick_color, tick_height, tick_kind,
    tick_kind_spec, tick_top, vignette_alpha,
};

verus! {

/// The shading laid over the column `d` pixels in from an end of the bar.
pub open spec fn shade_rgba(d: int) -> (u8, u8, u8, u8) {
    (4u8, 10u8, 24u8, (2 * (60 - d)) as u8)
}

/// How far in from its end of the bar `(px, py)` lies, where the shading
/// has reached it: the first `cols` columns from each end in full, and the
/// first `rows` rows of the next column.
pub open spec fn shade_column(bar: Rect, cols: int, rows: int, px: int, py: int) -> Option<int> {
    let (x, y, w, h) = (bar.x as int, bar.y as int, bar.w as int, bar.h as int);
    let reached = |d: int| d < cols || (d == cols && py < y + rows);
    if !(y <= py < y + h) {
        None
    } else if x <= px && reached(px - x) {
        Some(px - x)
    } else if px <= x + w - 1 && reached(x + w - 1 - px) {
        Some(x + w - 1 - px)
    } else {
        None
    }
}

/// A pixel after the shading of the first `cols` columns (and `rows` rows
/// of the next), given its colour `v` before.
pub open spec fn shaded_value(
    v: (u8, u8, u8, u8),
    bar: Rect,
    cols: int,
    rows: int,
    px: int,
    py: int,
) -> (u8, u8, u8, u8) {
    match shade_column(bar, cols, rows, px, py) {
        Some(d) => blend(v, shade_rgba(d)),
        None => v,
    }
}

/// Shades the 60 columns at each end of the compass bar, darkest at the
/// ends: column `d` from either end gets alpha `2 * (60 - d)`.
pub fn draw_end_shading(img: &mut Canvas, bar: Rect)
    requires
        bar.w >= 120,
        bar.x + bar.w <= u32::MAX,
        bar.y + bar.h <= u32::MAX,
    ensures
        image_size(*final(img)) == image_size(*old(img)),
        forall|px: u32, py: u32|
            in_bounds(image_size(*old(img)), px as int, py as int) ==> #[trigger] image_pixels(
                *final(img),
            )[(px, py)] == shaded_value(
                image_pixels(*old(img))[(px, py)],
                bar,
                60,
                0,
                px as int,
                py as int,
            ),
{
    let ghost size = image_size(*img);
    let ghost p0 = image_pixels(*img);
    let (bx, by, bw, bh) = (bar.x, bar.y, bar.w, bar.h);
    let mut dx: u32 = 0;
    while dx < 60
        invariant
            dx <= 60,
            bar.w >= 120,
            bar.x + bar.w <= u32::MAX,
            bar.y + bar.h <= u32::MAX,
            (bx, by, bw, bh) == (bar.x, bar.y, bar.w, bar.h),
            image_size(*img) == size,
            forall|px: u32, py: u32|
                in_bounds(size, px as int, py as int) ==> #[trigger] image_pixels(*img)[(px, py)]
                    == shaded_value(p0[(px, py)], bar, dx as int, 0, px as int, py as int),
        decreases 60 - dx,
    {
        let a = vignette_alpha(dx);
        let c = Color { r: 4, g: 10, b: 24, a };
        let mut dy: u32 = 0;
        while dy < bh
            invariant
                dx < 60,
                dy <= bh,
                bar.w >= 120,
                bar.x + bar.w <= u32::MAX,
                bar.y + bar.h <= u32::MAX,
                (bx, by, bw, bh) == (bar.x, bar.y, bar.w, bar.h),
                c@ == shade_rgba(dx as int),
                image_size(*img) == size,
                forall|px: u32, py: u32|
                    in_bounds(size, px as int, py as int) ==> #[trigger] image_pixels(*img)[(px, py)]
                        == shaded_value(p0[(px, py)], bar, dx as int, dy as int, px as int, py as int),
            decreases bh - dy,
        {
            let ghost m0 = image_pixels(*img);
            let (lx, rx, y) = (bx + dx, bx + bw - 1 - dx, by + dy);
            bput(img, lx, y, c);
            let ghost m1 = image_pixels(*img);
            bput(img, rx, y, c);
            proof {
                assert forall|px: u32, py: u32| in_bounds(size, px as int, py as int) implies #[trigger] image_pixels(
                    *img,
                )[(px, py)] == shaded_value(
                    p0[(px, py)],
                    bar,
                    dx as int,
                    dy + 1,
                    px as int,
                    py as int,
                ) by {
                    assert(m0[(px, py)] == shaded_value(
                        p0[(px, py)],
                        bar,
                        dx as int,
                        dy as int,
                        px as int,
                        py as int,
                    ));
                    if px == lx && py == y {
                        assert(m1[(px, py)] == blend(m0[(px, py)], c@));
                    } else if px == rx && py == y {
                        assert(m1[(px, py)] == m0[(px, py)]);
                    } else {
                        assert(m1[(px, py)] == m0[(px, py)]);
                    }
                }
            }
            dy = dy + 1;
        }
        proof {
            assert forall|px: u32, py: u32| in_bounds(size, px as int, py as int) implies #[trigger] image_pixels(
                *img,
            )[(px, py)] == shaded_value(p0[(px, py)], bar, dx + 1, 0, px as int, py as int) by {
                assert(shade_column(bar, dx as int, bh as int, px as int, py as int) == shade_column(
                    bar,
                    dx + 1,
                    0,
                    px as int,
                    py as int,
                ));
            }
        }
        dx = dx + 1;
    }
}

/// `v` held at 0 from below.
pub open spec fn at_least_zero(v: int) -> int {
    if v > 0 {
        v
    } else {
        0
    }
}

/// The first `n` column pairs of row `i` of the heading marker: column `j`
/// left of `tx` (held at 0) and right of it, `shift` pixels further out,
/// at height `ty - i`.
pub open spec fn marker_row(tx: int, ty: int, shift: int, i: int, n: int) -> Seq<(int, int)>
    decreases n,
{
    if n <= 0 {
        seq![]
    } else {
        marker_row(tx, ty, shift, i, n - 1) + seq![
            (at_least_zero(tx - (n - 1) - shift), ty - i),
            (tx + (n - 1) + shift, ty - i),
        ]
    }
}

/// The pixels of the first `rows` rows of the heading marker, in drawing
/// order: row `i` has `i` column pairs.
pub open spec fn marker_points(tx: int, ty: int, shift: int, rows: int) -> Seq<(int, int)>
    decreases rows,
{
    if rows <= 0 {
        seq![]
    } else {
        marker_points(tx, ty, shift, rows - 1) + marker_row(tx, ty, shift, rows - 1, rows - 1)
    }
}

/// The triangular marker pointing down at column `tx`: widest on row
/// `ty - 11`, narrowing to its tip at `(tx, ty - 1)`.  `c` is laid over
/// each of `marker_points` (with `shift` 0 for the marker itself, 1 for its
/// glow) as often as it occurs there.
pub fn draw_marker(img: &mut Canvas, tx: u32, ty: u32, shift: u32, c: Color)
    requires
        ty >= 11,
        tx + 10 + shift <= u32::MAX,
    ensures
        image_size(*final(img)) == image_size(*old(img)),
        blended_at(
            image_size(*old(img)),
            image_pixels(*old(img)),
            image_pixels(*final(img)),
            marker_points(tx as int, ty as int, shift as int, 12),
            c@,
        ),
{
    let ghost p0 = image_pixels(*img);
    let ghost size = image_size(*img);
    let ghost mut pts: Seq<(int, int)> = seq![];
    proof {
        lemma_blended_empty(size, p0, c@);
    }
    let mut i: u32 = 0;
    while i < 12
        invariant
            i <= 12,
            ty >= 11,
            tx + 10 + shift <= u32::MAX,
            image_size(*img) == size,
            pts == marker_points(tx as int, ty as int, shift as int, i as int),
            blended_at(size, p0, image_pixels(*img), pts, c@),
        decreases 12 - i,
    {
        let ghost row_start = pts;
        let mut j: u32 = 0;
        while j < i
            invariant
                i < 12,
                j <= i,
                ty >= 11,
                tx + 10 + shift <= u32::MAX,
                image_size(*img) == size,
                pts == row_start + marker_row(tx as int, ty as int, shift as int, i as int, j as int),
                blended_at(size, p0, image_pixels(*img), pts, c@),
            decreases i - j,
        {
            let left = tx.saturating_sub(j + shift);
            bput_tracked(img, left, ty - i, c, Ghost(p0), Ghost(pts));
            proof {
                pts = pts.push((left as int, (ty - i) as int));
            }
            bput_tracked(img, tx + j + shift, ty - i, c, Ghost(p0), Ghost(pts));
            proof {
                pts = pts.push(((tx + j + shift) as int, (ty - i) as int));
                assert(pts == row_start + marker_row(
                    tx as int,
                    ty as int,
                    shift as int,
                    i as int,
                    j + 1,
                ));
            }
            j = j + 1;
        }
        i = i + 1;
    }
}

/// The height of a tick of the given kind.
pub open spec fn tick_len(k: TickKind) -> int {
    match k {
        TickKind::Cardinal => 18,
        TickKind::Major => 10,
        TickKind::Minor => 6,
        TickKind::Plain => 3,
    }
}

/// The colour of a tick of the given kind.
pub open spec fn tick_rgba(k: TickKind) -> (u8, u8, u8, u8) {
    match k {
        TickKind::Cardinal => neon_cyan_rgba(),
        TickKind::Major => white_rgba(),
        _ => grey_rgba(),
    }
}

/// The colour of the name of the compass point at bearing `deg`.
pub open spec fn point_rgba(deg: int) -> (u8, u8, u8, u8) {
    if deg == 0 {
        neon_orange_rgba()
    } else if deg == 180 {
        neon_red_rgba()
    } else {
        white_rgba()
    }
}

/// The colour of a bearing label.
pub open spec fn bearing_label_rgba() -> (u8, u8, u8, u8) {
    (55u8, 75u8, 100u8, 170u8)
}

/// A pixel after the tick for bearing `deg` is drawn in column `x` of the
/// compass bar `bar`, given its colour `v` before: the tick rising from 4
/// pixels above the bar's bottom; for compass points and major ticks a
/// faint pixel either side of its top; then the point's name (scale 2,
/// 6 pixels below the bar's top) or the three-digit bearing (scale 1,
/// 24 pixels above the bar's bottom), centred on the tick.
pub open spec fn tick_value(
    v: (u8, u8, u8, u8),
    bar: Rect,
    x: int,
    deg: int,
    px: int,
    py: int,
) -> (u8, u8, u8, u8) {
    let k = tick_kind_spec(deg);
    let h = tick_len(k);
    let top = bar.y + bar.h - h - 4;
    let c = tick_rgba(k);
    let v1 = if in_rect(x, top, 1, h, px, py) {
        blend(v, c)
    } else {
        v
    };
    let halo = k == TickKind::Cardinal || k == TickKind::Major;
    let gc = (c.0, c.1, c.2, 60u8);
    let v2 = if halo && px == at_least_zero(x - 1) && py == top {
        blend(v1, gc)
    } else {
        v1
    };
    let v3 = if halo && px == x + 1 && py == top {
        blend(v2, gc)
    } else {
        v2
    };
    let name = point_name(deg);
    let label = zero_padded(decimal(deg as nat), 3);
    if k == TickKind::Cardinal && name.len() > 0 && text_covers(
        name,
        centred_left(name.len() as int, x, 2),
        bar.y + 6,
        2,
        px,
        py,
    ) {
        point_rgba(deg)
    } else if k == TickKind::Major && text_covers(
        label,
        centred_left(3, x, 1),
        bar.y + bar.h - 24,
        1,
        px,
        py,
    ) {
        bearing_label_rgba()
    } else {
        v3
    }
}

/// Draws the tick for bearing `deg` (below 360) in column `x` of the compass
/// bar, with its halo and label.
pub fn draw_compass_tick(img: &mut Canvas, bar: Rect, x: u32, deg: u32)
    requires
        deg < 360,
        bar.h >= 24,
        bar.y + bar.h <= u32::MAX,
        x + 36 <= u32::MAX,
    ensures
        image_size(*final(img)) == image_size(*old(img)),
        forall|px: u32, py: u32|
            in_bounds(image_size(*old(img)), px as int, py as int) ==> #[trigger] image_pixels(
                *final(img),
            )[(px, py)] == tick_value(
                image_pixels(*old(img))[(px, py)],
                bar,
                x as int,
                deg as int,
                px as int,
                py as int,
            ),
{
    let ghost size = image_size(*img);
    let ghost p0 = image_pixels(*img);
    let kind = tick_kind(deg);
    let h = tick_height(kind);
    let top = tick_top(bar.y, bar.h, h);
    let tc = tick_color(kind);
    fill_rect(img, x, top, 1, h, tc);
    let ghost p1 = image_pixels(*img);
    let halo = kind == TickKind::Cardinal || kind == TickKind::Major;
    if halo {
        bput(img, x.saturating_sub(1), top, tc.with_alpha(60));
        bput(img, x + 1, top, tc.with_alpha(60));
    }
    proof {
        lemma_decimal_len(deg as nat);
    }
    if kind == TickKind::Cardinal {
        let label = compass_point(deg);
        if !label.as_str().is_empty() {
            draw_text_c(img, label.as_str(), x, bar.y + 6, 2, point_color(deg));
        }
    } else if kind == TickKind::Major {
        let label = three_digits(deg);
        draw_text_c(img, label.as_str(), x, bar.y + bar.h - 24, 1, Color { r: 55, g: 75, b: 100, a: 170 });
    }
    proof {
        assert forall|px: u32, py: u32| in_bounds(size, px as int, py as int) implies #[trigger] image_pixels(
            *img,
        )[(px, py)] == tick_value(p0[(px, py)], bar, x as int, deg as int, px as int, py as int) by {
            assert(p1[(px, py)] == if in_rect(
                x as int,
                top as int,
                1,
                h as int,
                px as int,
                py as int,
            ) {
                blend(p0[(px, py)], tc@)
            } else {
                p0[(px, py)]
            });
        }
    }
}

/// The width of the heading badge around a heading text of `len` characters.
pub open spec fn badge_width(len: int) -> int {
    text_width(len, 3) + 14
}

/// The left edge of the heading badge, centred under the bar's middle and
/// held at 0.
pub open spec fn badge_left(bar: Rect, len: int) -> int {
    at_least_zero(bar.x + bar.w / 2 - badge_width(len) / 2)
}

/// Whether every coordinate of the compass read-outs stays within `u32`, for
/// heading, speed and time texts of the given lengths.
pub open spec fn readouts_fit(bar: Rect, hdg_len: int, spd_len: int, ts_len: int) -> bool {
    let tri_x = bar.x + bar.w / 2;
    let hx = badge_left(bar, hdg_len);
    let hw = badge_width(hdg_len);
    let mid = bar.y + bar.h / 2;
    &&& bar.h >= 20
    &&& bar.x + bar.w <= u32::MAX && bar.y + bar.h <= u32::MAX
    &&& hdg_len * 18 <= u32::MAX && hw <= u32::MAX
    &&& hx + hw - 1 <= u32::MAX && bar.y + 39 <= u32::MAX
    &&& bracket_fits(hx, bar.y + 5, hw, 35, 6)
    &&& text_fits(hdg_len, centred_left(hdg_len, tri_x, 3), bar.y + 9, 3)
    &&& text_fits(spd_len, bar.x + 12, mid - 10, 2)
    &&& text_fits(4, bar.x + 12, mid + 6, 1)
    &&& ts_len > 0 ==> {
        &&& ts_len * 6 <= u32::MAX
        &&& text_width(ts_len, 1) + 12 <= bar.x + bar.w
        &&& text_fits(ts_len, bar.x + bar.w - text_width(ts_len, 1) - 12, mid - 4, 1)
    }
}

/// A pixel after the compass read-outs are drawn on the bar `bar`, given
/// its colour `v` before: the heading badge (a dark box 35 pixels high with
/// cyan corner brackets and the heading text, scale 3, centred under the
/// bar's middle), the speed (scale 2) with `km/h` below it at the left, and
/// the time text at the right.
pub open spec fn readouts_value(
    v: (u8, u8, u8, u8),
    bar: Rect,
    hdg: Seq<char>,
    spd: Seq<char>,
    ts: Seq<char>,
    px: int,
    py: int,
) -> (u8, u8, u8, u8) {
    let tri_x = bar.x + bar.w / 2;
    let hx = badge_left(bar, hdg.len() as int);
    let hw = badge_width(hdg.len() as int);
    let hy = bar.y + 5;
    let mid = bar.y + bar.h / 2;
    let v1 = if in_rect(hx, hy, hw, 35, px, py) {
        blend(v, (0u8, 18u8, 38u8, 220u8))
    } else {
        v
    };
    let v2 = blend_times(v1, neon_cyan_rgba(), hits(bracket_points(hx, hy, hw, 35, 6), px, py));
    let v3 = if text_covers(hdg, centred_left(hdg.len() as int, tri_x, 3), hy + 4, 3, px, py) {
        neon_cyan_rgba()
    } else {
        v2
    };
    let v4 = if text_covers(spd, bar.x + 12, mid - 10, 2, px, py) {
        white_rgba()
    } else {
        v3
    };
    let v5 = if text_covers("km/h"@, bar.x + 12, mid + 6, 1, px, py) {
        grey_rgba()
    } else {
        v4
    };
    if ts.len() > 0 && text_covers(
        ts,
        bar.x + bar.w - text_width(ts.len() as int, 1) - 12,
        mid - 4,
        1,
        px,
        py,
    ) {
        grey_rgba()
    } else {
        v5
    }
}

/// Draws the heading badge, the speed read-out and the time on the compass
/// bar, from texts formatted by the caller.
pub fn draw_compass_readouts(
    img: &mut Canvas,
    bar: Rect,
    heading_text: &str,
    speed_text: &str,
    time_text: &str,
)
    requires
        readouts_fit(
            bar,
            heading_text@.len() as int,
            speed_text@.len() as int,
            time_text@.len() as int,
        ),
    ensures
        image_size(*final(img)) == image_size(*old(img)),
        forall|px: u32, py: u32|
            in_bounds(image_size(*old(img)), px as int, py as int) ==> #[trigger] image_pixels(
                *final(img),
            )[(px, py)] == readouts_value(
                image_pixels(*old(img))[(px, py)],
                bar,
                heading_text@,
                speed_text@,
                time_text@,
                px as int,
                py as int,
            ),
{
    let ghost size = image_size(*img);
    let ghost p0 = image_pixels(*img);
    proof {
        reveal_strlit("km/h");
    }
    let tri_x = bar.x + bar.w / 2;
    let hw = tw(heading_text, 3) + 14;
    let hh = th(3) + 8;
    let hx = tri_x.saturating_sub(hw / 2);
    let hy = bar.y + 5;
    fill_rect(img, hx, hy, hw, hh, Color { r: 0, g: 18, b: 38, a: 220 });
    let ghost p1 = image_pixels(*img);
    corner_bracket(img, hx, hy, hw, hh, 6, neon_cyan());
    let ghost p2 = image_pixels(*img);
    draw_text_c(img, heading_text, tri_x, hy + 4, 3, neon_cyan());
    let ghost p3 = image_pixels(*img);
    let mid = bar.y + bar.h / 2;
    draw_text(img, speed_text, bar.x + 12, mid - 10, 2, white());
    let ghost p4 = image_pixels(*img);
    draw_text(img, "km/h", bar.x + 12, mid + 6, 1, grey());
    let ghost p5 = image_pixels(*img);
    if !time_text.is_empty() {
        let tsw = tw(time_text, 1);
        draw_text(img, time_text, bar.x + bar.w - tsw - 12, mid - 4, 1, grey());
    }
    proof {
        assert forall|px: u32, py: u32| in_bounds(size, px as int, py as int) implies #[trigger] image_pixels(
            *img,
        )[(px, py)] == readouts_value(
            p0[(px, py)],
            bar,
            heading_text@,
            speed_text@,
            time_text@,
            px as int,
            py as int,
        ) by {
            assert(p1[(px, py)] == if in_rect(
                hx as int,
                hy as int,
                hw as int,
                hh as int,
                px as int,
                py as int,
            ) {
                blend(p0[(px, py)], (0u8, 18u8, 38u8, 220u8))
            } else {
                p0[(px, py)]
            });
            assert(p2[(px, py)] == blend_times(
                p1[(px, py)],
                neon_cyan_rgba(),
                hits(bracket_points(hx as int, hy as int, hw as int, hh as int, 6), px as int, py as int),
            ));
            assert(p3[(px, py)] == if text_covers(
                heading_text@,
                centred_left(heading_text@.len() as int, tri_x as int, 3),
                hy + 4,
                3,
                px as int,
                py as int,
            ) {
                neon_cyan_rgba()
            } else {
                p2[(px, py)]
            });
            assert(p4[(px, py)] == if text_covers(speed_text@, bar.x + 12, mid - 10, 2, px as int, py as int) {
                white_rgba()
            } else {
                p3[(px, py)]
            });
            assert(p5[(px, py)] == if text_covers("km/h"@, bar.x + 12, mid + 6, 1, px as int, py as int) {
                grey_rgba()
            } else {
                p4[(px, py)]
            });
        }
    }
}

/// On the compass bar the heading badge shows the heading text: every pixel
/// that the heading covers (scale 3, centred on the bar's middle column, 9
/// pixels below the bar's top) is neon cyan unless the speed, `km/h` or the
/// time is drawn over it; every pixel of the speed (scale 2, 12 pixels in
/// from the left, 10 above the middle row) is white unless `km/h` or the
/// time is; `km/h` is grey unless the time is; and the time is grey.
pub proof fn law_readouts_show_their_texts(
    v: (u8, u8, u8, u8),
    bar: Rect,
    hdg: Seq<char>,
    spd: Seq<char>,
    ts: Seq<char>,
    px: int,
    py: int,
)
    ensures
        ({
            let mid = bar.y + bar.h / 2;
            let on_hdg = text_covers(
                hdg,
                centred_left(hdg.len() as int, bar.x + bar.w / 2, 3),
                bar.y + 9,
                3,
                px,
                py,
            );
            let on_spd = text_covers(spd, bar.x + 12, mid - 10, 2, px, py);
            let on_unit = text_covers("km/h"@, bar.x + 12, mid + 6, 1, px, py);
            let on_time = ts.len() > 0 && text_covers(
                ts,
                bar.x + bar.w - text_width(ts.len() as int, 1) - 12,
                mid - 4,
                1,
                px,
                py,
            );
            let r = readouts_value(v, bar, hdg, spd, ts, px, py);
            &&& on_hdg && !on_spd && !on_unit && !on_time ==> r == neon_cyan_rgba()
            &&& on_spd && !on_unit && !on_time ==> r == white_rgba()
            &&& on_unit && !on_time ==> r == grey_rgba()
            &&& on_time ==> r == grey_rgba()
        }),
{
}

/// The name of a compass point is made of the letters of the directions it
/// lies between: `N` for bearings 315, 0 and 45, `S` for 135, 180 and 225,
/// `E` for 45, 90 and 135, `W` for 225, 270 and 315, north or south first;
/// the four main points have one letter and the others two.  North is
/// drawn in orange and south in red.
pub proof fn law_point_names(deg: int)
    requires
        0 <= deg < 360,
        deg % 45 == 0,
    ensures
        point_name(deg).contains('N') <==> (deg == 315 || deg == 0 || deg == 45),
        point_name(deg).contains('S') <==> (deg == 135 || deg == 180 || deg == 225),
        point_name(deg).contains('E') <==> (deg == 45 || deg == 90 || deg == 135),
        point_name(deg).contains('W') <==> (deg == 225 || deg == 270 || deg == 315),
        point_name(deg).len() == if deg % 90 == 0 { 1int } else { 2int },
        point_name(deg).len() == 2 ==> (point_name(deg)[0] == 'N' || point_name(deg)[0] == 'S'),
        forall|i: int| 0 <= i < point_name(deg).len() ==> #[trigger] point_name(deg)[i] == 'N'
            || point_name(deg)[i] == 'S' || point_name(deg)[i] == 'E' || point_name(deg)[i] == 'W',
        point_rgba(0) == neon_orange_rgba(),
        point_rgba(180) == neon_red_rgba(),
{
    let n = point_name(deg);
    assert(deg == 0 || deg == 45 || deg == 90 || deg == 135 || deg == 180 || deg == 225 || deg
        == 270 || deg == 315);
    if n.len() == 1 {
        assert(n.contains('N') <==> n[0] == 'N');
        assert(n.contains('S') <==> n[0] == 'S');
        assert(n.contains('E') <==> n[0] == 'E');
        assert(n.contains('W') <==> n[0] == 'W');
    } else {
        assert(n.contains('N') <==> (n[0] == 'N' || n[1] == 'N'));
        assert(n.contains('S') <==> (n[0] == 'S' || n[1] == 'S'));
        assert(n.contains('E') <==> (n[0] == 'E' || n[1] == 'E'));
        assert(n.contains('W') <==> (n[0] == 'W' || n[1] == 'W'));
    }
}

proof fn lemma_three_digits(n: nat)
    requires
        n < 1000,
    ensures
        zero_padded(decimal(n), 3) == seq![
            digit_char(n / 100),
            digit_char((n / 10) % 10),
            digit_char(n % 10),
        ],
{
    reveal_with_fuel(decimal, 3);
    lemma_decimal_len(n);
    if n < 10 {
        assert(zero_padded(decimal(n), 3) =~= seq!['0', '0', digit_char(n)]);
    } else if n < 100 {
        assert(decimal(n) == seq![digit_char(n / 10)].push(digit_char(n % 10)));
        assert(zero_padded(decimal(n), 3) =~= seq!['0', digit_char(n / 10), digit_char(n % 10)]);
    } else {
        assert(decimal(n / 10) == seq![digit_char(n / 100)].push(digit_char((n / 10) % 10)));
        assert(zero_padded(decimal(n), 3) =~= seq![
            digit_char(n / 100),
            digit_char((n / 10) % 10),
            digit_char(n % 10),
        ]);
    }
}

proof fn lemma_digit_char_of(c: char)
    requires
        is_digit(c),
    ensures
        digit_char((c as nat - '0' as nat) as nat) == c,
{
}

proof fn lemma_parse_three(label: Seq<char>, n: nat)
    requires
        label.len() == 3,
        all_digits(label),
        digits_value(label) == n,
    ensures
        label == seq![digit_char(n / 100), digit_char((n / 10) % 10), digit_char(n % 10)],
{
    reveal_with_fuel(digits_value, 4);
    assert(is_digit(label[0]) && is_digit(label[1]) && is_digit(label[2]));
    let d0 = (label[0] as nat - '0' as nat) as nat;
    let d1 = (label[1] as nat - '0' as nat) as nat;
    let d2 = (label[2] as nat - '0' as nat) as nat;
    assert(label.drop_last().drop_last().drop_last().len() == 0);
    assert(label.drop_last().drop_last().last() == label[0]);
    assert(label.drop_last().last() == label[1]);
    assert(n == d0 * 100 + d1 * 10 + d2);
    assert(n / 100 == d0 && (n / 10) % 10 == d1 && n % 10 == d2) by (nonlinear_arith)
        requires
            n == d0 * 100 + d1 * 10 + d2,
            d0 < 10,
            d1 < 10,
            d2 < 10,
    ;
    lemma_digit_char_of(label[0]);
    lemma_digit_char_of(label[1]);
    lemma_digit_char_of(label[2]);
    assert(label =~= seq![digit_char(n / 100), digit_char((n / 10) % 10), digit_char(n % 10)]);
}

/// The label under a major tick reads as the tick's own bearing: every
/// pixel of the three-digit text whose value is `deg` (scale 1, centred on
/// the tick, 24 pixels above the bar's bottom) is in the label colour.
pub proof fn law_tick_label_is_its_bearing(
    v: (u8, u8, u8, u8),
    bar: Rect,
    x: int,
    deg: int,
    label: Seq<char>,
    px: int,
    py: int,
)
    requires
        0 <= deg < 360,
        deg % 10 == 0,
        deg % 45 != 0,
        label.len() == 3,
        all_digits(label),
        digits_value(label) == deg,
    ensures
        text_covers(label, centred_left(3, x, 1), bar.y + bar.h - 24, 1, px, py) ==> tick_value(
            v,
            bar,
            x,
            deg,
            px,
            py,
        ) == bearing_label_rgba(),
{
    lemma_three_digits(deg as nat);
    lemma_parse_three(label, deg as nat);
}

/// Every pixel of a compass point's name under its tick (scale 2, centred on
/// the tick, 6 pixels below the bar's top) is in the point's colour.
pub proof fn law_tick_shows_point_name(
    v: (u8, u8, u8, u8),
    bar: Rect,
    x: int,
    deg: int,
    px: int,
    py: int,
)
    requires
        0 <= deg < 360,
        deg % 45 == 0,
    ensures
        text_covers(
            point_name(deg),
            centred_left(point_name(deg).len() as int, x, 2),
            bar.y + 6,
            2,
            px,
            py,
        ) ==> tick_value(v, bar, x, deg, px, py) == point_rgba(deg),
{
    assert(point_name(deg).len() > 0);
}

/// The tick for bearing `deg` is a one-pixel column ending 4 pixels above
/// the bar's bottom: 18 pixels of cyan for a compass point (a multiple of
/// 45), 10 of white for a multiple of 10, 6 of grey for a multiple of 5,
/// and 3 of grey otherwise.  Below its top row (where the halo may fall)
/// each of its pixels that no label covers is that colour laid over the
/// pixel.
pub proof fn law_tick_column(v: (u8, u8, u8, u8), bar: Rect, x: int, deg: int, py: int)
    requires
        0 <= deg < 360,
    ensures
        ({
            let len = if deg % 45 == 0 {
                18int
            } else if deg % 10 == 0 {
                10int
            } else if deg % 5 == 0 {
                6int
            } else {
                3int
            };
            let colour = if deg % 45 == 0 {
                (0u8, 230u8, 255u8, 255u8)
            } else if deg % 10 == 0 {
                (218u8, 234u8, 255u8, 255u8)
            } else {
                (78u8, 94u8, 118u8, 200u8)
            };
            let bottom = bar.y + bar.h - 4;
            let labelled = text_covers(
                point_name(deg),
                centred_left(point_name(deg).len() as int, x, 2),
                bar.y + 6,
                2,
                x,
                py,
            ) || text_covers(
                zero_padded(decimal(deg as nat), 3),
                centred_left(3, x, 1),
                bar.y + bar.h - 24,
                1,
                x,
                py,
            );
            bottom - len < py < bottom && !labelled ==> tick_value(v, bar, x, deg, x, py) == blend(
                v,
                colour,
            )
        }),
{
}

/// The compass bar's ends are shaded, darkest at the very ends: on the
/// bar's rows, the column `d` pixels in from the left end or from the right
/// end (`d < 60`) gets `(4, 10, 24)` with alpha `120 - 2d` laid over it, and
/// the columns between the two shaded bands are left as they were.
pub proof fn law_end_shading(v: (u8, u8, u8, u8), bar: Rect, px: int, py: int)
    requires
        bar.w >= 120,
        bar.y <= py < bar.y + bar.h,
    ensures
        bar.x <= px < bar.x + 60 ==> shaded_value(v, bar, 60, 0, px, py) == blend(
            v,
            (4u8, 10u8, 24u8, (120 - 2 * (px - bar.x)) as u8),
        ),
        bar.x + bar.w - 60 <= px < bar.x + bar.w ==> shaded_value(v, bar, 60, 0, px, py) == blend(
            v,
            (4u8, 10u8, 24u8, (120 - 2 * (bar.x + bar.w - 1 - px)) as u8),
        ),
        bar.x + 60 <= px < bar.x + bar.w - 60 ==> shaded_value(v, bar, 60, 0, px, py) == v,
{
}

/// How far `a` lies from `b`.
pub open spec fn distance(a: int, b: int) -> int {
    if a >= b {
        a - b
    } else {
        b - a
    }
}

proof fn lemma_marker_row_hits(tx: int, ty: int, shift: int, i: int, n: int, px: int, py: int)
    requires
        0 <= shift,
        0 <= n,
        tx - n - shift >= 0,
    ensures
        hits(marker_row(tx, ty, shift, i, n), px, py) > 0 <==> (py == ty - i && shift <= distance(
            px,
            tx,
        ) < n + shift),
    decreases n,
{
    if n > 0 {
        let a = marker_row(tx, ty, shift, i, n - 1);
        let b = seq![(tx - (n - 1) - shift, ty - i), (tx + (n - 1) + shift, ty - i)];
        assert(at_least_zero(tx - (n - 1) - shift) == tx - (n - 1) - shift);
        assert(marker_row(tx, ty, shift, i, n) == a + b);
        lemma_hits_concat(a, b, px, py);
        let b1 = b.drop_last();
        assert(b1 == seq![(tx - (n - 1) - shift, ty - i)]);
        assert(b1.drop_last() == Seq::<(int, int)>::empty());
        assert(hits(b1.drop_last(), px, py) == 0);
        assert(hits(b1, px, py) == if b1.last() == (px, py) {
            1nat
        } else {
            0nat
        });
        assert(hits(b, px, py) == hits(b1, px, py) + if b.last() == (px, py) {
            1nat
        } else {
            0nat
        });
        assert(hits(b, px, py) > 0 <==> (py == ty - i && distance(px, tx) == n - 1 + shift));
        lemma_marker_row_hits(tx, ty, shift, i, n - 1, px, py);
    }
}

proof fn lemma_marker_points_hits(tx: int, ty: int, shift: int, rows: int, px: int, py: int)
    requires
        0 <= shift,
        0 <= rows <= 12,
        tx - 12 - shift >= 0,
    ensures
        hits(marker_points(tx, ty, shift, rows), px, py) > 0 <==> (ty - rows < py <= ty && shift
            <= distance(px, tx) < ty - py + shift),
    decreases rows,
{
    if rows > 0 {
        let a = marker_points(tx, ty, shift, rows - 1);
        let b = marker_row(tx, ty, shift, rows - 1, rows - 1);
        lemma_hits_concat(a, b, px, py);
        lemma_marker_points_hits(tx, ty, shift, rows - 1, px, py);
        lemma_marker_row_hits(tx, ty, shift, rows - 1, rows - 1, px, py);
    }
}

/// The heading marker is a triangle pointing down at the bar's centre
/// column: on row `ty - i` (`i` from 1 to 11) it covers the columns less
/// than `i` from `tx`, and nothing else; its glow (`shift` 1) covers the
/// column just beyond each side of every such row.
pub proof fn law_marker_shape(tx: int, ty: int, px: int, py: int)
    requires
        tx >= 13,
    ensures
        hits(marker_points(tx, ty, 0, 12), px, py) > 0 <==> (ty - 11 <= py <= ty - 1 && distance(
            px,
            tx,
        ) < ty - py),
        hits(marker_points(tx, ty, 1, 12), px, py) > 0 <==> (ty - 11 <= py <= ty - 1 && 1
            <= distance(px, tx) <= ty - py),
{
    lemma_marker_points_hits(tx, ty, 0, 12, px, py);
    lemma_marker_points_hits(tx, ty, 1, 12, px, py);
}

} // verus!
