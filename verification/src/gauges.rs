//! The straight parts of the round gauges: the speedometer's digital
//! read-out and its progress bar, and the G-force radar's z-axis bar.  The
//! caller supplies what comes from floating-point values: the speed text,
//! the needle colour and the filled length of a bar.
use vstd::prelude::*;
use crate::calendar::trunc_div;
use crate::canvas::{Canvas, Color, image_size, image_pixels, in_bounds, in_rect, blend, fill_rect};
use crate::compass::at_least_zero;
use crate::font::{centred_left, draw_text, draw_text_c, law_text_stays_in_its_box, text_covers, text_fits, text_width, th, tw};
use crate::panel::{
    blend_times, bracket_fits, bracket_points, corner_bracket, grey, grey_rgba, hits, neon_cyan,
    neon_cyan_dim, neon_cyan_dim_rgba, neon_cyan_rgba, white, white_rgba,
};
use crate::widgets::Rect;

verus! {

/// The colour under a gauge bar.
pub open spec fn bar_bg_rgba() -> (u8, u8, u8, u8) {
    (10u8, 16u8, 34u8, 200u8)
}

/// The corner brackets around a gauge bar: 3 pixels outside it, 14 high.
pub open spec fn bar_bracket(bar: Rect) -> Seq<(int, int)> {
    bracket_points(at_least_zero(bar.x - 3), at_least_zero(bar.y - 3), bar.w + 6, 14, 5)
}

/// Whether a gauge bar whose first `fill` pixels are filled can be drawn
/// without a coordinate passing `u32::MAX`.
pub open spec fn bar_fits(bar: Rect, fill: int) -> bool {
    &&& bar.w > 0 && bar.h > 0 ==> bar.x + bar.w - 1 <= u32::MAX && bar.y + bar.h - 1 <= u32::MAX
    &&& fill > 0 && bar.h > 0 ==> bar.x + fill - 1 <= u32::MAX && bar.y + bar.h - 1 <= u32::MAX
    &&& bar.w + 6 <= u32::MAX
    &&& bracket_fits(at_least_zero(bar.x - 3), at_least_zero(bar.y - 3), bar.w + 6, 14, 5)
}

/// A pixel after the speedometer's progress bar is drawn, given its colour
/// `v` before: the dark bar, its first `fill` pixels in `c` with a faint
/// row of `c` just above them, and dim brackets around it all.
pub open spec fn speed_bar_value(
    v: (u8, u8, u8, u8),
    bar: Rect,
    fill: int,
    c: (u8, u8, u8, u8),
    px: int,
    py: int,
) -> (u8, u8, u8, u8) {
    let v1 = if in_rect(bar.x as int, bar.y as int, bar.w as int, bar.h as int, px, py) {
        blend(v, bar_bg_rgba())
    } else {
        v
    };
    let v2 = if fill > 0 && in_rect(bar.x as int, bar.y as int, fill, bar.h as int, px, py) {
        blend(v1, c)
    } else {
        v1
    };
    let v3 = if fill > 0 && in_rect(bar.x as int, at_least_zero(bar.y - 1), fill, 1, px, py) {
        blend(v2, (c.0, c.1, c.2, 80u8))
    } else {
        v2
    };
    blend_times(v3, neon_cyan_dim_rgba(), hits(bar_bracket(bar), px, py))
}

/// Draws the speedometer's progress bar with its first `fill` pixels in `c`.
pub fn draw_speed_bar(img: &mut Canvas, bar: Rect, fill: u32, c: Color)
    requires
        bar_fits(bar, fill as int),
        fill > 0 ==> bar.x + fill - 1 <= u32::MAX,
    ensures
        image_size(*final(img)) == image_size(*old(img)),
        forall|px: u32, py: u32|
            in_bounds(image_size(*old(img)), px as int, py as int) ==> #[trigger] image_pixels(
                *final(img),
            )[(px, py)] == speed_bar_value(
                image_pixels(*old(img))[(px, py)],
                bar,
                fill as int,
                c@,
                px as int,
                py as int,
            ),
{
    let ghost size = image_size(*img);
    let ghost p0 = image_pixels(*img);
    fill_rect(img, bar.x, bar.y, bar.w, bar.h, Color { r: 10, g: 16, b: 34, a: 200 });
    let ghost p1 = image_pixels(*img);
    if fill > 0 {
        fill_rect(img, bar.x, bar.y, fill, bar.h, c);
        fill_rect(img, bar.x, bar.y.saturating_sub(1), fill, 1, c.with_alpha(80));
    }
    let ghost p3 = image_pixels(*img);
    corner_bracket(
        img,
        bar.x.saturating_sub(3),
        bar.y.saturating_sub(3),
        bar.w + 6,
        14,
        5,
        neon_cyan_dim(),
    );
    proof {
        assert forall|px: u32, py: u32| in_bounds(size, px as int, py as int) implies #[trigger] image_pixels(
            *img,
        )[(px, py)] == speed_bar_value(p0[(px, py)], bar, fill as int, c@, px as int, py as int) by {
            assert(p1[(px, py)] == if in_rect(
                bar.x as int,
                bar.y as int,
                bar.w as int,
                bar.h as int,
                px as int,
                py as int,
            ) {
                blend(p0[(px, py)], bar_bg_rgba())
            } else {
                p0[(px, py)]
            });
            assert(p3[(px, py)] == if fill > 0 && in_rect(
                bar.x as int,
                at_least_zero(bar.y - 1),
                fill as int,
                1,
                px as int,
                py as int,
            ) {
                blend(
                    if fill > 0 && in_rect(
                        bar.x as int,
                        bar.y as int,
                        fill as int,
                        bar.h as int,
                        px as int,
                        py as int,
                    ) {
                        blend(p1[(px, py)], c@)
                    } else {
                        p1[(px, py)]
                    },
                    (c.r, c.g, c.b, 80u8),
                )
            } else if fill > 0 && in_rect(
                bar.x as int,
                bar.y as int,
                fill as int,
                bar.h as int,
                px as int,
                py as int,
            ) {
                blend(p1[(px, py)], c@)
            } else {
                p1[(px, py)]
            });
        }
    }
}

/// A pixel after the radar's z-axis bar is drawn, given its colour `v`
/// before: the dark bar, its first `fill` pixels in cyan, a grey `Z` 5
/// pixels right of it, and dim brackets around the bar.
pub open spec fn z_bar_value(v: (u8, u8, u8, u8), bar: Rect, fill: int, px: int, py: int) -> (
    u8,
    u8,
    u8,
    u8,
) {
    let v1 = if in_rect(bar.x as int, bar.y as int, bar.w as int, bar.h as int, px, py) {
        blend(v, bar_bg_rgba())
    } else {
        v
    };
    let v2 = if fill > 0 && in_rect(bar.x as int, bar.y as int, fill, bar.h as int, px, py) {
        blend(v1, neon_cyan_rgba())
    } else {
        v1
    };
    let v3 = if text_covers(seq!['Z'], bar.x + bar.w + 5, bar.y as int, 1, px, py) {
        grey_rgba()
    } else {
        v2
    };
    blend_times(v3, neon_cyan_dim_rgba(), hits(bar_bracket(bar), px, py))
}

/// Draws the radar's z-axis bar with its first `fill` pixels in cyan.
pub fn draw_z_bar(img: &mut Canvas, bar: Rect, fill: u32)
    requires
        bar_fits(bar, fill as int),
        text_fits(1, bar.x + bar.w + 5, bar.y as int, 1),
        bar.x + bar.w + 5 <= u32::MAX,
    ensures
        image_size(*final(img)) == image_size(*old(img)),
        forall|px: u32, py: u32|
            in_bounds(image_size(*old(img)), px as int, py as int) ==> #[trigger] image_pixels(
                *final(img),
            )[(px, py)] == z_bar_value(
                image_pixels(*old(img))[(px, py)],
                bar,
                fill as int,
                px as int,
                py as int,
            ),
{
    let ghost size = image_size(*img);
    let ghost p0 = image_pixels(*img);
    proof {
        reveal_strlit("Z");
    }
    fill_rect(img, bar.x, bar.y, bar.w, bar.h, Color { r: 10, g: 16, b: 34, a: 200 });
    let ghost p1 = image_pixels(*img);
    if fill > 0 {
        fill_rect(img, bar.x, bar.y, fill, bar.h, neon_cyan());
    }
    let ghost p2 = image_pixels(*img);
    draw_text(img, "Z", bar.x + bar.w + 5, bar.y, 1, grey());
    let ghost p3 = image_pixels(*img);
    corner_bracket(
        img,
        bar.x.saturating_sub(3),
        bar.y.saturating_sub(3),
        bar.w + 6,
        14,
        5,
        neon_cyan_dim(),
    );
    proof {
        assert("Z"@ == seq!['Z']);
        assert forall|px: u32, py: u32| in_bounds(size, px as int, py as int) implies #[trigger] image_pixels(
            *img,
        )[(px, py)] == z_bar_value(p0[(px, py)], bar, fill as int, px as int, py as int) by {
            assert(p1[(px, py)] == if in_rect(
                bar.x as int,
                bar.y as int,
                bar.w as int,
                bar.h as int,
                px as int,
                py as int,
            ) {
                blend(p0[(px, py)], bar_bg_rgba())
            } else {
                p0[(px, py)]
            });
            assert(p2[(px, py)] == if fill > 0 && in_rect(
                bar.x as int,
                bar.y as int,
                fill as int,
                bar.h as int,
                px as int,
                py as int,
            ) {
                blend(p1[(px, py)], neon_cyan_rgba())
            } else {
                p1[(px, py)]
            });
            assert(p3[(px, py)] == if text_covers(
                seq!['Z'],
                bar.x + bar.w + 5,
                bar.y as int,
                1,
                px as int,
                py as int,
            ) {
                grey_rgba()
            } else {
                p2[(px, py)]
            });
        }
    }
}

/// The row of the speedometer's digital read-out: a third of the radius
/// (rounded toward zero) plus 10 below the centre, taken as a `u32` the
/// way `as` takes it.
pub open spec fn readout_row(cy: int, radius: int) -> u32 {
    (cy + trunc_div(radius, 3) + 10) as u32
}

/// The left edge of the read-out: the centre column taken as a `u32`, less
/// half the text's width.
pub open spec fn readout_left(cx: int, len: int) -> int {
    (cx as u32) as int - text_width(len, 5) / 2
}

/// Whether the read-out of a `len`-character text can be drawn without a
/// coordinate passing the range of its type.
pub open spec fn readout_fits(cx: int, cy: int, radius: int, len: int) -> bool {
    let nx = readout_left(cx, len);
    let ny = readout_row(cy, radius) as int;
    &&& i32::MIN <= cy + trunc_div(radius, 3) && cy + trunc_div(radius, 3) + 10 <= i32::MAX
    &&& len * 30 <= u32::MAX
    &&& nx >= 0
    &&& nx + 2 <= u32::MAX && ny + 51 <= u32::MAX
    &&& text_fits(len, nx + 2, ny + 2, 5)
    &&& text_fits(len, at_least_zero(nx - 1), at_least_zero(ny - 1), 5)
    &&& text_fits(len, nx + 1, ny + 1, 5)
    &&& text_fits(len, nx, ny, 5)
    &&& text_fits(4, centred_left(4, (cx as u32) as int, 2), ny + 51, 2)
}

/// A pixel after the digital read-out is drawn, given its colour `v` before:
/// the text at scale 5 with a dark shadow 2 pixels down-right, two faint
/// copies in `glow` 1 pixel up-left and down-right, the white text on top,
/// and `km/h` (scale 2) centred 6 pixels below it.
pub open spec fn readout_value(
    v: (u8, u8, u8, u8),
    cx: int,
    cy: int,
    radius: int,
    text: Seq<char>,
    glow: (u8, u8, u8, u8),
    px: int,
    py: int,
) -> (u8, u8, u8, u8) {
    let nx = readout_left(cx, text.len() as int);
    let ny = readout_row(cy, radius) as int;
    let faint = (glow.0, glow.1, glow.2, 70u8);
    let v1 = if text_covers(text, nx + 2, ny + 2, 5, px, py) {
        (0u8, 0u8, 0u8, 170u8)
    } else {
        v
    };
    let v2 = if text_covers(text, at_least_zero(nx - 1), at_least_zero(ny - 1), 5, px, py) {
        faint
    } else {
        v1
    };
    let v3 = if text_covers(text, nx + 1, ny + 1, 5, px, py) {
        faint
    } else {
        v2
    };
    let v4 = if text_covers(text, nx, ny, 5, px, py) {
        white_rgba()
    } else {
        v3
    };
    if text_covers("km/h"@, centred_left(4, (cx as u32) as int, 2), ny + 51, 2, px, py) {
        grey_rgba()
    } else {
        v4
    }
}

/// Draws the speedometer's digital read-out of `text` under the centre
/// `(cx, cy)` of a dial of radius `radius`.
pub fn draw_speed_readout(img: &mut Canvas, cx: i32, cy: i32, radius: i32, text: &str, glow: Color)
    requires
        readout_fits(cx as int, cy as int, radius as int, text@.len() as int),
    ensures
        image_size(*final(img)) == image_size(*old(img)),
        forall|px: u32, py: u32|
            in_bounds(image_size(*old(img)), px as int, py as int) ==> #[trigger] image_pixels(
                *final(img),
            )[(px, py)] == readout_value(
                image_pixels(*old(img))[(px, py)],
                cx as int,
                cy as int,
                radius as int,
                text@,
                glow@,
                px as int,
                py as int,
            ),
{
    let ghost size = image_size(*img);
    let ghost p0 = image_pixels(*img);
    proof {
        reveal_strlit("km/h");
    }
    let w = tw(text, 5);
    let nx = cx as u32 - w / 2;
    let third = radius / 3;
    assert(third == trunc_div(radius as int, 3));
    let ny = (cy + third + 10) as u32;
    assert(ny == readout_row(cy as int, radius as int));
    draw_text(img, text, nx + 2, ny + 2, 5, Color { r: 0, g: 0, b: 0, a: 170 });
    let ghost p1 = image_pixels(*img);
    draw_text(img, text, nx.saturating_sub(1), ny.saturating_sub(1), 5, glow.with_alpha(70));
    let ghost p2 = image_pixels(*img);
    draw_text(img, text, nx + 1, ny + 1, 5, glow.with_alpha(70));
    let ghost p3 = image_pixels(*img);
    draw_text(img, text, nx, ny, 5, white());
    let ghost p4 = image_pixels(*img);
    draw_text_c(img, "km/h", cx as u32, ny + th(5) + 6, 2, grey());
    proof {
        let t = text@;
        assert forall|px: u32, py: u32| in_bounds(size, px as int, py as int) implies #[trigger] image_pixels(
            *img,
        )[(px, py)] == readout_value(
            p0[(px, py)],
            cx as int,
            cy as int,
            radius as int,
            t,
            glow@,
            px as int,
            py as int,
        ) by {
            assert(p1[(px, py)] == if text_covers(t, nx + 2, ny + 2, 5, px as int, py as int) {
                (0u8, 0u8, 0u8, 170u8)
            } else {
                p0[(px, py)]
            });
            assert(p2[(px, py)] == if text_covers(
                t,
                at_least_zero(nx - 1),
                at_least_zero(ny - 1),
                5,
                px as int,
                py as int,
            ) {
                (glow.r, glow.g, glow.b, 70u8)
            } else {
                p1[(px, py)]
            });
            assert(p3[(px, py)] == if text_covers(t, nx + 1, ny + 1, 5, px as int, py as int) {
                (glow.r, glow.g, glow.b, 70u8)
            } else {
                p2[(px, py)]
            });
            assert(p4[(px, py)] == if text_covers(t, nx as int, ny as int, 5, px as int, py as int) {
                white_rgba()
            } else {
                p3[(px, py)]
            });
        }
    }
}

/// The speedometer's bar fills from its left end: on the bar's rows (below
/// the faint row above it), away from the brackets, the first `fill`
/// columns of the bar show `c` over the dark bar and the rest of the bar
/// shows the dark bar alone.
pub proof fn law_speed_bar_fills_from_the_left(
    v: (u8, u8, u8, u8),
    bar: Rect,
    fill: int,
    c: (u8, u8, u8, u8),
    px: int,
    py: int,
)
    requires
        bar.y >= 1,
        bar.y <= py < bar.y + bar.h,
        bar.x <= px < bar.x + bar.w,
        hits(bar_bracket(bar), px, py) == 0,
    ensures
        px < bar.x + fill ==> speed_bar_value(v, bar, fill, c, px, py) == blend(
            blend(v, bar_bg_rgba()),
            c,
        ),
        px >= bar.x + fill ==> speed_bar_value(v, bar, fill, c, px, py) == blend(v, bar_bg_rgba()),
{
}

/// The z-axis bar fills from its left end in cyan, and its `Z` caption
/// stands 5 pixels right of the bar, on the bar's top row, in grey (away
/// from the brackets).
pub proof fn law_z_bar_fills_from_the_left(
    v: (u8, u8, u8, u8),
    bar: Rect,
    fill: int,
    px: int,
    py: int,
)
    requires
        hits(bar_bracket(bar), px, py) == 0,
    ensures
        bar.y <= py < bar.y + bar.h && bar.x <= px < bar.x + bar.w && px < bar.x + fill
            ==> z_bar_value(v, bar, fill, px, py) == blend(blend(v, bar_bg_rgba()), neon_cyan_rgba()),
        bar.y <= py < bar.y + bar.h && bar.x <= px && bar.x + fill <= px < bar.x + bar.w ==> z_bar_value(
            v,
            bar,
            fill,
            px,
            py,
        ) == blend(v, bar_bg_rgba()),
        text_covers(seq!['Z'], bar.x + bar.w + 5, bar.y as int, 1, px, py) ==> z_bar_value(
            v,
            bar,
            fill,
            px,
            py,
        ) == grey_rgba(),
{
    if text_covers(seq!['Z'], bar.x + bar.w + 5, bar.y as int, 1, px, py) {
        law_text_stays_in_its_box(seq!['Z'], bar.x + bar.w + 5, bar.y as int, 1, px, py);
    }
}

/// The digital read-out shows its text in white at scale 5, centred on the
/// dial's centre column, a third of the radius plus 10 below the centre,
/// and `km/h` in grey (scale 2) centred 6 pixels below it, whatever the
/// shadow and glow beneath.
pub proof fn law_readout_shows_its_text(
    v: (u8, u8, u8, u8),
    cx: int,
    cy: int,
    radius: int,
    text: Seq<char>,
    glow: (u8, u8, u8, u8),
    px: int,
    py: int,
)
    requires
        0 <= cx <= i32::MAX,
        radius >= 0,
        0 <= cy + radius / 3 + 10 <= i32::MAX,
    ensures
        text_covers(text, cx - text_width(text.len() as int, 5) / 2, cy + radius / 3 + 10, 5, px, py)
            ==> readout_value(v, cx, cy, radius, text, glow, px, py) == white_rgba(),
        cx >= 24 && text_covers("km/h"@, cx - 24, cy + radius / 3 + 10 + 51, 2, px, py)
            ==> readout_value(v, cx, cy, radius, text, glow, px, py) == grey_rgba(),
{
    reveal_strlit("km/h");
    assert(trunc_div(radius, 3) == radius / 3);
    let ny = cy + radius / 3 + 10;
    assert(readout_row(cy, radius) as int == ny);
    assert((cx as u32) as int == cx);
    if text_covers(text, cx - text_width(text.len() as int, 5) / 2, ny, 5, px, py) {
        law_text_stays_in_its_box(text, cx - text_width(text.len() as int, 5) / 2, ny, 5, px, py);
        if text_covers("km/h"@, centred_left(4, cx, 2), ny + 51, 2, px, py) {
            law_text_stays_in_its_box("km/h"@, centred_left(4, cx, 2), ny + 51, 2, px, py);
        }
    }
}

} // verus!
