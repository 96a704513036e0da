//! Anti-aliased lines and circles, and their glowing variants.
use vstd::prelude::*;
use crate::canvas::{
    Canvas, Color, image_size, image_pixels, aa_line, aa_line_pixels, coord_ok, hollow_circle, exact_f32, beyond_span, line_start, steep, outside_square, same_outside_square, in_bounds,
    hollow_circle_pixels, filled_circle, filled_circle_pixels,
};

verus! {

/// Draws an anti-aliased line from `(x0, y0)` to `(x1, y1)`: the end it is
/// drawn from takes the colour, and nothing beyond the line's span changes.
pub fn draw_line(img: &mut Canvas, x0: i32, y0: i32, x1: i32, y1: i32, c: Color)
    requires
        coord_ok(x0 as int) && coord_ok(y0 as int) && coord_ok(x1 as int) && coord_ok(y1 as int),
    ensures
        image_size(*final(img)) == image_size(*old(img)),
        image_pixels(*final(img)) == aa_line_pixels(
            image_pixels(*old(img)),
            image_size(*old(img)),
            (x0, y0),
            (x1, y1),
            c@,
        ),
        forall|px: u32, py: u32|
            in_bounds(image_size(*old(img)), px as int, py as int) && beyond_span(
                x0 as int,
                y0 as int,
                x1 as int,
                y1 as int,
                px as int,
                py as int,
            ) ==> #[trigger] image_pixels(*final(img))[(px, py)] == image_pixels(*old(img))[(px, py)],
        ({
            let st = line_start(x0 as int, y0 as int, x1 as int, y1 as int);
            exact_f32(x0 as int) && exact_f32(y0 as int) && exact_f32(x1 as int) && exact_f32(
                y1 as int,
            ) && in_bounds(image_size(*old(img)), st.0, st.1) ==> image_pixels(*final(img))[(
                st.0 as u32,
                st.1 as u32,
            )] == c@
        }),
{
    aa_line(img, x0, y0, x1, y1, c);
}

/// The alpha of glow ring `r`: the line's alpha divided by `2r + 1`.
pub open spec fn glow_alpha(a: u8, r: int) -> u8 {
    let v = a as int / (r * 2 + 1);
    if v < 0 {
        0u8
    } else if v > 255 {
        255u8
    } else {
        v as u8
    }
}

/// The pixels after the glow rings `1..=n` of a line: ring `r` is the line
/// shifted by `r` left, up, right and down, in that order, drawn in the
/// line's colour with alpha `glow_alpha(a, r)`.
pub open spec fn glow_rings(
    p: Map<(u32, u32), (u8, u8, u8, u8)>,
    size: (u32, u32),
    x0: int,
    y0: int,
    x1: int,
    y1: int,
    c: (u8, u8, u8, u8),
    n: int,
) -> Map<(u32, u32), (u8, u8, u8, u8)>
    decreases n,
{
    if n <= 0 {
        p
    } else {
        let q = glow_rings(p, size, x0, y0, x1, y1, c, n - 1);
        let g = (c.0, c.1, c.2, glow_alpha(c.3, n));
        let q1 = aa_line_pixels(q, size, ((x0 - n) as i32, y0 as i32), ((x1 - n) as i32, y1 as i32), g);
        let q2 = aa_line_pixels(q1, size, (x0 as i32, (y0 - n) as i32), (x1 as i32, (y1 - n) as i32), g);
        let q3 = aa_line_pixels(q2, size, ((x0 + n) as i32, y0 as i32), ((x1 + n) as i32, y1 as i32), g);
        aa_line_pixels(q3, size, (x0 as i32, (y0 + n) as i32), (x1 as i32, (y1 + n) as i32), g)
    }
}

/// Whether a glow of radius `glow_r` around the line keeps every coordinate in range.
pub open spec fn glow_fits(x0: int, y0: int, x1: int, y1: int, glow_r: int) -> bool {
    let m = if glow_r > 0 {
        glow_r
    } else {
        0
    };
    coord_ok(x0 - m) && coord_ok(x0 + m) && coord_ok(y0 - m) && coord_ok(y0 + m) && coord_ok(x1 - m)
        && coord_ok(x1 + m) && coord_ok(y1 - m) && coord_ok(y1 + m)
}

/// Whether `(px, py)` lies more than `m` beyond the span of a line from
/// `(x0, y0)` to `(x1, y1)`: more than `m` columns left or right of both
/// ends for a shallow line, more than `m` rows above or below both for a
/// steep one.
pub open spec fn beyond_span_by(x0: int, y0: int, x1: int, y1: int, m: int, px: int, py: int) -> bool {
    if steep(x0, y0, x1, y1) {
        (py < y0 - m && py < y1 - m) || (py > y0 + m && py > y1 + m)
    } else {
        (px < x0 - m && px < x1 - m) || (px > x0 + m && px > x1 + m)
    }
}

/// Anti-aliased line with a soft glow halo: `glow_r` rings of shifted,
/// fading copies, then the line itself on top.  The end it is drawn from
/// takes the colour, and nothing more than `glow_r` beyond the line's span
/// changes.
pub fn glow_line(img: &mut Canvas, x0: i32, y0: i32, x1: i32, y1: i32, c: Color, glow_r: i32)
    requires
        glow_fits(x0 as int, y0 as int, x1 as int, y1 as int, glow_r as int),
    ensures
        image_size(*final(img)) == image_size(*old(img)),
        image_pixels(*final(img)) == aa_line_pixels(
            glow_rings(
                image_pixels(*old(img)),
                image_size(*old(img)),
                x0 as int,
                y0 as int,
                x1 as int,
                y1 as int,
                c@,
                glow_r as int,
            ),
            image_size(*old(img)),
            (x0, y0),
            (x1, y1),
            c@,
        ),
        ({
            let st = line_start(x0 as int, y0 as int, x1 as int, y1 as int);
            exact_f32(x0 as int) && exact_f32(y0 as int) && exact_f32(x1 as int) && exact_f32(
                y1 as int,
            ) && in_bounds(image_size(*old(img)), st.0, st.1) ==> image_pixels(*final(img))[(
                st.0 as u32,
                st.1 as u32,
            )] == c@
        }),
        forall|px: u32, py: u32|
            in_bounds(image_size(*old(img)), px as int, py as int) && beyond_span_by(
                x0 as int,
                y0 as int,
                x1 as int,
                y1 as int,
                if glow_r > 0 {
                    glow_r as int
                } else {
                    0
                },
                px as int,
                py as int,
            ) ==> #[trigger] image_pixels(*final(img))[(px, py)] == image_pixels(*old(img))[(px, py)],
{
    let ghost size = image_size(*img);
    let ghost p0 = image_pixels(*img);
    let ghost m: int = if glow_r > 0 {
        glow_r as int
    } else {
        0
    };
    let mut r: i32 = 1;
    while r <= glow_r
        invariant
            1 <= r,
            r <= glow_r + 1 || r == 1,
            glow_fits(x0 as int, y0 as int, x1 as int, y1 as int, glow_r as int),
            image_size(*img) == size,
            image_pixels(*img) == glow_rings(
                p0,
                size,
                x0 as int,
                y0 as int,
                x1 as int,
                y1 as int,
                c@,
                r - 1,
            ),
            m == if glow_r > 0 {
                glow_r as int
            } else {
                0
            },
            forall|px: u32, py: u32|
                in_bounds(size, px as int, py as int) && beyond_span_by(
                    x0 as int,
                    y0 as int,
                    x1 as int,
                    y1 as int,
                    m,
                    px as int,
                    py as int,
                ) ==> #[trigger] image_pixels(*img)[(px, py)] == p0[(px, py)],
        decreases glow_r + 1 - r,
    {
        let v = (c.a as i32) / (r * 2 + 1);
        let a: u8 = if v < 0 {
            0
        } else if v > 255 {
            255
        } else {
            v as u8
        };
        let gc = c.with_alpha(a);
        assert(gc@ == (c.r, c.g, c.b, glow_alpha(c.a, r as int)));
        let neg = -r;
        aa_line(img, x0 + neg, y0, x1 + neg, y1, gc);
        aa_line(img, x0, y0 + neg, x1, y1 + neg, gc);
        aa_line(img, x0 + r, y0, x1 + r, y1, gc);
        aa_line(img, x0, y0 + r, x1, y1 + r, gc);
        proof {
            let n = r as int;
            assert(steep(x0 - n, y0 as int, x1 - n, y1 as int) == steep(x0 as int, y0 as int, x1 as int, y1 as int));
            assert(steep(x0 + n, y0 as int, x1 + n, y1 as int) == steep(x0 as int, y0 as int, x1 as int, y1 as int));
            assert(steep(x0 as int, y0 - n, x1 as int, y1 - n) == steep(x0 as int, y0 as int, x1 as int, y1 as int));
            assert(steep(x0 as int, y0 + n, x1 as int, y1 + n) == steep(x0 as int, y0 as int, x1 as int, y1 as int));
        }
        r = r + 1;
    }
    aa_line(img, x0, y0, x1, y1, c);
}

/// The alpha of the glow-circle ring at radius offset `dr`: the colour's alpha
/// less 45 per pixel of offset, held to 0..=255.
pub open spec fn ring_alpha(a: u8, dr: int) -> u8 {
    let d = if dr < 0 {
        -dr
    } else {
        dr
    };
    let v = a as int - d * 45;
    if v < 0 {
        0u8
    } else if v > 255 {
        255u8
    } else {
        v as u8
    }
}

/// The pixels after the first `k` rings of a glow circle: ring `j` has radius
/// offset `dr = j - 3` (radius at least 1) and alpha `ring_alpha(a, dr)`.
pub open spec fn glow_circle_rings(
    p: Map<(u32, u32), (u8, u8, u8, u8)>,
    size: (u32, u32),
    cx: i32,
    cy: i32,
    r: int,
    c: (u8, u8, u8, u8),
    k: int,
) -> Map<(u32, u32), (u8, u8, u8, u8)>
    decreases k,
{
    if k <= 0 {
        p
    } else {
        let q = glow_circle_rings(p, size, cx, cy, r, c, k - 1);
        let dr = k - 1 - 3;
        let rad = if r + dr > 1 {
            r + dr
        } else {
            1
        };
        hollow_circle_pixels(q, size, (cx, cy), rad as i32, (c.0, c.1, c.2, ring_alpha(c.3, dr)))
    }
}

/// A circle outline with a glow: seven concentric outlines at radius offsets
/// -3..=3 (radius at least 1), fading 45 alpha per pixel away from `r`.
/// Nothing outside the square around the outermost outline changes, and the
/// outermost outline, 135 alpha below the colour's, ends on the point
/// straight right of the centre.
pub fn glow_circle(img: &mut Canvas, cx: i32, cy: i32, r: i32, c: Color)
    requires
        coord_ok(cx as int) && coord_ok(cy as int) && coord_ok(r as int - 3) && coord_ok(
            r as int + 3,
        ),
    ensures
        image_size(*final(img)) == image_size(*old(img)),
        image_pixels(*final(img)) == glow_circle_rings(
            image_pixels(*old(img)),
            image_size(*old(img)),
            cx,
            cy,
            r as int,
            c@,
            7,
        ),
        ({
            let outer = if r + 3 > 1 {
                r + 3
            } else {
                1
            };
            same_outside_square(
                image_size(*old(img)),
                image_pixels(*old(img)),
                image_pixels(*final(img)),
                cx as int,
                cy as int,
                outer,
            )
        }),
        ({
            let outer = if r + 3 > 1 {
                r + 3
            } else {
                1
            };
            in_bounds(image_size(*old(img)), cx + outer, cy as int) ==> image_pixels(
                *final(img),
            )[((cx + outer) as u32, cy as u32)] == (c.r, c.g, c.b, if c.a >= 135 {
                (c.a - 135) as u8
            } else {
                0u8
            })
        }),
{
    let ghost size = image_size(*img);
    let ghost p0 = image_pixels(*img);
    let ghost outer: int = if r + 3 > 1 {
        r + 3
    } else {
        1
    };
    let mut k: i32 = 0;
    while k < 7
        invariant
            0 <= k <= 7,
            coord_ok(cx as int) && coord_ok(cy as int) && coord_ok(r as int - 3) && coord_ok(
                r as int + 3,
            ),
            image_size(*img) == size,
            image_pixels(*img) == glow_circle_rings(p0, size, cx, cy, r as int, c@, k as int),
            outer == if r + 3 > 1 {
                r + 3
            } else {
                1
            },
            same_outside_square(size, p0, image_pixels(*img), cx as int, cy as int, outer),
            k == 7 && in_bounds(size, cx + outer, cy as int) ==> image_pixels(*img)[(
                (cx + outer) as u32,
                cy as u32,
            )] == (c.r, c.g, c.b, ring_alpha(c.a, 3)),
        decreases 7 - k,
    {
        let ghost before = image_pixels(*img);
        let dr = k - 3;
        let d = if dr < 0 {
            -dr
        } else {
            dr
        };
        let v = c.a as i32 - d * 45;
        let a: u8 = if v < 0 {
            0
        } else if v > 255 {
            255
        } else {
            v as u8
        };
        let rad = if r + dr > 1 {
            r + dr
        } else {
            1
        };
        assert(a == ring_alpha(c.a, dr as int));
        assert(1 <= rad <= outer);
        assert(k == 6 ==> rad == outer);
        hollow_circle(img, cx, cy, rad, c.with_alpha(a));
        proof {
            assert forall|px: u32, py: u32|
                in_bounds(size, px as int, py as int) && outside_square(
                    cx as int,
                    cy as int,
                    outer,
                    px as int,
                    py as int,
                ) implies #[trigger] image_pixels(*img)[(px, py)] == p0[(px, py)] by {
                assert(image_pixels(*img)[(px, py)] == before[(px, py)]);
            }
        }
        k = k + 1;
    }
}

/// The colour a glow dot of core radius `r` in colour `c` leaves on its
/// centre row, `d` pixels from the centre: the colour itself out to `r`,
/// then the halos of alpha 100, 55 and 25, each 2 pixels wide.
pub open spec fn halo_rgba(c: (u8, u8, u8, u8), r: int, d: int) -> (u8, u8, u8, u8) {
    if d <= r {
        c
    } else if d <= r + 2 {
        (c.0, c.1, c.2, 100u8)
    } else if d <= r + 4 {
        (c.0, c.1, c.2, 55u8)
    } else {
        (c.0, c.1, c.2, 25u8)
    }
}

/// The pixels after a glow dot: discs of radius `r + 6`, `r + 4` and `r + 2`
/// in the colour with alpha 25, 55 and 100, then the disc of radius `r` in
/// the colour itself.
pub open spec fn glow_dot_pixels(
    p: Map<(u32, u32), (u8, u8, u8, u8)>,
    size: (u32, u32),
    cx: i32,
    cy: i32,
    r: int,
    c: (u8, u8, u8, u8),
) -> Map<(u32, u32), (u8, u8, u8, u8)> {
    let q1 = filled_circle_pixels(p, size, (cx, cy), (r + 6) as i32, (c.0, c.1, c.2, 25u8));
    let q2 = filled_circle_pixels(q1, size, (cx, cy), (r + 4) as i32, (c.0, c.1, c.2, 55u8));
    let q3 = filled_circle_pixels(q2, size, (cx, cy), (r + 2) as i32, (c.0, c.1, c.2, 100u8));
    filled_circle_pixels(q3, size, (cx, cy), r as i32, c)
}

/// A filled dot with a soft halo, centred at `(cx, cy)`: on the centre row
/// the core of radius `r` ends in the colour itself and the three halos
/// around it fade out to `r + 6`, and nothing farther than `r + 6` from the
/// centre along either axis changes.
pub fn glow_dot(img: &mut Canvas, cx: i32, cy: i32, r: i32, c: Color)
    requires
        coord_ok(cx as int) && coord_ok(cy as int) && coord_ok(r as int) && coord_ok(r as int + 6),
    ensures
        image_size(*final(img)) == image_size(*old(img)),
        image_pixels(*final(img)) == glow_dot_pixels(
            image_pixels(*old(img)),
            image_size(*old(img)),
            cx,
            cy,
            r as int,
            c@,
        ),
        r >= 0 && exact_f32(cx - r - 6) && exact_f32(cx + r + 6) && exact_f32(cy - r - 6)
            && exact_f32(cy + r + 6) ==> same_outside_square(
            image_size(*old(img)),
            image_pixels(*old(img)),
            image_pixels(*final(img)),
            cx as int,
            cy as int,
            r + 6,
        ),
        r >= 0 && exact_f32(cx - r - 6) && exact_f32(cx + r + 6) && exact_f32(cy - r - 6)
            && exact_f32(cy + r + 6) ==> forall|px: u32|
            in_bounds(image_size(*old(img)), px as int, cy as int) && cx - r - 6 <= px <= cx + r
                + 6 ==> #[trigger] image_pixels(*final(img))[(px, cy as u32)] == halo_rgba(
                c@,
                r as int,
                if px >= cx {
                    px - cx
                } else {
                    cx - px
                },
            ),
{
    let ghost size = image_size(*img);
    let ghost p0 = image_pixels(*img);
    filled_circle(img, cx, cy, r + 6, c.with_alpha(25));
    filled_circle(img, cx, cy, r + 4, c.with_alpha(55));
    filled_circle(img, cx, cy, r + 2, c.with_alpha(100));
    filled_circle(img, cx, cy, r, c);
    proof {
        let p1 = filled_circle_pixels(p0, size, (cx, cy), (r + 6) as i32, (c.r, c.g, c.b, 25u8));
        let p2 = filled_circle_pixels(p1, size, (cx, cy), (r + 4) as i32, (c.r, c.g, c.b, 55u8));
        let p3 = filled_circle_pixels(p2, size, (cx, cy), (r + 2) as i32, (c.r, c.g, c.b, 100u8));
        if r >= 0 && exact_f32(cx - r - 6) && exact_f32(cx + r + 6) && exact_f32(cy - r - 6)
            && exact_f32(cy + r + 6) {
            assert forall|px: u32, py: u32|
                in_bounds(size, px as int, py as int) && outside_square(
                    cx as int,
                    cy as int,
                    r + 6,
                    px as int,
                    py as int,
                ) implies #[trigger] image_pixels(*img)[(px, py)] == p0[(px, py)] by {
                assert(p1[(px, py)] == p0[(px, py)]);
                assert(p2[(px, py)] == p1[(px, py)]);
                assert(p3[(px, py)] == p2[(px, py)]);
            }
            assert forall|px: u32|
                in_bounds(size, px as int, cy as int) && cx - r - 6 <= px <= cx + r + 6 implies #[trigger] image_pixels(
                *img,
            )[(px, cy as u32)] == halo_rgba(
                c@,
                r as int,
                if px >= cx {
                    px - cx
                } else {
                    cx - px
                },
            ) by {
                let py = cy as u32;
                assert(p1[(px, py)] == (c.r, c.g, c.b, 25u8));
                if cx - r - 4 <= px <= cx + r + 4 {
                    assert(p2[(px, py)] == (c.r, c.g, c.b, 55u8));
                } else {
                    assert(p2[(px, py)] == p1[(px, py)]);
                }
                if cx - r - 2 <= px <= cx + r + 2 {
                    assert(p3[(px, py)] == (c.r, c.g, c.b, 100u8));
                } else {
                    assert(p3[(px, py)] == p2[(px, py)]);
                }
                if cx - r <= px <= cx + r {
                    assert(image_pixels(*img)[(px, py)] == c@);
                } else {
                    assert(image_pixels(*img)[(px, py)] == p3[(px, py)]);
                }
            }
        }
    }
}

} // verus!
