//! The HUD palette and the glass panel that frames every widget: a tinted
//! fill, CRT scanlines, a top accent bar, glowing corner brackets and a label.
use vstd::prelude::*;
use crate::canvas::{
    Canvas, Color, image_size, image_pixels, in_bounds, in_rect, blend, bput, bput_spec, fill_rect,
};
use crate::font::{char_covers, cell_covers, draw_text, glyph, text_covers, text_fits, text_width};

verus! {

/// Dark glass fill of a panel.
pub open spec fn bg_panel_rgba() -> (u8, u8, u8, u8) {
    (4u8, 10u8, 24u8, 200u8)
}

/// Dark glass fill of a panel.
pub fn bg_panel() -> (c: Color)
    ensures
        c@ == bg_panel_rgba(),
{
    Color { r: 4, g: 10, b: 24, a: 200 }
}

/// Bright cyan of brackets and highlights.
pub open spec fn neon_cyan_rgba() -> (u8, u8, u8, u8) {
    (0u8, 230u8, 255u8, 255u8)
}

/// Bright cyan of brackets and highlights.
pub fn neon_cyan() -> (c: Color)
    ensures
        c@ == neon_cyan_rgba(),
{
    Color { r: 0, g: 230, b: 255, a: 255 }
}

/// Dim cyan of labels and the accent bar.
pub open spec fn neon_cyan_dim_rgba() -> (u8, u8, u8, u8) {
    (0u8, 110u8, 145u8, 155u8)
}

/// Dim cyan of labels and the accent bar.
pub fn neon_cyan_dim() -> (c: Color)
    ensures
        c@ == neon_cyan_dim_rgba(),
{
    Color { r: 0, g: 110, b: 145, a: 155 }
}

/// Faint cyan halo.
pub open spec fn neon_cyan_glow_rgba() -> (u8, u8, u8, u8) {
    (0u8, 200u8, 255u8, 40u8)
}

/// Faint cyan halo.
pub fn neon_cyan_glow() -> (c: Color)
    ensures
        c@ == neon_cyan_glow_rgba(),
{
    Color { r: 0, g: 200, b: 255, a: 40 }
}

/// Orange (north marker, high G).
pub open spec fn neon_orange_rgba() -> (u8, u8, u8, u8) {
    (255u8, 148u8, 0u8, 255u8)
}

/// Orange (north marker, high G).
pub fn neon_orange() -> (c: Color)
    ensures
        c@ == neon_orange_rgba(),
{
    Color { r: 255, g: 148, b: 0, a: 255 }
}

/// Red (redline, south marker, extreme G).
pub open spec fn neon_red_rgba() -> (u8, u8, u8, u8) {
    (255u8, 28u8, 55u8, 255u8)
}

/// Red (redline, south marker, extreme G).
pub fn neon_red() -> (c: Color)
    ensures
        c@ == neon_red_rgba(),
{
    Color { r: 255, g: 28, b: 55, a: 255 }
}

/// Green (low G).
pub open spec fn neon_green_rgba() -> (u8, u8, u8, u8) {
    (0u8, 255u8, 120u8, 255u8)
}

/// Green (low G).
pub fn neon_green() -> (c: Color)
    ensures
        c@ == neon_green_rgba(),
{
    Color { r: 0, g: 255, b: 120, a: 255 }
}

/// Yellow (moderate G, heading arrow).
pub open spec fn neon_yellow_rgba() -> (u8, u8, u8, u8) {
    (255u8, 232u8, 0u8, 255u8)
}

/// Yellow (moderate G, heading arrow).
pub fn neon_yellow() -> (c: Color)
    ensures
        c@ == neon_yellow_rgba(),
{
    Color { r: 255, g: 232, b: 0, a: 255 }
}

/// Cool white of readouts.
pub open spec fn white_rgba() -> (u8, u8, u8, u8) {
    (218u8, 234u8, 255u8, 255u8)
}

/// Cool white of readouts.
pub fn white() -> (c: Color)
    ensures
        c@ == white_rgba(),
{
    Color { r: 218, g: 234, b: 255, a: 255 }
}

/// Grey of secondary text.
pub open spec fn grey_rgba() -> (u8, u8, u8, u8) {
    (78u8, 94u8, 118u8, 200u8)
}

/// Grey of secondary text.
pub fn grey() -> (c: Color)
    ensures
        c@ == grey_rgba(),
{
    Color { r: 78, g: 94, b: 118, a: 200 }
}

/// Dark grey of the speedometer hub.
pub open spec fn dark_grey_rgba() -> (u8, u8, u8, u8) {
    (18u8, 26u8, 44u8, 255u8)
}

/// Dark grey of the speedometer hub.
pub fn dark_grey() -> (c: Color)
    ensures
        c@ == dark_grey_rgba(),
{
    Color { r: 18, g: 26, b: 44, a: 255 }
}

/// Faint CRT scanline.
pub open spec fn scanline_rgba() -> (u8, u8, u8, u8) {
    (0u8, 10u8, 28u8, 32u8)
}

/// Faint CRT scanline.
pub fn scanline() -> (c: Color)
    ensures
        c@ == scanline_rgba(),
{
    Color { r: 0, g: 10, b: 28, a: 32 }
}

/// `c` laid over `v` `n` times.
pub open spec fn blend_times(v: (u8, u8, u8, u8), c: (u8, u8, u8, u8), n: nat) -> (u8, u8, u8, u8)
    decreases n,
{
    if n == 0 {
        v
    } else {
        blend(blend_times(v, c, (n - 1) as nat), c)
    }
}

/// How many times `(px, py)` occurs in `pts`.
pub open spec fn hits(pts: Seq<(int, int)>, px: int, py: int) -> nat
    decreases pts.len(),
{
    if pts.len() == 0 {
        0
    } else {
        hits(pts.drop_last(), px, py) + if pts.last() == (px, py) {
            1nat
        } else {
            0nat
        }
    }
}

/// Whether `cur` is `old` with `c` laid over each pixel once per occurrence in `pts`.
pub open spec fn blended_at(
    size: (u32, u32),
    old: Map<(u32, u32), (u8, u8, u8, u8)>,
    cur: Map<(u32, u32), (u8, u8, u8, u8)>,
    pts: Seq<(int, int)>,
    c: (u8, u8, u8, u8),
) -> bool {
    forall|px: u32, py: u32|
        in_bounds(size, px as int, py as int) ==> #[trigger] cur[(px, py)] == blend_times(
            old[(px, py)],
            c,
            hits(pts, px as int, py as int),
        )
}

pub(crate) proof fn lemma_blended_empty(
    size: (u32, u32),
    old: Map<(u32, u32), (u8, u8, u8, u8)>,
    c: (u8, u8, u8, u8),
)
    ensures
        blended_at(size, old, old, seq![], c),
{
}

pub(crate) proof fn lemma_blended_step(
    size: (u32, u32),
    old: Map<(u32, u32), (u8, u8, u8, u8)>,
    cur: Map<(u32, u32), (u8, u8, u8, u8)>,
    pts: Seq<(int, int)>,
    c: (u8, u8, u8, u8),
    x: int,
    y: int,
)
    requires
        blended_at(size, old, cur, pts, c),
        x >= 0,
        y >= 0,
    ensures
        blended_at(size, old, bput_spec(size, cur, x, y, c), pts.push((x, y)), c),
{
    let new = bput_spec(size, cur, x, y, c);
    assert forall|px: u32, py: u32| in_bounds(size, px as int, py as int) implies #[trigger] new[(
        px,
        py,
    )] == blend_times(old[(px, py)], c, hits(pts.push((x, y)), px as int, py as int)) by {
        assert(pts.push((x, y)).drop_last() == pts);
        if x == px && y == py {
            assert(cur[(px, py)] == blend_times(old[(px, py)], c, hits(pts, px as int, py as int)));
        }
    }
}

/// The eight pixels of step `i` of a corner bracket's arms, whose corners are
/// `x`/`r` across and `y`/`b` down.
pub open spec fn arm_points(x: int, y: int, r: int, b: int, i: int) -> Seq<(int, int)> {
    seq![
        (x + i, y),
        (x, y + i),
        (r - i, y),
        (r, y + i),
        (x + i, b),
        (x, b - i),
        (r - i, b),
        (r, b - i),
    ]
}

/// The arm pixels of the first `n` steps.
pub open spec fn arms(x: int, y: int, r: int, b: int, n: int) -> Seq<(int, int)>
    decreases n,
{
    if n <= 0 {
        seq![]
    } else {
        arms(x, y, r, b, n - 1) + arm_points(x, y, r, b, n - 1)
    }
}

/// The four accent pixels at offset `(dx, dy)` in from each corner.
pub open spec fn accent_points(x: int, y: int, r: int, b: int, dy: int, dx: int) -> Seq<(int, int)> {
    seq![(x + dx, y + dy), (r - dx, y + dy), (x + dx, b - dy), (r - dx, b - dy)]
}

/// The accent pixels of the first `dy` accent rows.
pub open spec fn accent_rows(x: int, y: int, r: int, b: int, dy: int) -> Seq<(int, int)>
    decreases dy,
{
    if dy <= 0 {
        seq![]
    } else {
        accent_rows(x, y, r, b, dy - 1) + accent_points(x, y, r, b, dy - 1, 0) + accent_points(
            x,
            y,
            r,
            b,
            dy - 1,
            1,
        )
    }
}

/// The right column and bottom row of a `w` × `h` box at `(x, y)`.
pub open spec fn right_col(x: int, w: int) -> int {
    x + if w > 0 {
        w - 1
    } else {
        0
    }
}

/// The pixels a corner bracket lays its colour over, in drawing order: arms
/// of `len` pixels from each corner along both edges, then a 2 × 2 accent
/// at each corner.
pub open spec fn bracket_points(x: int, y: int, w: int, h: int, len: int) -> Seq<(int, int)> {
    let r = right_col(x, w);
    let b = right_col(y, h);
    arms(x, y, r, b, len) + accent_rows(x, y, r, b, 2)
}

/// Whether a corner bracket's coordinates stay within `u32`.
pub open spec fn bracket_fits(x: int, y: int, w: int, h: int, len: int) -> bool {
    let r = right_col(x, w);
    let b = right_col(y, h);
    &&& r <= u32::MAX && b <= u32::MAX
    &&& x + 1 <= u32::MAX && y + 1 <= u32::MAX && r >= 1 && b >= 1
    &&& len > 0 ==> x + len - 1 <= u32::MAX && y + len - 1 <= u32::MAX && r - (len - 1) >= 0 && b - (
    len - 1) >= 0
}

/// `bput`, keeping track of the pixels blended so far.
pub(crate) fn bput_tracked(
    img: &mut Canvas,
    x: u32,
    y: u32,
    c: Color,
    Ghost(p0): Ghost<Map<(u32, u32), (u8, u8, u8, u8)>>,
    Ghost(pts): Ghost<Seq<(int, int)>>,
)
    requires
        blended_at(image_size(*old(img)), p0, image_pixels(*old(img)), pts, c@),
    ensures
        image_size(*final(img)) == image_size(*old(img)),
        blended_at(
            image_size(*old(img)),
            p0,
            image_pixels(*final(img)),
            pts.push((x as int, y as int)),
            c@,
        ),
{
    let ghost m = image_pixels(*img);
    bput(img, x, y, c);
    proof {
        lemma_blended_step(image_size(*img), p0, m, pts, c@, x as int, y as int);
    }
}

/// Chamfered corner brackets of a `w` × `h` box at `(x, y)`: `c` is laid
/// over each pixel of `bracket_points` as often as it occurs there.
pub fn corner_bracket(img: &mut Canvas, x: u32, y: u32, w: u32, h: u32, len: u32, c: Color)
    requires
        bracket_fits(x as int, y as int, w as int, h as int, len as int),
    ensures
        image_size(*final(img)) == image_size(*old(img)),
        blended_at(
            image_size(*old(img)),
            image_pixels(*old(img)),
            image_pixels(*final(img)),
            bracket_points(x as int, y as int, w as int, h as int, len as int),
            c@,
        ),
{
    let ghost size = image_size(*img);
    let ghost p0 = image_pixels(*img);
    let r = x + w.saturating_sub(1);
    let b = y + h.saturating_sub(1);
    assert(r == right_col(x as int, w as int) && b == right_col(y as int, h as int));
    let ghost mut pts: Seq<(int, int)> = seq![];
    proof {
        lemma_blended_empty(size, p0, c@);
    }
    let mut i: u32 = 0;
    while i < len
        invariant
            i <= len,
            r == right_col(x as int, w as int),
            b == right_col(y as int, h as int),
            bracket_fits(x as int, y as int, w as int, h as int, len as int),
            image_size(*img) == size,
            pts == arms(x as int, y as int, r as int, b as int, i as int),
            blended_at(size, p0, image_pixels(*img), pts, c@),
        decreases len - i,
    {
        let ghost start = pts;
        bput_tracked(img, x + i, y, c, Ghost(p0), Ghost(pts));
        proof { pts = pts.push(((x + i) as int, y as int)); }
        bput_tracked(img, x, y + i, c, Ghost(p0), Ghost(pts));
        proof { pts = pts.push((x as int, (y + i) as int)); }
        bput_tracked(img, r - i, y, c, Ghost(p0), Ghost(pts));
        proof { pts = pts.push(((r - i) as int, y as int)); }
        bput_tracked(img, r, y + i, c, Ghost(p0), Ghost(pts));
        proof { pts = pts.push((r as int, (y + i) as int)); }
        bput_tracked(img, x + i, b, c, Ghost(p0), Ghost(pts));
        proof { pts = pts.push(((x + i) as int, b as int)); }
        bput_tracked(img, x, b - i, c, Ghost(p0), Ghost(pts));
        proof { pts = pts.push((x as int, (b - i) as int)); }
        bput_tracked(img, r - i, b, c, Ghost(p0), Ghost(pts));
        proof { pts = pts.push(((r - i) as int, b as int)); }
        bput_tracked(img, r, b - i, c, Ghost(p0), Ghost(pts));
        proof {
            pts = pts.push((r as int, (b - i) as int));
            assert(pts == start + arm_points(x as int, y as int, r as int, b as int, i as int));
        }
        i = i + 1;
    }
    let mut dy: u32 = 0;
    while dy < 2
        invariant
            dy <= 2,
            r == right_col(x as int, w as int),
            b == right_col(y as int, h as int),
            bracket_fits(x as int, y as int, w as int, h as int, len as int),
            image_size(*img) == size,
            pts == arms(x as int, y as int, r as int, b as int, len as int) + accent_rows(
                x as int,
                y as int,
                r as int,
                b as int,
                dy as int,
            ),
            blended_at(size, p0, image_pixels(*img), pts, c@),
        decreases 2 - dy,
    {
        let mut dx: u32 = 0;
        while dx < 2
            invariant
                dx <= 2,
                dy < 2,
                r == right_col(x as int, w as int),
                b == right_col(y as int, h as int),
                bracket_fits(x as int, y as int, w as int, h as int, len as int),
                image_size(*img) == size,
                pts == arms(x as int, y as int, r as int, b as int, len as int) + accent_rows(
                    x as int,
                    y as int,
                    r as int,
                    b as int,
                    dy as int,
                ) + (if dx == 0 {
                    seq![]
                } else if dx == 1 {
                    accent_points(x as int, y as int, r as int, b as int, dy as int, 0)
                } else {
                    accent_points(x as int, y as int, r as int, b as int, dy as int, 0) + accent_points(
                        x as int,
                        y as int,
                        r as int,
                        b as int,
                        dy as int,
                        1,
                    )
                }),
                blended_at(size, p0, image_pixels(*img), pts, c@),
            decreases 2 - dx,
        {
            let ghost start = pts;
            bput_tracked(img, x + dx, y + dy, c, Ghost(p0), Ghost(pts));
            proof { pts = pts.push(((x + dx) as int, (y + dy) as int)); }
            bput_tracked(img, r - dx, y + dy, c, Ghost(p0), Ghost(pts));
            proof { pts = pts.push(((r - dx) as int, (y + dy) as int)); }
            bput_tracked(img, x + dx, b - dy, c, Ghost(p0), Ghost(pts));
            proof { pts = pts.push(((x + dx) as int, (b - dy) as int)); }
            bput_tracked(img, r - dx, b - dy, c, Ghost(p0), Ghost(pts));
            proof {
                pts = pts.push(((r - dx) as int, (b - dy) as int));
                assert(pts == start + accent_points(x as int, y as int, r as int, b as int, dy as int, dx as int));
            }
            dx = dx + 1;
        }
        proof {
            let a = arms(x as int, y as int, r as int, b as int, len as int);
            let rows = accent_rows(x as int, y as int, r as int, b as int, dy as int);
            let a0 = accent_points(x as int, y as int, r as int, b as int, dy as int, 0);
            let a1 = accent_points(x as int, y as int, r as int, b as int, dy as int, 1);
            assert(a + rows + (a0 + a1) == a + accent_rows(x as int, y as int, r as int, b as int, dy + 1));
        }
        dy = dy + 1;
    }
    proof {
        let a = arms(x as int, y as int, r as int, b as int, len as int);
        assert(a + accent_rows(x as int, y as int, r as int, b as int, 2) == bracket_points(
            x as int,
            y as int,
            w as int,
            h as int,
            len as int,
        ));
    }
}

pub(crate) proof fn lemma_hits_concat(p1: Seq<(int, int)>, p2: Seq<(int, int)>, px: int, py: int)
    ensures
        hits(p1 + p2, px, py) == hits(p1, px, py) + hits(p2, px, py),
    decreases p2.len(),
{
    if p2.len() == 0 {
        assert(p1 + p2 == p1);
    } else {
        assert((p1 + p2).drop_last() == p1 + p2.drop_last());
        lemma_hits_concat(p1, p2.drop_last(), px, py);
    }
}

proof fn lemma_blend_times_add(v: (u8, u8, u8, u8), c: (u8, u8, u8, u8), n1: nat, n2: nat)
    ensures
        blend_times(blend_times(v, c, n1), c, n2) == blend_times(v, c, n1 + n2),
    decreases n2,
{
    if n2 > 0 {
        lemma_blend_times_add(v, c, n1, (n2 - 1) as nat);
    }
}

proof fn lemma_blended_concat(
    size: (u32, u32),
    p0: Map<(u32, u32), (u8, u8, u8, u8)>,
    p1: Map<(u32, u32), (u8, u8, u8, u8)>,
    p2: Map<(u32, u32), (u8, u8, u8, u8)>,
    pts1: Seq<(int, int)>,
    pts2: Seq<(int, int)>,
    c: (u8, u8, u8, u8),
)
    requires
        blended_at(size, p0, p1, pts1, c),
        blended_at(size, p1, p2, pts2, c),
    ensures
        blended_at(size, p0, p2, pts1 + pts2, c),
{
    assert forall|px: u32, py: u32| in_bounds(size, px as int, py as int) implies #[trigger] p2[(
        px,
        py,
    )] == blend_times(p0[(px, py)], c, hits(pts1 + pts2, px as int, py as int)) by {
        lemma_hits_concat(pts1, pts2, px as int, py as int);
        lemma_blend_times_add(
            p0[(px, py)],
            c,
            hits(pts1, px as int, py as int),
            hits(pts2, px as int, py as int),
        );
        assert(p1[(px, py)] == blend_times(p0[(px, py)], c, hits(pts1, px as int, py as int)));
    }
}

/// The pixels of the glow that `bracket_glow` draws around a `w` × `h` box at
/// `(x, y)`: two brackets, 2 and 1 pixels outside it, or none where the box
/// is less than 2 pixels from the top or left edge.
pub open spec fn glow_points(x: int, y: int, w: int, h: int, len: int) -> Seq<(int, int)> {
    if x >= 2 && y >= 2 {
        bracket_points(x - 2, y - 2, w + 4, h + 4, len) + bracket_points(x - 1, y - 1, w + 2, h + 2, len)
    } else {
        seq![]
    }
}

/// Whether the glow brackets' coordinates stay within `u32`.
pub open spec fn glow_fits(x: int, y: int, w: int, h: int, len: int) -> bool {
    x >= 2 && y >= 2 ==> {
        &&& w + 4 <= u32::MAX && h + 4 <= u32::MAX
        &&& bracket_fits(x - 2, y - 2, w + 4, h + 4, len)
        &&& bracket_fits(x - 1, y - 1, w + 2, h + 2, len)
    }
}

/// Outer glow around a corner bracket: `NEON_CYAN_GLOW` brackets 2 and 1
/// pixels outside the box.
pub fn bracket_glow(img: &mut Canvas, x: u32, y: u32, w: u32, h: u32, len: u32)
    requires
        glow_fits(x as int, y as int, w as int, h as int, len as int),
    ensures
        image_size(*final(img)) == image_size(*old(img)),
        blended_at(
            image_size(*old(img)),
            image_pixels(*old(img)),
            image_pixels(*final(img)),
            glow_points(x as int, y as int, w as int, h as int, len as int),
            neon_cyan_glow_rgba(),
        ),
{
    let ghost size = image_size(*img);
    let ghost p0 = image_pixels(*img);
    // just draw a slightly-larger bracket with glow colour
    if x >= 2 && y >= 2 {
        corner_bracket(img, x - 2, y - 2, w + 4, h + 4, len, neon_cyan_glow());
        let ghost p1 = image_pixels(*img);
        corner_bracket(img, x - 1, y - 1, w + 2, h + 2, len, neon_cyan_glow());
        proof {
            lemma_blended_concat(
                size,
                p0,
                p1,
                image_pixels(*img),
                bracket_points(x - 2, y - 2, w + 4, h + 4, len as int),
                bracket_points(x - 1, y - 1, w + 2, h + 2, len as int),
                neon_cyan_glow_rgba(),
            );
        }
    } else {
        proof {
            lemma_blended_empty(size, p0, neon_cyan_glow_rgba());
        }
    }
}

/// The colour of the second row of the top accent bar.
pub open spec fn accent_rgba() -> (u8, u8, u8, u8) {
    (0u8, 55u8, 88u8, 45u8)
}

/// Whether `(px, py)` is on a scanline of the `w` × `h` panel at `(x, y)`:
/// every fourth row from `y + 2`.
pub open spec fn on_scanline(x: int, y: int, w: int, h: int, px: int, py: int) -> bool {
    x <= px < x + w && y + 2 <= py < y + h && (py - (y + 2)) % 4 == 0
}

/// A pixel of a `w` × `h` panel at `(x, y)` after each drawing step, given
/// its colour `v` before: glass fill, scanlines, the two-row accent bar,
/// the glow brackets, the cyan brackets, and the label.
pub open spec fn panel_value(
    v: (u8, u8, u8, u8),
    x: int,
    y: int,
    w: int,
    h: int,
    label: Seq<char>,
    px: int,
    py: int,
) -> (u8, u8, u8, u8) {
    let v1 = if in_rect(x, y, w, h, px, py) {
        blend(v, bg_panel_rgba())
    } else {
        v
    };
    let v2 = if on_scanline(x, y, w, h, px, py) {
        blend(v1, scanline_rgba())
    } else {
        v1
    };
    let v3 = if x <= px < x + w && py == y {
        blend(v2, neon_cyan_dim_rgba())
    } else if x <= px < x + w && py == y + 1 {
        blend(v2, accent_rgba())
    } else {
        v2
    };
    let v4 = blend_times(v3, neon_cyan_glow_rgba(), hits(glow_points(x, y, w, h, 24), px, py));
    let v5 = blend_times(v4, neon_cyan_rgba(), hits(bracket_points(x, y, w, h, 24), px, py));
    if label.len() > 0 && text_covers(label, x + 6, y + 6, 1, px, py) {
        neon_cyan_dim_rgba()
    } else {
        v5
    }
}

/// Whether every coordinate that `draw_panel` computes stays within `u32`.
pub open spec fn panel_fits(x: int, y: int, w: int, h: int, label_len: int) -> bool {
    &&& x + w <= u32::MAX && y + h + 3 <= u32::MAX
    &&& glow_fits(x, y, w, h, 24)
    &&& bracket_fits(x, y, w, h, 24)
    &&& label_len > 0 ==> text_fits(label_len, x + 6, y + 6, 1)
}

/// A dark-glass panel: tinted fill, CRT scanlines every 4 rows, a top accent
/// bar, glowing cyan corner brackets, and `label` (if any) in dim cyan at
/// its top left.
pub fn draw_panel(img: &mut Canvas, x: u32, y: u32, w: u32, h: u32, label: &str)
    requires
        panel_fits(x as int, y as int, w as int, h as int, label@.len() as int),
    ensures
        image_size(*final(img)) == image_size(*old(img)),
        forall|px: u32, py: u32|
            in_bounds(image_size(*old(img)), px as int, py as int) ==> #[trigger] image_pixels(
                *final(img),
            )[(px, py)] == panel_value(
                image_pixels(*old(img))[(px, py)],
                x as int,
                y as int,
                w as int,
                h as int,
                label@,
                px as int,
                py as int,
            ),
{
    let ghost size = image_size(*img);
    let ghost p0 = image_pixels(*img);
    // Glass fill
    fill_rect(img, x, y, w, h, bg_panel());
    let ghost p1 = image_pixels(*img);

    // CRT scanlines every 4 rows
    let mut row = y + 2;
    while row < y + h
        invariant
            y + 2 <= row <= y + h + 3,
            (row - (y + 2)) % 4 == 0,
            x + w <= u32::MAX && y + h + 3 <= u32::MAX,
            image_size(*img) == size,
            forall|px: u32, py: u32|
                in_bounds(size, px as int, py as int) ==> #[trigger] image_pixels(*img)[(px, py)]
                    == if on_scanline(x as int, y as int, w as int, h as int, px as int, py as int)
                    && py < row {
                    blend(p1[(px, py)], scanline_rgba())
                } else {
                    p1[(px, py)]
                },
        decreases y + h + 4 - row,
    {
        let mut dx: u32 = 0;
        while dx < w
            invariant
                dx <= w,
                y + 2 <= row < y + h,
                (row - (y + 2)) % 4 == 0,
                x + w <= u32::MAX && y + h + 3 <= u32::MAX,
                image_size(*img) == size,
                forall|px: u32, py: u32|
                    in_bounds(size, px as int, py as int) ==> #[trigger] image_pixels(*img)[(px, py)]
                        == if (on_scanline(x as int, y as int, w as int, h as int, px as int, py as int)
                        && py < row) || (py == row && x <= px < x + dx) {
                        blend(p1[(px, py)], scanline_rgba())
                    } else {
                        p1[(px, py)]
                    },
            decreases w - dx,
        {
            bput(img, x + dx, row, scanline());
            dx = dx + 1;
        }
        row = row + 4;
    }
    let ghost p2 = image_pixels(*img);

    // Top accent bar
    let mut dx: u32 = 0;
    while dx < w
        invariant
            dx <= w,
            x + w <= u32::MAX && y + h + 3 <= u32::MAX,
            image_size(*img) == size,
            forall|px: u32, py: u32|
                in_bounds(size, px as int, py as int) ==> #[trigger] image_pixels(*img)[(px, py)]
                    == if x <= px < x + dx && py == y {
                    blend(p2[(px, py)], neon_cyan_dim_rgba())
                } else if x <= px < x + dx && py == y + 1 {
                    blend(p2[(px, py)], accent_rgba())
                } else {
                    p2[(px, py)]
                },
        decreases w - dx,
    {
        bput(img, x + dx, y, neon_cyan_dim());
        bput(img, x + dx, y + 1, Color { r: 0, g: 55, b: 88, a: 45 });
        dx = dx + 1;
    }
    let ghost p3 = image_pixels(*img);

    bracket_glow(img, x, y, w, h, 24);
    let ghost p4 = image_pixels(*img);
    corner_bracket(img, x, y, w, h, 24, neon_cyan());
    let ghost p5 = image_pixels(*img);

    if !label.is_empty() {
        draw_text(img, label, x + 6, y + 6, 1, neon_cyan_dim());
    }
    proof {
        assert forall|px: u32, py: u32| in_bounds(size, px as int, py as int) implies #[trigger] image_pixels(
            *img,
        )[(px, py)] == panel_value(
            p0[(px, py)],
            x as int,
            y as int,
            w as int,
            h as int,
            label@,
            px as int,
            py as int,
        ) by {
            assert(p4[(px, py)] == blend_times(
                p3[(px, py)],
                neon_cyan_glow_rgba(),
                hits(glow_points(x as int, y as int, w as int, h as int, 24), px as int, py as int),
            ));
            assert(p5[(px, py)] == blend_times(
                p4[(px, py)],
                neon_cyan_rgba(),
                hits(bracket_points(x as int, y as int, w as int, h as int, 24), px as int, py as int),
            ));
        }
    }
}

/// Whether every point of `pts` lies in the rectangle `[x0, x1] × [y0, y1]`.
pub open spec fn all_within(pts: Seq<(int, int)>, x0: int, y0: int, x1: int, y1: int) -> bool {
    forall|k: int|
        0 <= k < pts.len() ==> x0 <= (#[trigger] pts[k]).0 <= x1 && y0 <= pts[k].1 <= y1
}

proof fn lemma_hits_outside(pts: Seq<(int, int)>, x0: int, y0: int, x1: int, y1: int, px: int, py: int)
    requires
        all_within(pts, x0, y0, x1, y1),
        !(x0 <= px <= x1 && y0 <= py <= y1),
    ensures
        hits(pts, px, py) == 0,
    decreases pts.len(),
{
    if pts.len() > 0 {
        assert(pts.last() == pts[pts.len() - 1]);
        assert(all_within(pts.drop_last(), x0, y0, x1, y1)) by {
            assert forall|k: int| 0 <= k < pts.drop_last().len() implies x0 <= (
            #[trigger] pts.drop_last()[k]).0 <= x1 && y0 <= pts.drop_last()[k].1 <= y1 by {
                assert(pts.drop_last()[k] == pts[k]);
            }
        }
        lemma_hits_outside(pts.drop_last(), x0, y0, x1, y1, px, py);
    }
}

proof fn lemma_within_concat(p1: Seq<(int, int)>, p2: Seq<(int, int)>, x0: int, y0: int, x1: int, y1: int)
    requires
        all_within(p1, x0, y0, x1, y1),
        all_within(p2, x0, y0, x1, y1),
    ensures
        all_within(p1 + p2, x0, y0, x1, y1),
{
    assert forall|k: int| 0 <= k < (p1 + p2).len() implies x0 <= (#[trigger] (p1 + p2)[k]).0 <= x1
        && y0 <= (p1 + p2)[k].1 <= y1 by {
        if k < p1.len() {
            assert((p1 + p2)[k] == p1[k]);
        } else {
            assert((p1 + p2)[k] == p2[k - p1.len()]);
        }
    }
}

proof fn lemma_arms_within(x: int, y: int, r: int, b: int, n: int)
    requires
        n - 1 <= r - x,
        n - 1 <= b - y,
        x <= r,
        y <= b,
    ensures
        all_within(arms(x, y, r, b, n), x, y, r, b),
    decreases n,
{
    if n > 0 {
        lemma_arms_within(x, y, r, b, n - 1);
        lemma_within_concat(arms(x, y, r, b, n - 1), arm_points(x, y, r, b, n - 1), x, y, r, b);
    }
}

proof fn lemma_accents_within(x: int, y: int, r: int, b: int, dy: int)
    requires
        dy - 1 <= b - y,
        1 <= r - x,
        y <= b,
    ensures
        all_within(accent_rows(x, y, r, b, dy), x, y, r, b),
    decreases dy,
{
    if dy > 0 {
        lemma_accents_within(x, y, r, b, dy - 1);
        lemma_within_concat(
            accent_rows(x, y, r, b, dy - 1),
            accent_points(x, y, r, b, dy - 1, 0),
            x,
            y,
            r,
            b,
        );
        lemma_within_concat(
            accent_rows(x, y, r, b, dy - 1) + accent_points(x, y, r, b, dy - 1, 0),
            accent_points(x, y, r, b, dy - 1, 1),
            x,
            y,
            r,
            b,
        );
    }
}

proof fn lemma_bracket_within(x: int, y: int, w: int, h: int, len: int)
    requires
        2 <= len <= w,
        len <= h,
    ensures
        all_within(bracket_points(x, y, w, h, len), x, y, x + w - 1, y + h - 1),
{
    let r = right_col(x, w);
    let b = right_col(y, h);
    lemma_arms_within(x, y, r, b, len);
    lemma_accents_within(x, y, r, b, 2);
    lemma_within_concat(arms(x, y, r, b, len), accent_rows(x, y, r, b, 2), x, y, r, b);
}

proof fn lemma_text_within(text: Seq<char>, x: int, y: int, px: int, py: int)
    requires
        text_covers(text, x, y, 1, px, py),
    ensures
        x <= px < x + 6 * text.len(),
        y <= py < y + 9,
{
    let i = choose|i: int| #[trigger] char_covers(text, i, x, y, 1, px, py);
    let (row, col) = choose|row: int, col: int|
        #[trigger] cell_covers(glyph(text[i]), x + text_width(i, 1), y, 1, row, col, px, py);
    assert(text_width(i, 1) == 6 * i);
}

/// A panel of at least 24 × 24 pixels whose label fits inside it leaves
/// every pixel more than 2 pixels outside its box as it was: only the
/// glow brackets reach past its edges.
pub proof fn law_panel_stays_in_its_box(
    v: (u8, u8, u8, u8),
    x: int,
    y: int,
    w: int,
    h: int,
    label: Seq<char>,
    px: int,
    py: int,
)
    requires
        24 <= w,
        24 <= h,
        6 + 6 * label.len() <= w,
        !(x - 2 <= px < x + w + 2 && y - 2 <= py < y + h + 2),
    ensures
        panel_value(v, x, y, w, h, label, px, py) == v,
{
    lemma_bracket_within(x, y, w, h, 24);
    lemma_hits_outside(bracket_points(x, y, w, h, 24), x, y, x + w - 1, y + h - 1, px, py);
    if x >= 2 && y >= 2 {
        lemma_bracket_within(x - 2, y - 2, w + 4, h + 4, 24);
        lemma_bracket_within(x - 1, y - 1, w + 2, h + 2, 24);
        assert(all_within(
            bracket_points(x - 1, y - 1, w + 2, h + 2, 24),
            x - 2,
            y - 2,
            x + w + 1,
            y + h + 1,
        ));
        lemma_within_concat(
            bracket_points(x - 2, y - 2, w + 4, h + 4, 24),
            bracket_points(x - 1, y - 1, w + 2, h + 2, 24),
            x - 2,
            y - 2,
            x + w + 1,
            y + h + 1,
        );
        lemma_hits_outside(glow_points(x, y, w, h, 24), x - 2, y - 2, x + w + 1, y + h + 1, px, py);
    }
    if label.len() > 0 && text_covers(label, x + 6, y + 6, 1, px, py) {
        lemma_text_within(label, x + 6, y + 6, px, py);
    }
}

/// A panel's label is written in dim cyan 6 pixels in from its top-left
/// corner, at scale 1, over whatever the panel drew beneath.
pub proof fn law_panel_label(
    v: (u8, u8, u8, u8),
    x: int,
    y: int,
    w: int,
    h: int,
    label: Seq<char>,
    px: int,
    py: int,
)
    requires
        text_covers(label, x + 6, y + 6, 1, px, py),
    ensures
        panel_value(v, x, y, w, h, label, px, py) == neon_cyan_dim_rgba(),
{
}

pub(crate) proof fn lemma_hits_contains(pts: Seq<(int, int)>, px: int, py: int)
    ensures
        hits(pts, px, py) > 0 <==> pts.contains((px, py)),
    decreases pts.len(),
{
    if pts.len() > 0 {
        let d = pts.drop_last();
        lemma_hits_contains(d, px, py);
        if d.contains((px, py)) {
            let k = choose|k: int| 0 <= k < d.len() && d[k] == (px, py);
            assert(pts[k] == (px, py));
        }
        if pts.contains((px, py)) && pts.last() != (px, py) {
            let k = choose|k: int| 0 <= k < pts.len() && pts[k] == (px, py);
            assert(d[k] == (px, py));
        }
    }
}

proof fn lemma_arms_contain(x: int, y: int, r: int, b: int, n: int, p: (int, int))
    requires
        n >= 0,
    ensures
        arms(x, y, r, b, n).contains(p) <==> exists|i: int|
            0 <= i < n && #[trigger] arm_points(x, y, r, b, i).contains(p),
    decreases n,
{
    if n > 0 {
        let a = arms(x, y, r, b, n - 1);
        let c = arm_points(x, y, r, b, n - 1);
        lemma_arms_contain(x, y, r, b, n - 1, p);
        if (a + c).contains(p) {
            let k = choose|k: int| 0 <= k < (a + c).len() && (a + c)[k] == p;
            if k < a.len() {
                assert(a[k] == p);
                assert(a.contains(p));
            } else {
                assert(c[k - a.len()] == p);
                assert(arm_points(x, y, r, b, n - 1).contains(p));
            }
        }
        if exists|i: int| 0 <= i < n && #[trigger] arm_points(x, y, r, b, i).contains(p) {
            let i = choose|i: int| 0 <= i < n && #[trigger] arm_points(x, y, r, b, i).contains(p);
            if i < n - 1 {
                assert(a.contains(p));
                let k = choose|k: int| 0 <= k < a.len() && a[k] == p;
                assert((a + c)[k] == p);
            } else {
                let k = choose|k: int| 0 <= k < c.len() && c[k] == p;
                assert((a + c)[a.len() + k] == p);
            }
        }
    }
}

/// A corner bracket of a `w` × `h` box at `(x, y)` touches exactly the pixels
/// on the box's top and bottom rows within `len` of either end, those on its
/// left and right columns within `len` of either end, and the 2 × 2 block
/// in each corner.
pub proof fn law_bracket_shape(x: int, y: int, w: int, h: int, len: int, px: int, py: int)
    requires
        w >= 2,
        h >= 2,
        len >= 1,
    ensures
        ({
            let r = x + w - 1;
            let b = y + h - 1;
            hits(bracket_points(x, y, w, h, len), px, py) > 0 <==> {
                ||| (py == y || py == b) && (x <= px < x + len || r - len < px <= r)
                ||| (px == x || px == r) && (y <= py < y + len || b - len < py <= b)
                ||| (x <= px <= x + 1 || r - 1 <= px <= r) && (y <= py <= y + 1 || b - 1 <= py <= b)
            }
        }),
{
    let r = x + w - 1;
    let b = y + h - 1;
    let p = (px, py);
    let a = arms(x, y, r, b, len);
    let acc = accent_rows(x, y, r, b, 2);
    assert(bracket_points(x, y, w, h, len) == a + acc);
    lemma_hits_concat(a, acc, px, py);
    lemma_hits_contains(a, px, py);
    lemma_hits_contains(acc, px, py);
    lemma_arms_contain(x, y, r, b, len, p);
    let acc0 = accent_points(x, y, r, b, 0, 0) + accent_points(x, y, r, b, 0, 1);
    let acc1 = accent_points(x, y, r, b, 1, 0) + accent_points(x, y, r, b, 1, 1);
    assert(accent_rows(x, y, r, b, 0) == Seq::<(int, int)>::empty());
    assert(accent_rows(x, y, r, b, 1) =~= acc0);
    assert(acc =~= acc0 + acc1);
    let on_arm = (py == y || py == b) && (x <= px < x + len || r - len < px <= r) || (px == x
        || px == r) && (y <= py < y + len || b - len < py <= b);
    let on_acc = (x <= px <= x + 1 || r - 1 <= px <= r) && (y <= py <= y + 1 || b - 1 <= py <= b);
    if a.contains(p) {
        let i = choose|i: int| 0 <= i < len && #[trigger] arm_points(x, y, r, b, i).contains(p);
        let k = choose|k: int| 0 <= k < 8 && arm_points(x, y, r, b, i)[k] == p;
        assert(on_arm) by {
            if k == 0 {
            } else if k == 1 {
            } else if k == 2 {
            } else if k == 3 {
            } else if k == 4 {
            } else if k == 5 {
            } else if k == 6 {
            } else {
            }
        }
    }
    if on_arm {
        if py == y && x <= px < x + len {
            assert(arm_points(x, y, r, b, px - x)[0] == p);
            assert(arm_points(x, y, r, b, px - x).contains(p));
        } else if py == y && r - len < px <= r {
            assert(arm_points(x, y, r, b, r - px)[2] == p);
            assert(arm_points(x, y, r, b, r - px).contains(p));
        } else if py == b && x <= px < x + len {
            assert(arm_points(x, y, r, b, px - x)[4] == p);
            assert(arm_points(x, y, r, b, px - x).contains(p));
        } else if py == b && r - len < px <= r {
            assert(arm_points(x, y, r, b, r - px)[6] == p);
            assert(arm_points(x, y, r, b, r - px).contains(p));
        } else if px == x && y <= py < y + len {
            assert(arm_points(x, y, r, b, py - y)[1] == p);
            assert(arm_points(x, y, r, b, py - y).contains(p));
        } else if px == r && y <= py < y + len {
            assert(arm_points(x, y, r, b, py - y)[3] == p);
            assert(arm_points(x, y, r, b, py - y).contains(p));
        } else if px == x {
            assert(arm_points(x, y, r, b, b - py)[5] == p);
            assert(arm_points(x, y, r, b, b - py).contains(p));
        } else {
            assert(arm_points(x, y, r, b, b - py)[7] == p);
            assert(arm_points(x, y, r, b, b - py).contains(p));
        }
    }
    if acc.contains(p) {
        let k = choose|k: int| 0 <= k < acc.len() && acc[k] == p;
        assert(on_acc);
    }
    if on_acc {
        let dx = if px <= x + 1 && x <= px {
            px - x
        } else {
            r - px
        };
        let dy = if py <= y + 1 && y <= py {
            py - y
        } else {
            b - py
        };
        let k = 8 * dy + 4 * dx + if px <= x + 1 && x <= px {
            if py <= y + 1 && y <= py {
                0int
            } else {
                2int
            }
        } else {
            if py <= y + 1 && y <= py {
                1int
            } else {
                3int
            }
        };
        assert(acc[k] == p);
        assert(acc.contains(p));
    }
}

/// Inside a panel, away from its brackets, their glow and its label, the
/// glass is the panel tint over what was there, with the bright accent on
/// the top row, the faint accent on the row below, and a scanline blended
/// on every fourth row from the third down.
pub proof fn law_panel_glass(
    v: (u8, u8, u8, u8),
    x: int,
    y: int,
    w: int,
    h: int,
    label: Seq<char>,
    px: int,
    py: int,
)
    requires
        x <= px < x + w,
        y <= py < y + h,
        hits(glow_points(x, y, w, h, 24), px, py) == 0,
        hits(bracket_points(x, y, w, h, 24), px, py) == 0,
        !text_covers(label, x + 6, y + 6, 1, px, py),
    ensures
        py == y ==> panel_value(v, x, y, w, h, label, px, py) == blend(
            blend(v, bg_panel_rgba()),
            neon_cyan_dim_rgba(),
        ),
        py == y + 1 ==> panel_value(v, x, y, w, h, label, px, py) == blend(
            blend(v, bg_panel_rgba()),
            accent_rgba(),
        ),
        py >= y + 2 && (py - y) % 4 == 2 ==> panel_value(v, x, y, w, h, label, px, py) == blend(
            blend(v, bg_panel_rgba()),
            scanline_rgba(),
        ),
        py >= y + 2 && (py - y) % 4 != 2 ==> panel_value(v, x, y, w, h, label, px, py) == blend(
            v,
            bg_panel_rgba(),
        ),
{
}

} // verus!
