//! Pixel-level drawing on an RGBA image: bounds-checked writes, alpha
//! blending, and filled rectangles.
//!
//! A canvas holds an `image::RgbaImage`; it is seen as the size it was made
//! with and the map from each in-bounds `(x, y)` to that pixel's `(r, g, b, a)`.
use vstd::prelude::*;

verus! {

/// An RGBA image with 8 bits per channel, stored row by row.
#[verifier::external_body]
pub struct Canvas {
    img: image::RgbaImage,
}

/// The `(width, height)` a canvas was made with.
pub uninterp spec fn image_size(img: Canvas) -> (u32, u32);

/// The pixels of a canvas, keyed by `(x, y)`.
pub uninterp spec fn image_pixels(img: Canvas) -> Map<(u32, u32), (u8, u8, u8, u8)>;

/// An RGBA colour with straight (non-premultiplied) alpha.
#[derive(Debug, Clone, Copy, PartialEq, Eq, Structural)]
pub struct Color {
    pub r: u8,
    pub g: u8,
    pub b: u8,
    pub a: u8,
}

impl View for Color {
    type V = (u8, u8, u8, u8);

    open spec fn view(&self) -> (u8, u8, u8, u8) {
        (self.r, self.g, self.b, self.a)
    }
}

impl Color {
    pub open spec fn of(v: (u8, u8, u8, u8)) -> Color {
        Color { r: v.0, g: v.1, b: v.2, a: v.3 }
    }

    /// This colour with another alpha.
    pub fn with_alpha(&self, a: u8) -> (c: Color)
        ensures
            c == (Color { a, ..*self }),
    {
        Color { r: self.r, g: self.g, b: self.b, a }
    }
}

/// Whether `(x, y)` lies on an image of the given size.
pub open spec fn in_bounds(size: (u32, u32), x: int, y: int) -> bool {
    0 <= x < size.0 && 0 <= y < size.1
}

/// Whether two pixel maps agree on every pixel of an image of the given size.
pub open spec fn same_on(size: (u32, u32), p: Map<(u32, u32), (u8, u8, u8, u8)>, q: Map<
    (u32, u32),
    (u8, u8, u8, u8),
>) -> bool {
    forall|x: u32, y: u32| in_bounds(size, x as int, y as int) ==> #[trigger] p[(x, y)] == q[(x, y)]
}

/// The size of a canvas (`ImageBuffer::dimensions`).
#[verifier::external_body]
fn image_dims(img: &Canvas) -> (r: (u32, u32))
    ensures
        r == image_size(*img),
{
    img.img.dimensions()
}

/// A fully transparent canvas (`ImageBuffer::new`, which fills with zeros;
/// it panics where the buffer's byte count overflows `usize`, and the
/// allocation fails beyond `isize::MAX` bytes).
#[verifier::external_body]
fn new_image(width: u32, height: u32) -> (img: Canvas)
    requires
        width as int * height as int * 4 <= isize::MAX,
    ensures
        image_size(img) == (width, height),
        forall|x: u32, y: u32|
            in_bounds((width, height), x as int, y as int) ==> #[trigger] image_pixels(img)[(x, y)]
                == (0u8, 0u8, 0u8, 0u8),
{
    Canvas { img: image::RgbaImage::new(width, height) }
}

/// The offset of channel `k` of pixel `(x, y)` in the row-by-row byte layout.
pub open spec fn byte_offset(width: u32, x: int, y: int, k: int) -> int {
    4 * (y * width + x) + k
}

/// The channel `k` (0 = red … 3 = alpha) of a colour.
pub open spec fn channel(c: (u8, u8, u8, u8), k: int) -> u8 {
    if k == 0 {
        c.0
    } else if k == 1 {
        c.1
    } else if k == 2 {
        c.2
    } else {
        c.3
    }
}

/// The bytes of a canvas, row by row, four per pixel (`ImageBuffer::into_raw`).
#[verifier::external_body]
fn raw_bytes(img: Canvas) -> (v: Vec<u8>)
    ensures
        v@.len() == 4 * image_size(img).0 * image_size(img).1,
        forall|x: u32, y: u32, k: int|
            in_bounds(image_size(img), x as int, y as int) && 0 <= k < 4 ==> v@[byte_offset(
                image_size(img).0,
                x as int,
                y as int,
                k,
            )] == #[trigger] channel(image_pixels(img)[(x, y)], k),
{
    img.img.into_raw()
}

/// The colour of pixel `(x, y)` (`ImageBuffer::get_pixel`).
#[verifier::external_body]
fn get_pixel(img: &Canvas, x: u32, y: u32) -> (c: Color)
    requires
        in_bounds(image_size(*img), x as int, y as int),
    ensures
        c@ == image_pixels(*img)[(x, y)],
{
    let p = img.img.get_pixel(x, y);
    Color { r: p.0[0], g: p.0[1], b: p.0[2], a: p.0[3] }
}

/// Sets pixel `(x, y)` to `c` (`ImageBuffer::put_pixel`).
#[verifier::external_body]
fn put_pixel(img: &mut Canvas, x: u32, y: u32, c: Color)
    requires
        in_bounds(image_size(*old(img)), x as int, y as int),
    ensures
        image_size(*final(img)) == image_size(*old(img)),
        image_pixels(*final(img)) == image_pixels(*old(img)).insert((x, y), c@),
{
    img.img.put_pixel(x, y, image::Rgba([c.r, c.g, c.b, c.a]));
}

impl Canvas {
    /// A fully transparent `width` × `height` canvas.
    pub fn new(width: u32, height: u32) -> (img: Canvas)
        requires
            width as int * height as int * 4 <= isize::MAX,
        ensures
            image_size(img) == (width, height),
            forall|x: u32, y: u32|
                in_bounds((width, height), x as int, y as int) ==> #[trigger] image_pixels(img)[(
                    x,
                    y,
                )] == (0u8, 0u8, 0u8, 0u8),
    {
        new_image(width, height)
    }

    /// The width and height.
    pub fn dimensions(&self) -> (r: (u32, u32))
        ensures
            r == image_size(*self),
    {
        image_dims(self)
    }

    /// The colour of pixel `(x, y)`, or `None` off the canvas.
    pub fn pixel(&self, x: u32, y: u32) -> (c: Option<Color>)
        ensures
            c is Some == in_bounds(image_size(*self), x as int, y as int),
            c matches Some(c) ==> c@ == image_pixels(*self)[(x, y)],
    {
        let (w, h) = image_dims(self);
        if x < w && y < h {
            Some(get_pixel(self, x, y))
        } else {
            None
        }
    }

    /// The pixels as bytes, row by row, four (red, green, blue, alpha) per pixel.
    pub fn into_rgba_bytes(self) -> (v: Vec<u8>)
        ensures
            v@.len() == 4 * image_size(self).0 * image_size(self).1,
            forall|x: u32, y: u32, k: int|
                in_bounds(image_size(self), x as int, y as int) && 0 <= k < 4 ==> v@[byte_offset(
                    image_size(self).0,
                    x as int,
                    y as int,
                    k,
                )] == #[trigger] channel(image_pixels(self)[(x, y)], k),
    {
        raw_bytes(self)
    }
}

/// The pixels after `(x, y)` is set to `c` where it lies on the image.
pub open spec fn put_spec(
    size: (u32, u32),
    p: Map<(u32, u32), (u8, u8, u8, u8)>,
    x: int,
    y: int,
    c: (u8, u8, u8, u8),
) -> Map<(u32, u32), (u8, u8, u8, u8)> {
    if in_bounds(size, x, y) {
        p.insert((x as u32, y as u32), c)
    } else {
        p
    }
}

/// Sets pixel `(x, y)` to `c` if it lies on the image; otherwise does nothing.
pub fn safe_put(img: &mut Canvas, x: u32, y: u32, c: Color)
    ensures
        image_size(*final(img)) == image_size(*old(img)),
        image_pixels(*final(img)) == put_spec(
            image_size(*old(img)),
            image_pixels(*old(img)),
            x as int,
            y as int,
            c@,
        ),
{
    let (w, h) = image_dims(img);
    if x < w && y < h {
        put_pixel(img, x, y, c);
    }
}

/// One channel of `src` laid over `dst` with weight `a` out of 255.
pub open spec fn blend_channel(d: u8, s: u8, a: u8) -> u8 {
    ((s as int * a as int + d as int * (255 - a as int)) / 255) as u8
}

/// `src` laid over `dst` ("source over"): fully transparent `src` leaves
/// `dst`, fully opaque `src` replaces it, and otherwise each colour channel
/// is the alpha-weighted mean (rounded down) and the alpha is
/// `a + dst.a * (255 - a) / 255`, capped at 255.
pub open spec fn blend(dst: (u8, u8, u8, u8), src: (u8, u8, u8, u8)) -> (u8, u8, u8, u8) {
    let a = src.3;
    if a == 0 {
        dst
    } else if a == 255 {
        src
    } else {
        let oa = a as int + dst.3 as int * (255 - a as int) / 255;
        (
            blend_channel(dst.0, src.0, a),
            blend_channel(dst.1, src.1, a),
            blend_channel(dst.2, src.2, a),
            if oa > 255 {
                255u8
            } else {
                oa as u8
            },
        )
    }
}

proof fn lemma_blend_channel_bound(d: u8, s: u8, a: u8)
    ensures
        0 <= s as int * a as int + d as int * (255 - a as int) <= 255 * 255,
        (s as int * a as int + d as int * (255 - a as int)) / 255 <= 255,
{
    assert(0 <= s as int * a as int <= 255 * a as int) by (nonlinear_arith)
        requires 0 <= s <= 255, 0 <= a <= 255;
    assert(0 <= d as int * (255 - a as int) <= 255 * (255 - a as int)) by (nonlinear_arith)
        requires 0 <= d <= 255, 0 <= a <= 255;
}

/// `src` laid over `dst`.
pub fn alpha_blend(dst: Color, src: Color) -> (r: Color)
    ensures
        r@ == blend(dst@, src@),
{
    let a = src.a as u32;
    if a == 0 {
        return dst;
    }
    if a == 255 {
        return src;
    }
    let ia = 255 - a;
    proof {
        lemma_blend_channel_bound(dst.r, src.r, src.a);
        lemma_blend_channel_bound(dst.g, src.g, src.a);
        lemma_blend_channel_bound(dst.b, src.b, src.a);
        assert(dst.a as int * ia as int <= 255 * 255) by (nonlinear_arith)
            requires dst.a <= 255, ia <= 255;
    }
    let oa_wide = a + dst.a as u32 * ia / 255;
    let oa = if oa_wide < 255 {
        oa_wide as u8
    } else {
        255u8
    };
    Color {
        r: ((src.r as u32 * a + dst.r as u32 * ia) / 255) as u8,
        g: ((src.g as u32 * a + dst.g as u32 * ia) / 255) as u8,
        b: ((src.b as u32 * a + dst.b as u32 * ia) / 255) as u8,
        a: oa,
    }
}

/// Laying a transparent colour over a pixel leaves it; laying an opaque one
/// replaces it; an opaque pixel stays opaque whatever is laid over it; and
/// the result is never more transparent than the colour laid over it.
pub proof fn law_blend(dst: (u8, u8, u8, u8), src: (u8, u8, u8, u8))
    ensures
        src.3 == 0 ==> blend(dst, src) == dst,
        src.3 == 255 ==> blend(dst, src) == src,
        dst.3 == 255 ==> blend(dst, src).3 == 255,
        blend(dst, src).3 >= src.3,
{
    let a = src.3 as int;
    if 0 < a < 255 && dst.3 == 255 {
        assert(255 * (255 - a) / 255 == 255 - a) by (nonlinear_arith)
            requires 0 < a < 255;
    }
    if 0 < a < 255 {
        assert(dst.3 as int * (255 - a) / 255 >= 0) by (nonlinear_arith)
            requires 0 < a < 255, dst.3 >= 0;
    }
}

/// The pixels after `c` is laid over pixel `(x, y)` where it lies on the image.
pub open spec fn bput_spec(
    size: (u32, u32),
    p: Map<(u32, u32), (u8, u8, u8, u8)>,
    x: int,
    y: int,
    c: (u8, u8, u8, u8),
) -> Map<(u32, u32), (u8, u8, u8, u8)> {
    if in_bounds(size, x, y) {
        p.insert((x as u32, y as u32), blend(p[(x as u32, y as u32)], c))
    } else {
        p
    }
}

/// Lays `c` over pixel `(x, y)` if it lies on the image; otherwise does nothing.
pub fn bput(img: &mut Canvas, x: u32, y: u32, c: Color)
    ensures
        image_size(*final(img)) == image_size(*old(img)),
        image_pixels(*final(img)) == bput_spec(
            image_size(*old(img)),
            image_pixels(*old(img)),
            x as int,
            y as int,
            c@,
        ),
{
    let (w, h) = image_dims(img);
    if x < w && y < h {
        let d = get_pixel(img, x, y);
        put_pixel(img, x, y, alpha_blend(d, c));
    }
}

/// Whether `(px, py)` lies in the `w` × `h` rectangle at `(x, y)`.
pub open spec fn in_rect(x: int, y: int, w: int, h: int, px: int, py: int) -> bool {
    x <= px < x + w && y <= py < y + h
}

/// Lays `c` over every pixel of the `w` × `h` rectangle at `(x, y)` that lies
/// on the image; the other pixels keep their colour.
pub fn fill_rect(img: &mut Canvas, x: u32, y: u32, w: u32, h: u32, c: Color)
    requires
        w > 0 && h > 0 ==> x + w - 1 <= u32::MAX && y + h - 1 <= u32::MAX,
    ensures
        image_size(*final(img)) == image_size(*old(img)),
        forall|px: u32, py: u32|
            in_bounds(image_size(*old(img)), px as int, py as int) ==> #[trigger] image_pixels(
                *final(img),
            )[(px, py)] == if in_rect(x as int, y as int, w as int, h as int, px as int, py as int) {
                blend(image_pixels(*old(img))[(px, py)], c@)
            } else {
                image_pixels(*old(img))[(px, py)]
            },
{
    let ghost size = image_size(*img);
    let ghost p0 = image_pixels(*img);
    let mut dy: u32 = 0;
    while dy < h
        invariant
            dy <= h,
            w > 0 && h > 0 ==> x + w - 1 <= u32::MAX && y + h - 1 <= u32::MAX,
            image_size(*img) == size,
            forall|px: u32, py: u32|
                in_bounds(size, px as int, py as int) ==> #[trigger] image_pixels(*img)[(px, py)]
                    == if in_rect(x as int, y as int, w as int, dy as int, px as int, py as int) {
                    blend(p0[(px, py)], c@)
                } else {
                    p0[(px, py)]
                },
        decreases h - dy,
    {
        let mut dx: u32 = 0;
        while dx < w
            invariant
                dx <= w,
                dy < h,
                w > 0 && h > 0 ==> x + w - 1 <= u32::MAX && y + h - 1 <= u32::MAX,
                image_size(*img) == size,
                forall|px: u32, py: u32|
                    in_bounds(size, px as int, py as int) ==> #[trigger] image_pixels(*img)[(px, py)]
                        == if in_rect(x as int, y as int, w as int, dy as int, px as int, py as int)
                        || in_rect(x as int, (y + dy) as int, dx as int, 1, px as int, py as int) {
                        blend(p0[(px, py)], c@)
                    } else {
                        p0[(px, py)]
                    },
            decreases w - dx,
        {
            bput(img, x + dx, y + dy, c);
            dx = dx + 1;
        }
        dy = dy + 1;
    }
}

/// The pixels after `imageproc::drawing::draw_antialiased_line_segment_mut`
/// draws from `start` to `end` in `color`, blending with
/// `imageproc::pixelops::interpolate`.
pub uninterp spec fn aa_line_pixels(
    pixels: Map<(u32, u32), (u8, u8, u8, u8)>,
    size: (u32, u32),
    start: (i32, i32),
    end: (i32, i32),
    color: (u8, u8, u8, u8),
) -> Map<(u32, u32), (u8, u8, u8, u8)>;

/// The pixels after `imageproc::drawing::draw_hollow_circle_mut`.
pub uninterp spec fn hollow_circle_pixels(
    pixels: Map<(u32, u32), (u8, u8, u8, u8)>,
    size: (u32, u32),
    center: (i32, i32),
    radius: i32,
    color: (u8, u8, u8, u8),
) -> Map<(u32, u32), (u8, u8, u8, u8)>;

/// The pixels after `imageproc::drawing::draw_filled_circle_mut`.
pub uninterp spec fn filled_circle_pixels(
    pixels: Map<(u32, u32), (u8, u8, u8, u8)>,
    size: (u32, u32),
    center: (i32, i32),
    radius: i32,
    color: (u8, u8, u8, u8),
) -> Map<(u32, u32), (u8, u8, u8, u8)>;

/// Integers that `f32` holds exactly, as the filled-circle and line code's
/// `f32` coordinates need.
pub open spec fn exact_f32(v: int) -> bool {
    -0x100_0000 < v < 0x100_0000
}

/// Whether `(px, py)` lies outside the square of half-side `r` centred at
/// `(cx, cy)` (every pixel does when `r` is negative).
pub open spec fn outside_square(cx: int, cy: int, r: int, px: int, py: int) -> bool {
    px < cx - r || px > cx + r || py < cy - r || py > cy + r
}

/// Whether every pixel outside the square of half-side `r` centred at
/// `(cx, cy)` is the same in `p` and `q`.
pub open spec fn same_outside_square(
    size: (u32, u32),
    p: Map<(u32, u32), (u8, u8, u8, u8)>,
    q: Map<(u32, u32), (u8, u8, u8, u8)>,
    cx: int,
    cy: int,
    r: int,
) -> bool {
    forall|px: u32, py: u32|
        in_bounds(size, px as int, py as int) && outside_square(cx, cy, r, px as int, py as int)
            ==> #[trigger] q[(px, py)] == p[(px, py)]
}

/// Whether a line from `(x0, y0)` to `(x1, y1)` is steep: it climbs more
/// rows than it crosses columns.
pub open spec fn steep(x0: int, y0: int, x1: int, y1: int) -> bool {
    (if y1 >= y0 { y1 - y0 } else { y0 - y1 }) > (if x1 >= x0 { x1 - x0 } else { x0 - x1 })
}

/// Whether `(px, py)` lies beyond the span of a line from `(x0, y0)` to
/// `(x1, y1)`: outside its columns for a shallow line, outside its rows for
/// a steep one.
pub open spec fn beyond_span(x0: int, y0: int, x1: int, y1: int, px: int, py: int) -> bool {
    if steep(x0, y0, x1, y1) {
        (py < y0 && py < y1) || (py > y0 && py > y1)
    } else {
        (px < x0 && px < x1) || (px > x0 && px > x1)
    }
}

/// The end a line is drawn from: the upper end of a steep line, the left
/// end of a shallow one.
pub open spec fn line_start(x0: int, y0: int, x1: int, y1: int) -> (int, int) {
    if steep(x0, y0, x1, y1) {
        if y0 > y1 { (x1, y1) } else { (x0, y0) }
    } else {
        if x0 > x1 { (x1, y1) } else { (x0, y0) }
    }
}

/// Coordinates and radii small enough that the `imageproc` drawing code's
/// `i32` arithmetic cannot overflow.
pub open spec fn coord_ok(v: int) -> bool {
    -0x2000_0000 < v < 0x2000_0000
}

/// `imageproc::drawing::draw_antialiased_line_segment_mut` with
/// `imageproc::pixelops::interpolate` as the blend: plots the line as far
/// as it lies on the canvas; the canvas keeps its size.  The source steps
/// one column (one row for a steep line) at a time from the line's start to
/// its end, so no pixel beyond that span changes; the start pixel is
/// plotted once, with weight 1, which `interpolate` turns into the line's
/// colour (where the coordinates are exact in `f32`).  Which other pixels
/// change, and how, is left to the name.
#[verifier::external_body]
pub(crate) fn aa_line(img: &mut Canvas, x0: i32, y0: i32, x1: i32, y1: i32, c: Color)
    requires
        coord_ok(x0 as int) && coord_ok(y0 as int) && coord_ok(x1 as int) && coord_ok(y1 as int),
    ensures
        image_size(*final(img)) == image_size(*old(img)),
        image_pixels(*final(img)) == aa_line_pixels(
            image_pixels(*old(img)),
            image_size(*old(img)),
            (x0, y0),
            (x1, y1),
            c@,
        ),
        forall|px: u32, py: u32|
            in_bounds(image_size(*old(img)), px as int, py as int) && beyond_span(
                x0 as int,
                y0 as int,
                x1 as int,
                y1 as int,
                px as int,
                py as int,
            ) ==> #[trigger] image_pixels(*final(img))[(px, py)] == image_pixels(*old(img))[(px, py)],
        ({
            let st = line_start(x0 as int, y0 as int, x1 as int, y1 as int);
            exact_f32(x0 as int) && exact_f32(y0 as int) && exact_f32(x1 as int) && exact_f32(
                y1 as int,
            ) && in_bounds(image_size(*old(img)), st.0, st.1) ==> image_pixels(*final(img))[(
                st.0 as u32,
                st.1 as u32,
            )] == c@
        }),
{
    imageproc::drawing::draw_antialiased_line_segment_mut(
        &mut img.img,
        (x0, y0),
        (x1, y1),
        image::Rgba([c.r, c.g, c.b, c.a]),
        imageproc::pixelops::interpolate,
    );
}

/// `imageproc::drawing::draw_hollow_circle_mut`: sets the pixels of the
/// circle's outline as far as it lies on the canvas; the canvas keeps its
/// size.  Every point it sets is `(cx ± a, cy ± b)` with `a, b` at most the
/// radius, so nothing outside that square changes; its first step sets the
/// four points at distance `radius` straight right, left, down and up.
/// Which other pixels it sets is left to the name.
#[verifier::external_body]
pub(crate) fn hollow_circle(img: &mut Canvas, cx: i32, cy: i32, radius: i32, c: Color)
    requires
        coord_ok(cx as int) && coord_ok(cy as int) && coord_ok(radius as int),
    ensures
        image_size(*final(img)) == image_size(*old(img)),
        image_pixels(*final(img)) == hollow_circle_pixels(
            image_pixels(*old(img)),
            image_size(*old(img)),
            (cx, cy),
            radius,
            c@,
        ),
        same_outside_square(
            image_size(*old(img)),
            image_pixels(*old(img)),
            image_pixels(*final(img)),
            cx as int,
            cy as int,
            radius as int,
        ),
        radius >= 0 ==> forall|px: u32, py: u32|
            in_bounds(image_size(*old(img)), px as int, py as int) && ((px == cx + radius && py
                == cy) || (px == cx - radius && py == cy) || (px == cx && py == cy + radius) || (px
                == cx && py == cy - radius)) ==> #[trigger] image_pixels(*final(img))[(px, py)]
                == c@,
{
    imageproc::drawing::draw_hollow_circle_mut(
        &mut img.img,
        (cx, cy),
        radius,
        image::Rgba([c.r, c.g, c.b, c.a]),
    );
}

/// `imageproc::drawing::draw_filled_circle_mut`: sets the pixels of the disc
/// as far as it lies on the canvas; the canvas keeps its size.  It draws
/// horizontal runs between `(cx ± a, cy ± b)` with `a, b` at most the
/// radius (through `f32`, exact for these coordinates), so nothing outside
/// that square changes; its first step's run covers the centre row from
/// `cx - radius` to `cx + radius`, and every run is in the one colour.
/// Which other pixels it sets is left to the name.
#[verifier::external_body]
pub(crate) fn filled_circle(img: &mut Canvas, cx: i32, cy: i32, radius: i32, c: Color)
    requires
        coord_ok(cx as int) && coord_ok(cy as int) && coord_ok(radius as int),
    ensures
        image_size(*final(img)) == image_size(*old(img)),
        image_pixels(*final(img)) == filled_circle_pixels(
            image_pixels(*old(img)),
            image_size(*old(img)),
            (cx, cy),
            radius,
            c@,
        ),
        exact_f32(cx - radius) && exact_f32(cx + radius) && exact_f32(cy - radius) && exact_f32(
            cy + radius,
        ) ==> same_outside_square(
            image_size(*old(img)),
            image_pixels(*old(img)),
            image_pixels(*final(img)),
            cx as int,
            cy as int,
            radius as int,
        ),
        exact_f32(cx - radius) && exact_f32(cx + radius) && exact_f32(cy - radius) && exact_f32(
            cy + radius,
        ) ==> forall|px: u32|
            in_bounds(image_size(*old(img)), px as int, cy as int) && cx - radius <= px <= cx
                + radius ==> #[trigger] image_pixels(*final(img))[(px, cy as u32)] == c@,
{
    imageproc::drawing::draw_filled_circle_mut(
        &mut img.img,
        (cx, cy),
        radius,
        image::Rgba([c.r, c.g, c.b, c.a]),
    );
}

impl Canvas {
    /// Draws the outline of the circle of the given centre and radius: the
    /// four points at distance `radius` along the axes take the colour, and
    /// nothing outside the square around the circle changes.
    pub fn draw_hollow_circle(&mut self, cx: i32, cy: i32, radius: i32, c: Color)
        requires
            coord_ok(cx as int) && coord_ok(cy as int) && coord_ok(radius as int),
        ensures
            image_size(*final(self)) == image_size(*old(self)),
            image_pixels(*final(self)) == hollow_circle_pixels(
                image_pixels(*old(self)),
                image_size(*old(self)),
                (cx, cy),
                radius,
                c@,
            ),
            same_outside_square(
                image_size(*old(self)),
                image_pixels(*old(self)),
                image_pixels(*final(self)),
                cx as int,
                cy as int,
                radius as int,
            ),
            radius >= 0 ==> forall|px: u32, py: u32|
                in_bounds(image_size(*old(self)), px as int, py as int) && ((px == cx + radius
                    && py == cy) || (px == cx - radius && py == cy) || (px == cx && py == cy
                    + radius) || (px == cx && py == cy - radius))
                    ==> #[trigger] image_pixels(*final(self))[(px, py)] == c@,
    {
        hollow_circle(self, cx, cy, radius, c);
    }

    /// Draws the disc of the given centre and radius: its centre row, out to
    /// the radius on either side, takes the colour, and nothing outside the
    /// square around the disc changes.
    pub fn draw_filled_circle(&mut self, cx: i32, cy: i32, radius: i32, c: Color)
        requires
            coord_ok(cx as int) && coord_ok(cy as int) && coord_ok(radius as int),
        ensures
            image_size(*final(self)) == image_size(*old(self)),
            image_pixels(*final(self)) == filled_circle_pixels(
                image_pixels(*old(self)),
                image_size(*old(self)),
                (cx, cy),
                radius,
                c@,
            ),
            exact_f32(cx - radius) && exact_f32(cx + radius) && exact_f32(cy - radius)
                && exact_f32(cy + radius) ==> same_outside_square(
                image_size(*old(self)),
                image_pixels(*old(self)),
                image_pixels(*final(self)),
                cx as int,
                cy as int,
                radius as int,
            ),
            exact_f32(cx - radius) && exact_f32(cx + radius) && exact_f32(cy - radius)
                && exact_f32(cy + radius) ==> forall|px: u32|
                in_bounds(image_size(*old(self)), px as int, cy as int) && cx - radius <= px <= cx
                    + radius ==> #[trigger] image_pixels(*final(self))[(px, cy as u32)] == c@,
    {
        filled_circle(self, cx, cy, radius, c);
    }
}

} // verus!
