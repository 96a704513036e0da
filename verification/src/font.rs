//! The HUD's 5 × 9 bitmap font, scaled by an integer factor.
use vstd::prelude::*;
use vstd::arithmetic::power2::{lemma2_to64, pow2};
use crate::canvas::{Canvas, Color, image_size, image_pixels, in_bounds, in_rect, safe_put, put_spec};
use crate::text::chars_of;

verus! {

/// Glyph width in font pixels (one more column of spacing follows each glyph).
pub const FONT_W: u32 = 5;

/// Glyph height in font pixels.
pub const FONT_H: u32 = 9;

/// The rows of a glyph, top to bottom; bit 4 of a row is its leftmost column.
/// Characters without a glyph of their own get a hollow box.
pub open spec fn glyph(ch: char) -> Seq<u8> {
    match ch {
        '0' => seq![0b01110u8, 0b10001u8, 0b10001u8, 0b10011u8, 0b10101u8, 0b11001u8, 0b10001u8, 0b10001u8, 0b01110u8],
        '1' => seq![0b00100u8, 0b01100u8, 0b10100u8, 0b00100u8, 0b00100u8, 0b00100u8, 0b00100u8, 0b00100u8, 0b11111u8],
        '2' => seq![0b01110u8, 0b10001u8, 0b00001u8, 0b00010u8, 0b00100u8, 0b01000u8, 0b10000u8, 0b10000u8, 0b11111u8],
        '3' => seq![0b11111u8, 0b00010u8, 0b00100u8, 0b00010u8, 0b00001u8, 0b00001u8, 0b00001u8, 0b10001u8, 0b01110u8],
        '4' => seq![0b00010u8, 0b00110u8, 0b01010u8, 0b10010u8, 0b10010u8, 0b11111u8, 0b00010u8, 0b00010u8, 0b00010u8],
        '5' => seq![0b11111u8, 0b10000u8, 0b10000u8, 0b11110u8, 0b00001u8, 0b00001u8, 0b00001u8, 0b10001u8, 0b01110u8],
        '6' => seq![0b00110u8, 0b01000u8, 0b10000u8, 0b10000u8, 0b11110u8, 0b10001u8, 0b10001u8, 0b10001u8, 0b01110u8],
        '7' => seq![0b11111u8, 0b00001u8, 0b00001u8, 0b00010u8, 0b00100u8, 0b01000u8, 0b01000u8, 0b01000u8, 0b01000u8],
        '8' => seq![0b01110u8, 0b10001u8, 0b10001u8, 0b10001u8, 0b01110u8, 0b10001u8, 0b10001u8, 0b10001u8, 0b01110u8],
        '9' => seq![0b01110u8, 0b10001u8, 0b10001u8, 0b10001u8, 0b01111u8, 0b00001u8, 0b00001u8, 0b00010u8, 0b01100u8],
        '.' => seq![0u8, 0u8, 0u8, 0u8, 0u8, 0u8, 0u8, 0b01100u8, 0b01100u8],
        ':' => seq![0u8, 0b01100u8, 0b01100u8, 0u8, 0u8, 0b01100u8, 0b01100u8, 0u8, 0u8],
        '-' => seq![0u8, 0u8, 0u8, 0u8, 0b11111u8, 0u8, 0u8, 0u8, 0u8],
        '+' => seq![0u8, 0b00100u8, 0b00100u8, 0b11111u8, 0b00100u8, 0b00100u8, 0u8, 0u8, 0u8],
        '/' => seq![0b00001u8, 0b00010u8, 0b00100u8, 0b01000u8, 0b10000u8, 0u8, 0u8, 0u8, 0u8],
        ' ' => seq![0u8, 0u8, 0u8, 0u8, 0u8, 0u8, 0u8, 0u8, 0u8],
        'A' => seq![0b01110u8, 0b10001u8, 0b10001u8, 0b11111u8, 0b10001u8, 0b10001u8, 0b10001u8, 0b10001u8, 0b10001u8],
        'B' => seq![0b11110u8, 0b10001u8, 0b10001u8, 0b11110u8, 0b10001u8, 0b10001u8, 0b10001u8, 0b10001u8, 0b11110u8],
        'C' => seq![0b01110u8, 0b10001u8, 0b10000u8, 0b10000u8, 0b10000u8, 0b10000u8, 0b10000u8, 0b10001u8, 0b01110u8],
        'D' => seq![0b11100u8, 0b10010u8, 0b10001u8, 0b10001u8, 0b10001u8, 0b10001u8, 0b10001u8, 0b10010u8, 0b11100u8],
        'E' => seq![0b11111u8, 0b10000u8, 0b10000u8, 0b11110u8, 0b10000u8, 0b10000u8, 0b10000u8, 0b10000u8, 0b11111u8],
        'F' => seq![0b11111u8, 0b10000u8, 0b10000u8, 0b11110u8, 0b10000u8, 0b10000u8, 0b10000u8, 0b10000u8, 0b10000u8],
        'G' => seq![0b01110u8, 0b10001u8, 0b10000u8, 0b10111u8, 0b10001u8, 0b10001u8, 0b10001u8, 0b10001u8, 0b01111u8],
        'H' => seq![0b10001u8, 0b10001u8, 0b10001u8, 0b11111u8, 0b10001u8, 0b10001u8, 0b10001u8, 0b10001u8, 0b10001u8],
        'I' => seq![0b01110u8, 0b00100u8, 0b00100u8, 0b00100u8, 0b00100u8, 0b00100u8, 0b00100u8, 0b00100u8, 0b01110u8],
        'J' => seq![0b00111u8, 0b00010u8, 0b00010u8, 0b00010u8, 0b00010u8, 0b00010u8, 0b10010u8, 0b10010u8, 0b01100u8],
        'K' => seq![0b10001u8, 0b10010u8, 0b10100u8, 0b11000u8, 0b11000u8, 0b10100u8, 0b10010u8, 0b10001u8, 0b10001u8],
        'L' => seq![0b10000u8, 0b10000u8, 0b10000u8, 0b10000u8, 0b10000u8, 0b10000u8, 0b10000u8, 0b10000u8, 0b11111u8],
        'M' => seq![0b10001u8, 0b11011u8, 0b10101u8, 0b10101u8, 0b10001u8, 0b10001u8, 0b10001u8, 0b10001u8, 0b10001u8],
        'N' => seq![0b10001u8, 0b11001u8, 0b10101u8, 0b10011u8, 0b10001u8, 0b10001u8, 0b10001u8, 0b10001u8, 0b10001u8],
        'O' => seq![0b01110u8, 0b10001u8, 0b10001u8, 0b10001u8, 0b10001u8, 0b10001u8, 0b10001u8, 0b10001u8, 0b01110u8],
        'P' => seq![0b11110u8, 0b10001u8, 0b10001u8, 0b11110u8, 0b10000u8, 0b10000u8, 0b10000u8, 0b10000u8, 0b10000u8],
        'Q' => seq![0b01110u8, 0b10001u8, 0b10001u8, 0b10001u8, 0b10001u8, 0b10101u8, 0b10011u8, 0b10001u8, 0b01111u8],
        'R' => seq![0b11110u8, 0b10001u8, 0b10001u8, 0b11110u8, 0b11000u8, 0b10100u8, 0b10010u8, 0b10001u8, 0b10001u8],
        'S' => seq![0b01111u8, 0b10000u8, 0b10000u8, 0b10000u8, 0b01110u8, 0b00001u8, 0b00001u8, 0b00001u8, 0b11110u8],
        'T' => seq![0b11111u8, 0b00100u8, 0b00100u8, 0b00100u8, 0b00100u8, 0b00100u8, 0b00100u8, 0b00100u8, 0b00100u8],
        'U' => seq![0b10001u8, 0b10001u8, 0b10001u8, 0b10001u8, 0b10001u8, 0b10001u8, 0b10001u8, 0b10001u8, 0b01110u8],
        'V' => seq![0b10001u8, 0b10001u8, 0b10001u8, 0b10001u8, 0b01010u8, 0b01010u8, 0b01010u8, 0b00100u8, 0b00100u8],
        'W' => seq![0b10001u8, 0b10001u8, 0b10001u8, 0b10101u8, 0b10101u8, 0b10101u8, 0b01010u8, 0b01010u8, 0b01010u8],
        'X' => seq![0b10001u8, 0b10001u8, 0b01010u8, 0b00100u8, 0b00100u8, 0b01010u8, 0b10001u8, 0b10001u8, 0b10001u8],
        'Y' => seq![0b10001u8, 0b10001u8, 0b01010u8, 0b00100u8, 0b00100u8, 0b00100u8, 0b00100u8, 0b00100u8, 0b00100u8],
        'Z' => seq![0b11111u8, 0b00001u8, 0b00010u8, 0b00100u8, 0b01000u8, 0b10000u8, 0b10000u8, 0b10000u8, 0b11111u8],
        'h' => seq![0b10000u8, 0b10000u8, 0b10110u8, 0b11001u8, 0b10001u8, 0b10001u8, 0b10001u8, 0b10001u8, 0b10001u8],
        'k' => seq![0b10000u8, 0b10000u8, 0b10010u8, 0b10100u8, 0b11000u8, 0b11000u8, 0b10100u8, 0b10010u8, 0b10001u8],
        'm' => seq![0u8, 0u8, 0b11010u8, 0b10101u8, 0b10101u8, 0b10001u8, 0b10001u8, 0b10001u8, 0b10001u8],
        _ => seq![0b11111u8, 0b10001u8, 0b10001u8, 0b10001u8, 0b10001u8, 0b10001u8, 0b10001u8, 0b10001u8, 0b11111u8],
    }
}

/// The bitmap of `ch`.
pub fn char_bm(ch: char) -> (bm: [u8; 9])
    ensures
        bm@ == glyph(ch),
{
    match ch {
        '0' => [0b01110, 0b10001, 0b10001, 0b10011, 0b10101, 0b11001, 0b10001, 0b10001, 0b01110],
        '1' => [0b00100, 0b01100, 0b10100, 0b00100, 0b00100, 0b00100, 0b00100, 0b00100, 0b11111],
        '2' => [0b01110, 0b10001, 0b00001, 0b00010, 0b00100, 0b01000, 0b10000, 0b10000, 0b11111],
        '3' => [0b11111, 0b00010, 0b00100, 0b00010, 0b00001, 0b00001, 0b00001, 0b10001, 0b01110],
        '4' => [0b00010, 0b00110, 0b01010, 0b10010, 0b10010, 0b11111, 0b00010, 0b00010, 0b00010],
        '5' => [0b11111, 0b10000, 0b10000, 0b11110, 0b00001, 0b00001, 0b00001, 0b10001, 0b01110],
        '6' => [0b00110, 0b01000, 0b10000, 0b10000, 0b11110, 0b10001, 0b10001, 0b10001, 0b01110],
        '7' => [0b11111, 0b00001, 0b00001, 0b00010, 0b00100, 0b01000, 0b01000, 0b01000, 0b01000],
        '8' => [0b01110, 0b10001, 0b10001, 0b10001, 0b01110, 0b10001, 0b10001, 0b10001, 0b01110],
        '9' => [0b01110, 0b10001, 0b10001, 0b10001, 0b01111, 0b00001, 0b00001, 0b00010, 0b01100],
        '.' => [0, 0, 0, 0, 0, 0, 0, 0b01100, 0b01100],
        ':' => [0, 0b01100, 0b01100, 0, 0, 0b01100, 0b01100, 0, 0],
        '-' => [0, 0, 0, 0, 0b11111, 0, 0, 0, 0],
        '+' => [0, 0b00100, 0b00100, 0b11111, 0b00100, 0b00100, 0, 0, 0],
        '/' => [0b00001, 0b00010, 0b00100, 0b01000, 0b10000, 0, 0, 0, 0],
        ' ' => [0, 0, 0, 0, 0, 0, 0, 0, 0],
        'A' => [0b01110, 0b10001, 0b10001, 0b11111, 0b10001, 0b10001, 0b10001, 0b10001, 0b10001],
        'B' => [0b11110, 0b10001, 0b10001, 0b11110, 0b10001, 0b10001, 0b10001, 0b10001, 0b11110],
        'C' => [0b01110, 0b10001, 0b10000, 0b10000, 0b10000, 0b10000, 0b10000, 0b10001, 0b01110],
        'D' => [0b11100, 0b10010, 0b10001, 0b10001, 0b10001, 0b10001, 0b10001, 0b10010, 0b11100],
        'E' => [0b11111, 0b10000, 0b10000, 0b11110, 0b10000, 0b10000, 0b10000, 0b10000, 0b11111],
        'F' => [0b11111, 0b10000, 0b10000, 0b11110, 0b10000, 0b10000, 0b10000, 0b10000, 0b10000],
        'G' => [0b01110, 0b10001, 0b10000, 0b10111, 0b10001, 0b10001, 0b10001, 0b10001, 0b01111],
        'H' => [0b10001, 0b10001, 0b10001, 0b11111, 0b10001, 0b10001, 0b10001, 0b10001, 0b10001],
        'I' => [0b01110, 0b00100, 0b00100, 0b00100, 0b00100, 0b00100, 0b00100, 0b00100, 0b01110],
        'J' => [0b00111, 0b00010, 0b00010, 0b00010, 0b00010, 0b00010, 0b10010, 0b10010, 0b01100],
        'K' => [0b10001, 0b10010, 0b10100, 0b11000, 0b11000, 0b10100, 0b10010, 0b10001, 0b10001],
        'L' => [0b10000, 0b10000, 0b10000, 0b10000, 0b10000, 0b10000, 0b10000, 0b10000, 0b11111],
        'M' => [0b10001, 0b11011, 0b10101, 0b10101, 0b10001, 0b10001, 0b10001, 0b10001, 0b10001],
        'N' => [0b10001, 0b11001, 0b10101, 0b10011, 0b10001, 0b10001, 0b10001, 0b10001, 0b10001],
        'O' => [0b01110, 0b10001, 0b10001, 0b10001, 0b10001, 0b10001, 0b10001, 0b10001, 0b01110],
        'P' => [0b11110, 0b10001, 0b10001, 0b11110, 0b10000, 0b10000, 0b10000, 0b10000, 0b10000],
        'Q' => [0b01110, 0b10001, 0b10001, 0b10001, 0b10001, 0b10101, 0b10011, 0b10001, 0b01111],
        'R' => [0b11110, 0b10001, 0b10001, 0b11110, 0b11000, 0b10100, 0b10010, 0b10001, 0b10001],
        'S' => [0b01111, 0b10000, 0b10000, 0b10000, 0b01110, 0b00001, 0b00001, 0b00001, 0b11110],
        'T' => [0b11111, 0b00100, 0b00100, 0b00100, 0b00100, 0b00100, 0b00100, 0b00100, 0b00100],
        'U' => [0b10001, 0b10001, 0b10001, 0b10001, 0b10001, 0b10001, 0b10001, 0b10001, 0b01110],
        'V' => [0b10001, 0b10001, 0b10001, 0b10001, 0b01010, 0b01010, 0b01010, 0b00100, 0b00100],
        'W' => [0b10001, 0b10001, 0b10001, 0b10101, 0b10101, 0b10101, 0b01010, 0b01010, 0b01010],
        'X' => [0b10001, 0b10001, 0b01010, 0b00100, 0b00100, 0b01010, 0b10001, 0b10001, 0b10001],
        'Y' => [0b10001, 0b10001, 0b01010, 0b00100, 0b00100, 0b00100, 0b00100, 0b00100, 0b00100],
        'Z' => [0b11111, 0b00001, 0b00010, 0b00100, 0b01000, 0b10000, 0b10000, 0b10000, 0b11111],
        'h' => [0b10000, 0b10000, 0b10110, 0b11001, 0b10001, 0b10001, 0b10001, 0b10001, 0b10001],
        'k' => [0b10000, 0b10000, 0b10010, 0b10100, 0b11000, 0b11000, 0b10100, 0b10010, 0b10001],
        'm' => [0, 0, 0b11010, 0b10101, 0b10101, 0b10001, 0b10001, 0b10001, 0b10001],
        _ => [0b11111, 0b10001, 0b10001, 0b10001, 0b10001, 0b10001, 0b10001, 0b10001, 0b11111],
    }
}

/// Every glyph has nine rows, and each row uses only the five glyph columns.
pub proof fn law_glyphs_fit_the_cell(ch: char)
    ensures
        glyph(ch).len() == 9,
        forall|row: int| 0 <= row < 9 ==> #[trigger] glyph(ch)[row] < 32,
{
}

/// Whether column `col` (0 = left) of a glyph row is set.
pub open spec fn bit_set(bits: u8, col: u32) -> bool {
    bits & (1u8 << ((4 - col) as u32)) != 0u8
}

/// Width in pixels of `n` characters at the given scale.
pub open spec fn text_width(n: int, scale: int) -> int {
    n * (FONT_W + 1) * scale
}

/// Width in pixels of `text` at the given scale.
pub fn tw(text: &str, scale: u32) -> (w: u32)
    requires
        text@.len() * (FONT_W + 1) <= u32::MAX,
        text@.len() * (FONT_W + 1) * scale <= u32::MAX,
    ensures
        w == text_width(text@.len() as int, scale as int),
{
    let n = chars_of(text).len();
    assert(n == text@.len());
    assert(n <= u32::MAX) by (nonlinear_arith)
        requires
            n * (FONT_W + 1) <= u32::MAX,
            FONT_W + 1 == 6,
    ;
    let a = n as u32 * (FONT_W + 1);
    assert(a == n * (FONT_W + 1));
    a * scale
}

/// Height in pixels of a line of text at the given scale.
pub fn th(scale: u32) -> (h: u32)
    requires
        FONT_H * scale <= u32::MAX,
    ensures
        h == FONT_H * scale,
{
    FONT_H * scale
}

/// Whether font pixel `(row, col)` of glyph `bm`, drawn with its top-left
/// corner at `(gx, gy)`, is set and covers `(px, py)`.
pub open spec fn cell_covers(
    bm: Seq<u8>,
    gx: int,
    gy: int,
    scale: int,
    row: int,
    col: int,
    px: int,
    py: int,
) -> bool {
    &&& 0 <= row < 9
    &&& 0 <= col < 5
    &&& bit_set(bm[row], col as u32)
    &&& in_rect(gx + col * scale, gy + row * scale, scale, scale, px, py)
}

/// Whether glyph `bm`, drawn with its top-left corner at `(gx, gy)`, covers `(px, py)`.
pub open spec fn glyph_covers(bm: Seq<u8>, gx: int, gy: int, scale: int, px: int, py: int) -> bool {
    exists|row: int, col: int| #[trigger] cell_covers(bm, gx, gy, scale, row, col, px, py)
}

/// Whether character `i` of `text`, drawn as `draw_text` places it, covers `(px, py)`.
pub open spec fn char_covers(text: Seq<char>, i: int, x: int, y: int, scale: int, px: int, py: int) -> bool {
    0 <= i < text.len() && glyph_covers(
        glyph(text[i]),
        x + text_width(i, scale),
        y,
        scale,
        px,
        py,
    )
}

/// Whether `text`, drawn with its top-left corner at `(x, y)`, covers `(px, py)`.
pub open spec fn text_covers(text: Seq<char>, x: int, y: int, scale: int, px: int, py: int) -> bool {
    exists|i: int| #[trigger] char_covers(text, i, x, y, scale, px, py)
}

/// Sets the `scale` × `scale` block at `(bx, by)` to `c` where it lies on the image.
fn put_block(img: &mut Canvas, bx: u32, by: u32, scale: u32, c: Color)
    requires
        scale > 0 ==> bx + scale - 1 <= u32::MAX && by + scale - 1 <= u32::MAX,
    ensures
        image_size(*final(img)) == image_size(*old(img)),
        forall|px: u32, py: u32|
            in_bounds(image_size(*old(img)), px as int, py as int) ==> #[trigger] image_pixels(
                *final(img),
            )[(px, py)] == if in_rect(
                bx as int,
                by as int,
                scale as int,
                scale as int,
                px as int,
                py as int,
            ) {
                c@
            } else {
                image_pixels(*old(img))[(px, py)]
            },
{
    let ghost size = image_size(*img);
    let ghost p0 = image_pixels(*img);
    let mut sy: u32 = 0;
    while sy < scale
        invariant
            sy <= scale,
            scale > 0 ==> bx + scale - 1 <= u32::MAX && by + scale - 1 <= u32::MAX,
            image_size(*img) == size,
            forall|px: u32, py: u32|
                in_bounds(size, px as int, py as int) ==> #[trigger] image_pixels(*img)[(px, py)]
                    == if in_rect(bx as int, by as int, scale as int, sy as int, px as int, py as int) {
                    c@
                } else {
                    p0[(px, py)]
                },
        decreases scale - sy,
    {
        let mut sx: u32 = 0;
        while sx < scale
            invariant
                sx <= scale,
                sy < scale,
                scale > 0 ==> bx + scale - 1 <= u32::MAX && by + scale - 1 <= u32::MAX,
                image_size(*img) == size,
                forall|px: u32, py: u32|
                    in_bounds(size, px as int, py as int) ==> #[trigger] image_pixels(*img)[(px, py)]
                        == if in_rect(bx as int, by as int, scale as int, sy as int, px as int, py as int)
                        || in_rect(bx as int, (by + sy) as int, sx as int, 1, px as int, py as int) {
                        c@
                    } else {
                        p0[(px, py)]
                    },
            decreases scale - sx,
        {
            safe_put(img, bx + sx, by + sy, c);
            sx = sx + 1;
        }
        sy = sy + 1;
    }
}

/// Whether a set cell of `bm` before `(row, col)` in row-major order covers `(px, py)`.
spec fn covered_before(
    bm: Seq<u8>,
    gx: int,
    gy: int,
    scale: int,
    row: int,
    col: int,
    px: int,
    py: int,
) -> bool {
    exists|r: int, cl: int|
        #[trigger] cell_covers(bm, gx, gy, scale, r, cl, px, py) && (r < row || (r == row && cl
            < col))
}

proof fn lemma_covered_step(
    bm: Seq<u8>,
    gx: int,
    gy: int,
    scale: int,
    row: int,
    col: int,
    px: int,
    py: int,
)
    ensures
        covered_before(bm, gx, gy, scale, row, col + 1, px, py) == (covered_before(
            bm,
            gx,
            gy,
            scale,
            row,
            col,
            px,
            py,
        ) || cell_covers(bm, gx, gy, scale, row, col, px, py)),
{
    if covered_before(bm, gx, gy, scale, row, col + 1, px, py) {
        let (r, cl) = choose|r: int, cl: int|
            #[trigger] cell_covers(bm, gx, gy, scale, r, cl, px, py) && (r < row || (r == row && cl
                < col + 1));
        if !(r < row || (r == row && cl < col)) {
            assert(r == row && cl == col);
        }
    }
}

proof fn lemma_covered_next_row(
    bm: Seq<u8>,
    gx: int,
    gy: int,
    scale: int,
    row: int,
    px: int,
    py: int,
)
    ensures
        covered_before(bm, gx, gy, scale, row, 5, px, py) == covered_before(
            bm,
            gx,
            gy,
            scale,
            row + 1,
            0,
            px,
            py,
        ),
{
    if covered_before(bm, gx, gy, scale, row + 1, 0, px, py) {
        let (r, cl) = choose|r: int, cl: int|
            #[trigger] cell_covers(bm, gx, gy, scale, r, cl, px, py) && (r < row + 1 || (r == row
                + 1 && cl < 0));
        assert(cell_covers(bm, gx, gy, scale, r, cl, px, py) && (r < row || (r == row && cl < 5)));
    }
}

/// Sets the pixels that glyph `bm`, drawn at `(gx, gy)`, covers to `c`.
fn draw_glyph(img: &mut Canvas, bm: &[u8; 9], gx: u32, gy: u32, scale: u32, c: Color)
    requires
        scale > 0 ==> gx + 5 * scale <= u32::MAX + 1 && gy + 9 * scale <= u32::MAX + 1,
    ensures
        image_size(*final(img)) == image_size(*old(img)),
        forall|px: u32, py: u32|
            in_bounds(image_size(*old(img)), px as int, py as int) ==> #[trigger] image_pixels(
                *final(img),
            )[(px, py)] == if glyph_covers(
                bm@,
                gx as int,
                gy as int,
                scale as int,
                px as int,
                py as int,
            ) {
                c@
            } else {
                image_pixels(*old(img))[(px, py)]
            },
{
    let ghost size = image_size(*img);
    let ghost p0 = image_pixels(*img);
    let ghost b = bm@;
    let mut row: usize = 0;
    while row < 9
        invariant
            row <= 9,
            b == bm@,
            b.len() == 9,
            scale > 0 ==> gx + 5 * scale <= u32::MAX + 1 && gy + 9 * scale <= u32::MAX + 1,
            image_size(*img) == size,
            forall|px: u32, py: u32|
                in_bounds(size, px as int, py as int) ==> #[trigger] image_pixels(*img)[(px, py)]
                    == if covered_before(
                    b,
                    gx as int,
                    gy as int,
                    scale as int,
                    row as int,
                    0,
                    px as int,
                    py as int,
                ) {
                    c@
                } else {
                    p0[(px, py)]
                },
        decreases 9 - row,
    {
        let bits = bm[row];
        let mut col: u32 = 0;
        while col < FONT_W
            invariant
                col <= FONT_W,
                row < 9,
                b == bm@,
                b.len() == 9,
                bits == b[row as int],
                scale > 0 ==> gx + 5 * scale <= u32::MAX + 1 && gy + 9 * scale <= u32::MAX + 1,
                image_size(*img) == size,
                forall|px: u32, py: u32|
                    in_bounds(size, px as int, py as int) ==> #[trigger] image_pixels(*img)[(px, py)]
                        == if covered_before(
                        b,
                        gx as int,
                        gy as int,
                        scale as int,
                        row as int,
                        col as int,
                        px as int,
                        py as int,
                    ) {
                        c@
                    } else {
                        p0[(px, py)]
                    },
            decreases FONT_W - col,
        {
            let ghost before = image_pixels(*img);
            if bits & (1u8 << (FONT_W - 1 - col)) != 0 {
                proof {
                    if scale > 0 {
                        assert(col * scale <= 4 * scale) by (nonlinear_arith)
                            requires col <= 4, scale > 0;
                        assert(row * scale <= 8 * scale) by (nonlinear_arith)
                            requires row <= 8, scale > 0;
                    }
                }
                let bx = gx + col * scale;
                let by = gy + row as u32 * scale;
                put_block(img, bx, by, scale, c);
                proof {
                    assert forall|px: u32, py: u32| in_bounds(size, px as int, py as int) implies #[trigger] image_pixels(
                        *img,
                    )[(px, py)] == if covered_before(
                        b,
                        gx as int,
                        gy as int,
                        scale as int,
                        row as int,
                        col + 1,
                        px as int,
                        py as int,
                    ) {
                        c@
                    } else {
                        p0[(px, py)]
                    } by {
                        lemma_covered_step(
                            b,
                            gx as int,
                            gy as int,
                            scale as int,
                            row as int,
                            col as int,
                            px as int,
                            py as int,
                        );
                        assert(before[(px, py)] == image_pixels(*img)[(px, py)] || in_rect(
                            bx as int,
                            by as int,
                            scale as int,
                            scale as int,
                            px as int,
                            py as int,
                        ));
                    }
                }
            } else {
                proof {
                    assert forall|px: u32, py: u32| in_bounds(size, px as int, py as int) implies #[trigger] image_pixels(
                        *img,
                    )[(px, py)] == if covered_before(
                        b,
                        gx as int,
                        gy as int,
                        scale as int,
                        row as int,
                        col + 1,
                        px as int,
                        py as int,
                    ) {
                        c@
                    } else {
                        p0[(px, py)]
                    } by {
                        lemma_covered_step(
                            b,
                            gx as int,
                            gy as int,
                            scale as int,
                            row as int,
                            col as int,
                            px as int,
                            py as int,
                        );
                    }
                }
            }
            col = col + 1;
        }
        proof {
            assert forall|px: u32, py: u32| in_bounds(size, px as int, py as int) implies #[trigger] image_pixels(
                *img,
            )[(px, py)] == if covered_before(
                b,
                gx as int,
                gy as int,
                scale as int,
                row + 1,
                0,
                px as int,
                py as int,
            ) {
                c@
            } else {
                p0[(px, py)]
            } by {
                lemma_covered_next_row(
                    b,
                    gx as int,
                    gy as int,
                    scale as int,
                    row as int,
                    px as int,
                    py as int,
                );
            }
        }
        row = row + 1;
    }
    proof {
        assert forall|px: u32, py: u32| in_bounds(size, px as int, py as int) implies #[trigger] image_pixels(
            *img,
        )[(px, py)] == if glyph_covers(b, gx as int, gy as int, scale as int, px as int, py as int) {
            c@
        } else {
            p0[(px, py)]
        } by {
            if glyph_covers(b, gx as int, gy as int, scale as int, px as int, py as int) {
                let (r, cl) = choose|r: int, cl: int|
                    #[trigger] cell_covers(b, gx as int, gy as int, scale as int, r, cl, px as int, py as int);
                assert(covered_before(b, gx as int, gy as int, scale as int, 9, 0, px as int, py as int));
            }
        }
    }
}

/// Whether one of the first `i` characters of `text` covers `(px, py)`.
spec fn chars_cover_before(text: Seq<char>, i: int, x: int, y: int, scale: int, px: int, py: int) -> bool {
    exists|j: int| #[trigger] char_covers(text, j, x, y, scale, px, py) && j < i
}

/// Whether `text` can be drawn at `(x, y)` without a coordinate passing `u32::MAX`.
pub open spec fn text_fits(len: int, x: int, y: int, scale: int) -> bool {
    &&& (FONT_W + 1) * scale <= u32::MAX
    &&& scale > 0 && len > 0 ==> x + text_width(len, scale) <= u32::MAX + 1 && y + FONT_H * scale
        <= u32::MAX + 1
}

/// Sets every pixel that `text`, drawn with its top-left corner at `(x, y)`
/// with each font pixel scaled to `scale` × `scale`, covers to `color`;
/// pixels off the image are skipped.  Characters advance by six font pixels.
pub fn draw_text(img: &mut Canvas, text: &str, x: u32, y: u32, scale: u32, color: Color)
    requires
        text_fits(text@.len() as int, x as int, y as int, scale as int),
    ensures
        image_size(*final(img)) == image_size(*old(img)),
        forall|px: u32, py: u32|
            in_bounds(image_size(*old(img)), px as int, py as int) ==> #[trigger] image_pixels(
                *final(img),
            )[(px, py)] == if text_covers(
                text@,
                x as int,
                y as int,
                scale as int,
                px as int,
                py as int,
            ) {
                color@
            } else {
                image_pixels(*old(img))[(px, py)]
            },
{
    let ghost size = image_size(*img);
    let ghost p0 = image_pixels(*img);
    let cw = (FONT_W + 1) * scale;
    let chars = chars_of(text);
    let ghost t = text@;
    let mut i: usize = 0;
    while i < chars.len()
        invariant
            i <= chars@.len(),
            chars@ == t,
            cw == (FONT_W + 1) * scale,
            text_fits(t.len() as int, x as int, y as int, scale as int),
            image_size(*img) == size,
            forall|px: u32, py: u32|
                in_bounds(size, px as int, py as int) ==> #[trigger] image_pixels(*img)[(px, py)]
                    == if chars_cover_before(
                    t,
                    i as int,
                    x as int,
                    y as int,
                    scale as int,
                    px as int,
                    py as int,
                ) {
                    color@
                } else {
                    p0[(px, py)]
                },
        decreases chars.len() - i,
    {
        let bm = char_bm(chars[i]);
        proof {
            if scale > 0 {
                assert(i * cw + 6 * scale <= t.len() * cw) by (nonlinear_arith)
                    requires i < t.len(), cw == 6 * scale, scale > 0;
                assert(text_width(t.len() as int, scale as int) == t.len() * cw) by (nonlinear_arith)
                    requires cw == 6 * scale;
                assert(i <= u32::MAX) by (nonlinear_arith)
                    requires i * cw <= u32::MAX, cw >= 6;
                assert((i as u32) * cw == i * cw);
            } else {
                assert((i as u32) * cw == 0) by (nonlinear_arith)
                    requires cw == 0;
            }
        }
        let cx = x + (i as u32) * cw;
        proof {
            if scale > 0 {
                assert(text_width(i as int, scale as int) == i * cw) by (nonlinear_arith)
                    requires cw == 6 * scale;
            } else {
                assert(text_width(i as int, scale as int) == 0) by (nonlinear_arith)
                    requires scale == 0;
            }
            assert(cx == x + text_width(i as int, scale as int));
        }
        let ghost before = image_pixels(*img);
        draw_glyph(img, &bm, cx, y, scale, color);
        proof {
            assert forall|px: u32, py: u32| in_bounds(size, px as int, py as int) implies #[trigger] image_pixels(
                *img,
            )[(px, py)] == if chars_cover_before(
                t,
                i + 1,
                x as int,
                y as int,
                scale as int,
                px as int,
                py as int,
            ) {
                color@
            } else {
                p0[(px, py)]
            } by {
                let here = char_covers(t, i as int, x as int, y as int, scale as int, px as int, py as int);
                assert(here == glyph_covers(bm@, cx as int, y as int, scale as int, px as int, py as int));
                if chars_cover_before(t, i + 1, x as int, y as int, scale as int, px as int, py as int) {
                    let j = choose|j: int|
                        #[trigger] char_covers(t, j, x as int, y as int, scale as int, px as int, py as int)
                            && j < i + 1;
                    if j < i {
                        assert(chars_cover_before(t, i as int, x as int, y as int, scale as int, px as int, py as int));
                    }
                }
                if chars_cover_before(t, i as int, x as int, y as int, scale as int, px as int, py as int) {
                    let j = choose|j: int|
                        #[trigger] char_covers(t, j, x as int, y as int, scale as int, px as int, py as int)
                            && j < i;
                    assert(chars_cover_before(t, i + 1, x as int, y as int, scale as int, px as int, py as int));
                }
            }
        }
        i = i + 1;
    }
    proof {
        assert forall|px: u32, py: u32| in_bounds(size, px as int, py as int) implies #[trigger] image_pixels(
            *img,
        )[(px, py)] == if text_covers(t, x as int, y as int, scale as int, px as int, py as int) {
            color@
        } else {
            p0[(px, py)]
        } by {
            if text_covers(t, x as int, y as int, scale as int, px as int, py as int) {
                let j = choose|j: int|
                    #[trigger] char_covers(t, j, x as int, y as int, scale as int, px as int, py as int);
                assert(chars_cover_before(t, i as int, x as int, y as int, scale as int, px as int, py as int));
            }
        }
    }
}

/// The left edge of `text` centred on `cx`, held at 0.
pub open spec fn centred_left(len: int, cx: int, scale: int) -> int {
    let half = text_width(len, scale) / 2;
    if cx >= half {
        cx - half
    } else {
        0
    }
}

/// Draws `text` horizontally centred on `cx` (its left edge held at 0).
pub fn draw_text_c(img: &mut Canvas, text: &str, cx: u32, y: u32, scale: u32, color: Color)
    requires
        text@.len() * (FONT_W + 1) * scale <= u32::MAX,
        text@.len() * (FONT_W + 1) <= u32::MAX,
        text_fits(text@.len() as int, centred_left(text@.len() as int, cx as int, scale as int), y as int, scale as int),
    ensures
        image_size(*final(img)) == image_size(*old(img)),
        forall|px: u32, py: u32|
            in_bounds(image_size(*old(img)), px as int, py as int) ==> #[trigger] image_pixels(
                *final(img),
            )[(px, py)] == if text_covers(
                text@,
                centred_left(text@.len() as int, cx as int, scale as int),
                y as int,
                scale as int,
                px as int,
                py as int,
            ) {
                color@
            } else {
                image_pixels(*old(img))[(px, py)]
            },
{
    let left = cx.saturating_sub(tw(text, scale) / 2);
    draw_text(img, text, left, y, scale, color);
}

/// The font is the HUD's reference 5 × 9 font: each character's rows, top
/// to bottom with bit 4 the leftmost column, are these; in particular a 6
/// is open at the top right with its loop at the bottom, and a 9 has its
/// loop at the top.  Characters without a glyph of their own get the box.
pub proof fn law_reference_font()
    ensures
        glyph('0') == seq![0b01110u8, 0b10001u8, 0b10001u8, 0b10011u8, 0b10101u8, 0b11001u8, 0b10001u8, 0b10001u8, 0b01110u8],
        glyph('1') == seq![0b00100u8, 0b01100u8, 0b10100u8, 0b00100u8, 0b00100u8, 0b00100u8, 0b00100u8, 0b00100u8, 0b11111u8],
        glyph('2') == seq![0b01110u8, 0b10001u8, 0b00001u8, 0b00010u8, 0b00100u8, 0b01000u8, 0b10000u8, 0b10000u8, 0b11111u8],
        glyph('3') == seq![0b11111u8, 0b00010u8, 0b00100u8, 0b00010u8, 0b00001u8, 0b00001u8, 0b00001u8, 0b10001u8, 0b01110u8],
        glyph('4') == seq![0b00010u8, 0b00110u8, 0b01010u8, 0b10010u8, 0b10010u8, 0b11111u8, 0b00010u8, 0b00010u8, 0b00010u8],
        glyph('5') == seq![0b11111u8, 0b10000u8, 0b10000u8, 0b11110u8, 0b00001u8, 0b00001u8, 0b00001u8, 0b10001u8, 0b01110u8],
        glyph('6') == seq![0b00110u8, 0b01000u8, 0b10000u8, 0b10000u8, 0b11110u8, 0b10001u8, 0b10001u8, 0b10001u8, 0b01110u8],
        glyph('7') == seq![0b11111u8, 0b00001u8, 0b00001u8, 0b00010u8, 0b00100u8, 0b01000u8, 0b01000u8, 0b01000u8, 0b01000u8],
        glyph('8') == seq![0b01110u8, 0b10001u8, 0b10001u8, 0b10001u8, 0b01110u8, 0b10001u8, 0b10001u8, 0b10001u8, 0b01110u8],
        glyph('9') == seq![0b01110u8, 0b10001u8, 0b10001u8, 0b10001u8, 0b01111u8, 0b00001u8, 0b00001u8, 0b00010u8, 0b01100u8],
        glyph('.') == seq![0u8, 0u8, 0u8, 0u8, 0u8, 0u8, 0u8, 0b01100u8, 0b01100u8],
        glyph(':') == seq![0u8, 0b01100u8, 0b01100u8, 0u8, 0u8, 0b01100u8, 0b01100u8, 0u8, 0u8],
        glyph('-') == seq![0u8, 0u8, 0u8, 0u8, 0b11111u8, 0u8, 0u8, 0u8, 0u8],
        glyph('+') == seq![0u8, 0b00100u8, 0b00100u8, 0b11111u8, 0b00100u8, 0b00100u8, 0u8, 0u8, 0u8],
        glyph('/') == seq![0b00001u8, 0b00010u8, 0b00100u8, 0b01000u8, 0b10000u8, 0u8, 0u8, 0u8, 0u8],
        glyph(' ') == seq![0u8, 0u8, 0u8, 0u8, 0u8, 0u8, 0u8, 0u8, 0u8],
        glyph('A') == seq![0b01110u8, 0b10001u8, 0b10001u8, 0b11111u8, 0b10001u8, 0b10001u8, 0b10001u8, 0b10001u8, 0b10001u8],
        glyph('B') == seq![0b11110u8, 0b10001u8, 0b10001u8, 0b11110u8, 0b10001u8, 0b10001u8, 0b10001u8, 0b10001u8, 0b11110u8],
        glyph('C') == seq![0b01110u8, 0b10001u8, 0b10000u8, 0b10000u8, 0b10000u8, 0b10000u8, 0b10000u8, 0b10001u8, 0b01110u8],
        glyph('D') == seq![0b11100u8, 0b10010u8, 0b10001u8, 0b10001u8, 0b10001u8, 0b10001u8, 0b10001u8, 0b10010u8, 0b11100u8],
        glyph('E') == seq![0b11111u8, 0b10000u8, 0b10000u8, 0b11110u8, 0b10000u8, 0b10000u8, 0b10000u8, 0b10000u8, 0b11111u8],
        glyph('F') == seq![0b11111u8, 0b10000u8, 0b10000u8, 0b11110u8, 0b10000u8, 0b10000u8, 0b10000u8, 0b10000u8, 0b10000u8],
        glyph('G') == seq![0b01110u8, 0b10001u8, 0b10000u8, 0b10111u8, 0b10001u8, 0b10001u8, 0b10001u8, 0b10001u8, 0b01111u8],
        glyph('H') == seq![0b10001u8, 0b10001u8, 0b10001u8, 0b11111u8, 0b10001u8, 0b10001u8, 0b10001u8, 0b10001u8, 0b10001u8],
        glyph('I') == seq![0b01110u8, 0b00100u8, 0b00100u8, 0b00100u8, 0b00100u8, 0b00100u8, 0b00100u8, 0b00100u8, 0b01110u8],
        glyph('J') == seq![0b00111u8, 0b00010u8, 0b00010u8, 0b00010u8, 0b00010u8, 0b00010u8, 0b10010u8, 0b10010u8, 0b01100u8],
        glyph('K') == seq![0b10001u8, 0b10010u8, 0b10100u8, 0b11000u8, 0b11000u8, 0b10100u8, 0b10010u8, 0b10001u8, 0b10001u8],
        glyph('L') == seq![0b10000u8, 0b10000u8, 0b10000u8, 0b10000u8, 0b10000u8, 0b10000u8, 0b10000u8, 0b10000u8, 0b11111u8],
        glyph('M') == seq![0b10001u8, 0b11011u8, 0b10101u8, 0b10101u8, 0b10001u8, 0b10001u8, 0b10001u8, 0b10001u8, 0b10001u8],
        glyph('N') == seq![0b10001u8, 0b11001u8, 0b10101u8, 0b10011u8, 0b10001u8, 0b10001u8, 0b10001u8, 0b10001u8, 0b10001u8],
        glyph('O') == seq![0b01110u8, 0b10001u8, 0b10001u8, 0b10001u8, 0b10001u8, 0b10001u8, 0b10001u8, 0b10001u8, 0b01110u8],
        glyph('P') == seq![0b11110u8, 0b10001u8, 0b10001u8, 0b11110u8, 0b10000u8, 0b10000u8, 0b10000u8, 0b10000u8, 0b10000u8],
        glyph('Q') == seq![0b01110u8, 0b10001u8, 0b10001u8, 0b10001u8, 0b10001u8, 0b10101u8, 0b10011u8, 0b10001u8, 0b01111u8],
        glyph('R') == seq![0b11110u8, 0b10001u8, 0b10001u8, 0b11110u8, 0b11000u8, 0b10100u8, 0b10010u8, 0b10001u8, 0b10001u8],
        glyph('S') == seq![0b01111u8, 0b10000u8, 0b10000u8, 0b10000u8, 0b01110u8, 0b00001u8, 0b00001u8, 0b00001u8, 0b11110u8],
        glyph('T') == seq![0b11111u8, 0b00100u8, 0b00100u8, 0b00100u8, 0b00100u8, 0b00100u8, 0b00100u8, 0b00100u8, 0b00100u8],
        glyph('U') == seq![0b10001u8, 0b10001u8, 0b10001u8, 0b10001u8, 0b10001u8, 0b10001u8, 0b10001u8, 0b10001u8, 0b01110u8],
        glyph('V') == seq![0b10001u8, 0b10001u8, 0b10001u8, 0b10001u8, 0b01010u8, 0b01010u8, 0b01010u8, 0b00100u8, 0b00100u8],
        glyph('W') == seq![0b10001u8, 0b10001u8, 0b10001u8, 0b10101u8, 0b10101u8, 0b10101u8, 0b01010u8, 0b01010u8, 0b01010u8],
        glyph('X') == seq![0b10001u8, 0b10001u8, 0b01010u8, 0b00100u8, 0b00100u8, 0b01010u8, 0b10001u8, 0b10001u8, 0b10001u8],
        glyph('Y') == seq![0b10001u8, 0b10001u8, 0b01010u8, 0b00100u8, 0b00100u8, 0b00100u8, 0b00100u8, 0b00100u8, 0b00100u8],
        glyph('Z') == seq![0b11111u8, 0b00001u8, 0b00010u8, 0b00100u8, 0b01000u8, 0b10000u8, 0b10000u8, 0b10000u8, 0b11111u8],
        glyph('h') == seq![0b10000u8, 0b10000u8, 0b10110u8, 0b11001u8, 0b10001u8, 0b10001u8, 0b10001u8, 0b10001u8, 0b10001u8],
        glyph('k') == seq![0b10000u8, 0b10000u8, 0b10010u8, 0b10100u8, 0b11000u8, 0b11000u8, 0b10100u8, 0b10010u8, 0b10001u8],
        glyph('m') == seq![0u8, 0u8, 0b11010u8, 0b10101u8, 0b10101u8, 0b10001u8, 0b10001u8, 0b10001u8, 0b10001u8],
        glyph('q') == seq![0b11111u8, 0b10001u8, 0b10001u8, 0b10001u8, 0b10001u8, 0b10001u8, 0b10001u8, 0b10001u8, 0b11111u8],
{
}

/// Text drawn at `(x, y)` with scale `scale` covers only pixels inside its
/// box: columns `x` to `x + text_width - 1`, rows `y` to `y + 9 * scale - 1`.
pub proof fn law_text_stays_in_its_box(
    text: Seq<char>,
    x: int,
    y: int,
    scale: int,
    px: int,
    py: int,
)
    requires
        scale > 0,
        text_covers(text, x, y, scale, px, py),
    ensures
        x <= px < x + text_width(text.len() as int, scale),
        y <= py < y + FONT_H * scale,
{
    let i = choose|i: int| #[trigger] char_covers(text, i, x, y, scale, px, py);
    let (row, col) = choose|row: int, col: int|
        #[trigger] cell_covers(glyph(text[i]), x + text_width(i, scale), y, scale, row, col, px, py);
    let gx = x + text_width(i, scale);
    assert(gx + col * scale + scale <= x + text_width(text.len() as int, scale)) by (nonlinear_arith)
        requires
            gx == x + i * (FONT_W + 1) * scale,
            0 <= i < text.len(),
            0 <= col < 5,
            scale > 0,
            FONT_W == 5,
    ;
    assert(x <= gx + col * scale) by (nonlinear_arith)
        requires
            gx == x + i * (FONT_W + 1) * scale,
            0 <= i,
            0 <= col,
            scale > 0,
    ;
    assert(row * scale + scale <= FONT_H * scale && 0 <= row * scale) by (nonlinear_arith)
        requires
            0 <= row < 9,
            scale > 0,
            FONT_H == 9,
    ;
}

proof fn lemma_bit_is_digit(bits: u8, col: int)
    requires
        0 <= col < 5,
    ensures
        bit_set(bits, col as u32) <==> (bits as int / pow2((4 - col) as nat) as int) % 2 == 1,
{
    lemma2_to64();
    if col == 0 {
        assert(bits & (1u8 << 4u32) != 0u8 <==> (bits / 16u8) % 2u8 == 1u8) by (bit_vector);
    } else if col == 1 {
        assert(bits & (1u8 << 3u32) != 0u8 <==> (bits / 8u8) % 2u8 == 1u8) by (bit_vector);
    } else if col == 2 {
        assert(bits & (1u8 << 2u32) != 0u8 <==> (bits / 4u8) % 2u8 == 1u8) by (bit_vector);
    } else if col == 3 {
        assert(bits & (1u8 << 1u32) != 0u8 <==> (bits / 2u8) % 2u8 == 1u8) by (bit_vector);
    } else {
        assert(bits & (1u8 << 0u32) != 0u8 <==> (bits / 1u8) % 2u8 == 1u8) by (bit_vector);
    }
}

/// How text is laid out: character `i` takes the cell that starts
/// `6 * scale * i` pixels right of the text's left edge, and within it font
/// pixel `(row, col)` is the `scale` × `scale` block `scale * col` pixels
/// right of the cell's edge and `scale * row` below the top.  That block is
/// covered exactly when digit `4 - col` of the glyph's row `row`, read in
/// base 2, is 1 (the leftmost column is the row's highest digit).
pub proof fn law_text_pixels(
    text: Seq<char>,
    x: int,
    y: int,
    scale: int,
    i: int,
    row: int,
    col: int,
    a: int,
    b: int,
)
    requires
        scale > 0,
        0 <= i < text.len(),
        0 <= row < 9,
        0 <= col < 5,
        0 <= a < scale,
        0 <= b < scale,
    ensures
        text_covers(text, x, y, scale, x + 6 * scale * i + scale * col + a, y + scale * row + b)
            <==> (glyph(text[i])[row] as int / pow2((4 - col) as nat) as int) % 2 == 1,
{
    let px = x + 6 * scale * i + scale * col + a;
    let py = y + scale * row + b;
    law_glyphs_fit_the_cell(text[i]);
    lemma_bit_is_digit(glyph(text[i])[row], col);
    assert(text_width(i, scale) == 6 * scale * i) by (nonlinear_arith);
    if text_covers(text, x, y, scale, px, py) {
        let j = choose|j: int| #[trigger] char_covers(text, j, x, y, scale, px, py);
        let (r2, c2) = choose|r2: int, c2: int|
            #[trigger] cell_covers(glyph(text[j]), x + text_width(j, scale), y, scale, r2, c2, px, py);
        assert(text_width(j, scale) == 6 * scale * j) by (nonlinear_arith);
        let k = 6 * i + col;
        let k2 = 6 * j + c2;
        assert(scale * k == 6 * scale * i + scale * col) by (nonlinear_arith)
            requires k == 6 * i + col;
        assert(scale * k2 == 6 * scale * j + c2 * scale) by (nonlinear_arith)
            requires k2 == 6 * j + c2;
        assert(r2 * scale == scale * r2) by (nonlinear_arith);
        assert(k == k2) by (nonlinear_arith)
            requires
                scale > 0,
                0 <= a < scale,
                scale * k2 <= scale * k + a < scale * k2 + scale,
        {
            if k < k2 {
                assert(scale * k + scale <= scale * k2) by (nonlinear_arith)
                    requires k < k2, scale > 0;
            } else if k > k2 {
                assert(scale * k2 + scale <= scale * k) by (nonlinear_arith)
                    requires k > k2, scale > 0;
            }
        }
        assert(row == r2) by (nonlinear_arith)
            requires
                scale > 0,
                0 <= b < scale,
                scale * r2 <= scale * row + b < scale * r2 + scale,
        {
            if row < r2 {
                assert(scale * row + scale <= scale * r2) by (nonlinear_arith)
                    requires row < r2, scale > 0;
            } else if row > r2 {
                assert(scale * r2 + scale <= scale * row) by (nonlinear_arith)
                    requires row > r2, scale > 0;
            }
        }
        assert(j == i && c2 == col);
    } else {
        if (glyph(text[i])[row] as int / pow2((4 - col) as nat) as int) % 2 == 1 {
            assert(col * scale == scale * col && row * scale == scale * row) by (nonlinear_arith);
            assert(cell_covers(glyph(text[i]), x + text_width(i, scale), y, scale, row, col, px, py));
            assert(char_covers(text, i, x, y, scale, px, py));
        }
    }
}

} // verus!
