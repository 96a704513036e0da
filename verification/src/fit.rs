//! Run-time tests of the coordinate bounds that the drawing functions
//! require, for callers that compute coordinates at run time.
use vstd::prelude::*;
use crate::canvas::coord_ok;
use crate::font::{centred_left, text_fits, text_width, FONT_H, FONT_W};
use crate::panel::{bracket_fits, glow_fits, panel_fits, right_col};

verus! {

/// Whether `v` is a coordinate that the line and circle primitives accept.
pub fn coord_in_range(v: i64) -> (b: bool)
    ensures
        b == coord_ok(v as int),
{
    -0x2000_0000 < v && v < 0x2000_0000
}

/// Whether a line from `(x0, y0)` to `(x1, y1)` with a glow of radius
/// `glow_r` may be drawn (`draw::glow_line`).
pub fn line_glow_fits(x0: i32, y0: i32, x1: i32, y1: i32, glow_r: i32) -> (b: bool)
    ensures
        b == crate::draw::glow_fits(x0 as int, y0 as int, x1 as int, y1 as int, glow_r as int),
{
    let m: i64 = if glow_r > 0 {
        glow_r as i64
    } else {
        0
    };
    let (a0, b0, a1, b1) = (x0 as i64, y0 as i64, x1 as i64, y1 as i64);
    coord_in_range(a0 - m) && coord_in_range(a0 + m) && coord_in_range(b0 - m) && coord_in_range(
        b0 + m,
    ) && coord_in_range(a1 - m) && coord_in_range(a1 + m) && coord_in_range(b1 - m)
        && coord_in_range(b1 + m)
}

/// Whether `len` characters fit at `(x, y)` at the given scale (`draw_text`).
pub fn text_fits_at(len: u64, x: u32, y: u32, scale: u32) -> (b: bool)
    ensures
        b == text_fits(len as int, x as int, y as int, scale as int),
{
    assert(FONT_W == 5 && FONT_H == 9);
    let cell = 6 * scale as u128;
    if cell > u32::MAX as u128 {
        return false;
    }
    if scale == 0 || len == 0 {
        return true;
    }
    proof {
        assert(len as int * cell as int <= 0xffff_ffff_ffff_ffff * 0xffff_ffff) by (nonlinear_arith)
            requires
                len <= 0xffff_ffff_ffff_ffff,
                cell <= 0xffff_ffff,
        ;
        assert(text_width(len as int, scale as int) == len as int * cell as int) by (nonlinear_arith)
            requires
                cell == (FONT_W + 1) * scale,
        ;
    }
    let width = len as u128 * cell;
    x as u128 + width <= u32::MAX as u128 + 1 && y as u128 + 9 * scale as u128
        <= u32::MAX as u128 + 1
}

/// Whether the width of `len` characters at the given scale can be
/// computed (`font::tw`).
pub fn width_fits(len: u64, scale: u32) -> (b: bool)
    ensures
        b == (len * (FONT_W + 1) <= u32::MAX && len * (FONT_W + 1) * scale <= u32::MAX),
{
    assert(FONT_W == 5);
    if len > 0x2aaa_aaaa {
        return false;
    }
    let per_char = len * 6;
    proof {
        assert(per_char as int * scale as int <= 0xffff_ffff * 0xffff_ffff) by (nonlinear_arith)
            requires
                per_char <= 0xffff_ffff,
                scale <= 0xffff_ffff,
        ;
        assert(len * (FONT_W + 1) * scale == per_char as int * scale as int) by (nonlinear_arith)
            requires
                per_char == len * (FONT_W + 1),
        ;
    }
    (per_char as u128) * (scale as u128) <= u32::MAX as u128
}

/// Whether `len` characters may be drawn centred on `cx` (`draw_text_c`).
pub fn centred_text_fits(len: u64, cx: u32, y: u32, scale: u32) -> (b: bool)
    ensures
        b == (len * (FONT_W + 1) * scale <= u32::MAX && len * (FONT_W + 1) <= u32::MAX && text_fits(
            len as int,
            centred_left(len as int, cx as int, scale as int),
            y as int,
            scale as int,
        )),
{
    if len > 0x2aaa_aaaa {
        proof {
            assert(len * (FONT_W + 1) > u32::MAX);
        }
        return false;
    }
    assert(FONT_W == 5);
    let per_char = len as u128 * 6;
    proof {
        assert(per_char as int * scale as int <= 0xffff_ffff * 0xffff_ffff) by (nonlinear_arith)
            requires
                per_char <= 0xffff_ffff,
                scale <= 0xffff_ffff,
        ;
        assert(len * (FONT_W + 1) * scale == per_char as int * scale as int) by (nonlinear_arith)
            requires
                per_char == len * (FONT_W + 1),
        ;
    }
    let width = per_char * scale as u128;
    if width > u32::MAX as u128 {
        return false;
    }
    proof {
        assert(text_width(len as int, scale as int) == width);
    }
    let half = (width / 2) as u32;
    let left = if cx >= half {
        cx - half
    } else {
        0
    };
    text_fits_at(len, left, y, scale)
}

/// Whether a corner bracket of a `w` × `h` box at `(x, y)` with arms of
/// `len` pixels may be drawn (`panel::corner_bracket`).
pub fn bracket_fits_at(x: u32, y: u32, w: u32, h: u32, len: u32) -> (b: bool)
    ensures
        b == bracket_fits(x as int, y as int, w as int, h as int, len as int),
{
    let r: u64 = x as u64 + if w > 0 {
        w as u64 - 1
    } else {
        0
    };
    let bt: u64 = y as u64 + if h > 0 {
        h as u64 - 1
    } else {
        0
    };
    assert(r == right_col(x as int, w as int));
    assert(bt == right_col(y as int, h as int));
    let max = u32::MAX as u64;
    let base = r <= max && bt <= max && (x as u64) + 1 <= max && (y as u64) + 1 <= max && r >= 1
        && bt >= 1;
    if !base {
        return false;
    }
    if len == 0 {
        return true;
    }
    let l = len as u64;
    x as u64 + l - 1 <= max && y as u64 + l - 1 <= max && r >= l - 1 && bt >= l - 1
}

/// Whether the glow around a corner bracket may be drawn
/// (`panel::bracket_glow`).
pub fn bracket_glow_fits(x: u32, y: u32, w: u32, h: u32, len: u32) -> (b: bool)
    ensures
        b == glow_fits(x as int, y as int, w as int, h as int, len as int),
{
    if x < 2 || y < 2 {
        return true;
    }
    if w as u64 + 4 > u32::MAX as u64 || h as u64 + 4 > u32::MAX as u64 {
        return false;
    }
    bracket_fits_at(x - 2, y - 2, w + 4, h + 4, len) && bracket_fits_at(
        x - 1,
        y - 1,
        w + 2,
        h + 2,
        len,
    )
}

/// Whether a panel of `w` × `h` at `(x, y)` with a label of `label_len`
/// characters may be drawn (`panel::draw_panel`).
pub fn panel_fits_at(x: u32, y: u32, w: u32, h: u32, label_len: u64) -> (b: bool)
    ensures
        b == panel_fits(x as int, y as int, w as int, h as int, label_len as int),
{
    let max = u32::MAX as u64;
    if x as u64 + w as u64 > max || y as u64 + h as u64 + 3 > max {
        return false;
    }
    if !bracket_glow_fits(x, y, w, h, 24) || !bracket_fits_at(x, y, w, h, 24) {
        return false;
    }
    label_len == 0 || text_fits_at(label_len, x + 6, y + 6, 1)
}

/// Whether a `w` × `h` rectangle at `(x, y)` may be filled
/// (`canvas::fill_rect`).
pub fn rect_fits(x: u32, y: u32, w: u32, h: u32) -> (b: bool)
    ensures
        b == (w > 0 && h > 0 ==> x + w - 1 <= u32::MAX && y + h - 1 <= u32::MAX),
{
    w == 0 || h == 0 || (x as u64 + w as u64 - 1 <= u32::MAX as u64 && y as u64 + h as u64 - 1
        <= u32::MAX as u64)
}

/// Whether latitude and longitude texts of the given lengths fit on the GPS
/// tag of an image `width` pixels wide (`gps_tag::draw_gps_tag`).
pub fn gps_tag_fits_at(width: u32, lat_len: u64, lon_len: u64) -> (b: bool)
    ensures
        b == crate::gps_tag::gps_tag_fits(width as int, lat_len as int, lon_len as int),
{
    width >= 336 && text_fits_at(lat_len, width - 336 + 38, 35, 2) && text_fits_at(
        lon_len,
        width - 336 + 38,
        60,
        2,
    )
}

/// Whether the compass read-outs may be drawn on `bar` with heading, speed
/// and time texts of the given lengths (`compass::draw_compass_readouts`).
pub fn readouts_fit_at(bar: crate::widgets::Rect, hdg_len: u64, spd_len: u64, ts_len: u64) -> (b: bool)
    ensures
        b == crate::compass::readouts_fit(bar, hdg_len as int, spd_len as int, ts_len as int),
{
    let max = u32::MAX as u64;
    if bar.h < 20 || bar.x as u64 + bar.w as u64 > max || bar.y as u64 + bar.h as u64 > max {
        return false;
    }
    if hdg_len > 0xe38_e38e {
        return false;
    }
    let hw = hdg_len * 18 + 14;
    proof {
        assert(crate::compass::badge_width(hdg_len as int) == hw);
    }
    if hdg_len * 18 > max || hw > max {
        return false;
    }
    let tri_x = bar.x as u64 + bar.w as u64 / 2;
    let hx: u64 = if tri_x >= hw / 2 {
        tri_x - hw / 2
    } else {
        0
    };
    if hx + hw - 1 > max || bar.y as u64 + 39 > max {
        return false;
    }
    let mid64 = bar.y as u64 + bar.h as u64 / 2;
    if bar.x as u64 + 36 > max + 1 || mid64 + 15 > max + 1 {
        proof {
            assert(!text_fits(4, bar.x + 12, mid64 + 6, 1));
        }
        return false;
    }
    let mid = mid64 as u32;
    let head = bracket_fits_at(hx as u32, bar.y + 5, hw as u32, 35, 6) && centred_text_fits(
        hdg_len,
        tri_x as u32,
        bar.y + 9,
        3,
    ) && text_fits_at(spd_len, bar.x + 12, mid - 10, 2) && text_fits_at(4, bar.x + 12, mid + 6, 1);
    if !head {
        return false;
    }
    if ts_len == 0 {
        return true;
    }
    if ts_len > 0x2aaa_aaaa {
        return false;
    }
    let tsw = ts_len * 6;
    tsw + 12 <= bar.x as u64 + bar.w as u64 && text_fits_at(
        ts_len,
        (bar.x as u64 + bar.w as u64 - tsw - 12) as u32,
        mid - 4,
        1,
    )
}

/// Whether a gauge bar whose first `fill` pixels are filled may be drawn
/// (`gauges::bar_fits`).
pub fn bar_fits_at(bar: crate::widgets::Rect, fill: u32) -> (b: bool)
    ensures
        b == crate::gauges::bar_fits(bar, fill as int),
{
    let max = u32::MAX as u64;
    let (x, y, w, h) = (bar.x as u64, bar.y as u64, bar.w as u64, bar.h as u64);
    if w > 0 && h > 0 && (x + w - 1 > max || y + h - 1 > max) {
        return false;
    }
    if fill > 0 && h > 0 && (x + fill as u64 - 1 > max || y + h - 1 > max) {
        return false;
    }
    if w + 6 > max {
        return false;
    }
    bracket_fits_at(bar.x.saturating_sub(3), bar.y.saturating_sub(3), bar.w + 6, 14, 5)
}

/// Whether the speedometer's digital read-out of a `len`-character text may
/// be drawn for a dial centred at `(cx, cy)` (`gauges::readout_fits`).
pub fn readout_fits_at(cx: i32, cy: i32, radius: i32, len: u64) -> (b: bool)
    ensures
        b == crate::gauges::readout_fits(cx as int, cy as int, radius as int, len as int),
{
    let third = radius / 3;
    assert(third == crate::calendar::trunc_div(radius as int, 3));
    let row = cy as i64 + third as i64;
    if row < i32::MIN as i64 || row + 10 > i32::MAX as i64 {
        return false;
    }
    if len > 0x0888_8888 {
        proof {
            assert(len * 30 > u32::MAX);
        }
        return false;
    }
    let w = len * 30;
    proof {
        assert(text_width(len as int, 5) == w);
    }
    let cxu = cx as u32;
    if (cxu as u64) < w / 2 {
        return false;
    }
    let nx = cxu as u64 - w / 2;
    let ny = (row + 10) as i32 as u32;
    if nx + 2 > u32::MAX as u64 || ny as u64 + 51 > u32::MAX as u64 {
        return false;
    }
    let nx = nx as u32;
    text_fits_at(len, nx + 2, ny + 2, 5) && text_fits_at(
        len,
        nx.saturating_sub(1),
        ny.saturating_sub(1),
        5,
    ) && text_fits_at(len, nx + 1, ny + 1, 5) && text_fits_at(len, nx, ny, 5) && centred_text_fits(
        4,
        cxu,
        ny + 51,
        2,
    )
}

} // verus!
