//! The GPS tag: a labelled panel at the top right of the HUD showing the
//! latitude and longitude (formatted by the caller).
use vstd::prelude::*;
use crate::canvas::{Canvas, image_size, image_pixels, in_bounds};
use crate::font::{draw_text, law_text_stays_in_its_box, text_covers, text_fits};
use crate::panel::{draw_panel, neon_cyan_dim, neon_cyan_dim_rgba, panel_value, white, white_rgba};
use crate::widgets::gps_tag_place;

verus! {

/// A pixel of the GPS tag whose panel has its corner at `(tx, ty)`, given
/// its colour `v` before: the panel labelled `GPS`, then the dim `LAT` and
/// `LON` captions and the white values beside them.
pub open spec fn gps_tag_value(
    v: (u8, u8, u8, u8),
    tx: int,
    ty: int,
    lat: Seq<char>,
    lon: Seq<char>,
    px: int,
    py: int,
) -> (u8, u8, u8, u8) {
    let v1 = panel_value(v, tx, ty, 310, 72, "GPS"@, px, py);
    let v2 = if text_covers("LAT"@, tx + 8, ty + 13, 1, px, py) {
        neon_cyan_dim_rgba()
    } else {
        v1
    };
    let v3 = if text_covers(lat, tx + 38, ty + 11, 2, px, py) {
        white_rgba()
    } else {
        v2
    };
    let v4 = if text_covers("LON"@, tx + 8, ty + 38, 1, px, py) {
        neon_cyan_dim_rgba()
    } else {
        v3
    };
    if text_covers(lon, tx + 38, ty + 36, 2, px, py) {
        white_rgba()
    } else {
        v4
    }
}

/// Whether latitude and longitude texts of the given lengths fit on the tag
/// of an image `width` pixels wide.
pub open spec fn gps_tag_fits(width: int, lat_len: int, lon_len: int) -> bool {
    &&& width >= 336
    &&& text_fits(lat_len, width - 336 + 38, 35, 2)
    &&& text_fits(lon_len, width - 336 + 38, 60, 2)
}

/// Draws the 310 × 72 GPS tag 26 pixels in from the right edge and 24 from
/// the top, with `lat_text` and `lon_text` as its values.
pub fn draw_gps_tag(img: &mut Canvas, lat_text: &str, lon_text: &str)
    requires
        gps_tag_fits(image_size(*old(img)).0 as int, lat_text@.len() as int, lon_text@.len() as int),
    ensures
        image_size(*final(img)) == image_size(*old(img)),
        forall|px: u32, py: u32|
            in_bounds(image_size(*old(img)), px as int, py as int) ==> #[trigger] image_pixels(
                *final(img),
            )[(px, py)] == gps_tag_value(
                image_pixels(*old(img))[(px, py)],
                image_size(*old(img)).0 - 336,
                24,
                lat_text@,
                lon_text@,
                px as int,
                py as int,
            ),
{
    let ghost size = image_size(*img);
    let ghost p0 = image_pixels(*img);
    let (wi, _) = img.dimensions();
    let (tx, ty) = gps_tag_place(wi);
    proof {
        reveal_strlit("GPS");
        reveal_strlit("LAT");
        reveal_strlit("LON");
    }
    draw_panel(img, tx, ty, 310, 72, "GPS");
    let ghost p1 = image_pixels(*img);
    draw_text(img, "LAT", tx + 8, ty + 13, 1, neon_cyan_dim());
    let ghost p2 = image_pixels(*img);
    draw_text(img, lat_text, tx + 38, ty + 11, 2, white());
    let ghost p3 = image_pixels(*img);
    draw_text(img, "LON", tx + 8, ty + 38, 1, neon_cyan_dim());
    let ghost p4 = image_pixels(*img);
    draw_text(img, lon_text, tx + 38, ty + 36, 2, white());
    proof {
        assert forall|px: u32, py: u32| in_bounds(size, px as int, py as int) implies #[trigger] image_pixels(
            *img,
        )[(px, py)] == gps_tag_value(
            p0[(px, py)],
            tx as int,
            24,
            lat_text@,
            lon_text@,
            px as int,
            py as int,
        ) by {
            assert(p1[(px, py)] == panel_value(
                p0[(px, py)],
                tx as int,
                24,
                310,
                72,
                "GPS"@,
                px as int,
                py as int,
            ));
            assert(p2[(px, py)] == if text_covers("LAT"@, tx + 8, 37, 1, px as int, py as int) {
                neon_cyan_dim_rgba()
            } else {
                p1[(px, py)]
            });
            assert(p3[(px, py)] == if text_covers(lat_text@, tx + 38, 35, 2, px as int, py as int) {
                white_rgba()
            } else {
                p2[(px, py)]
            });
            assert(p4[(px, py)] == if text_covers("LON"@, tx + 8, 62, 1, px as int, py as int) {
                neon_cyan_dim_rgba()
            } else {
                p3[(px, py)]
            });
        }
    }
}

/// On the tag whose corner is at `(tx, ty)`, the latitude is the text on the
/// row beside the `LAT` caption and the longitude the text beside `LON`:
/// every pixel that the latitude covers at `(tx + 38, ty + 11)` (scale 2) is
/// white, and so is every pixel that the longitude covers at
/// `(tx + 38, ty + 36)`, whatever the other text; the captions are dim cyan.
pub proof fn law_values_beside_their_captions(
    v: (u8, u8, u8, u8),
    tx: int,
    ty: int,
    lat: Seq<char>,
    lon: Seq<char>,
    px: int,
    py: int,
)
    ensures
        text_covers(lat, tx + 38, ty + 11, 2, px, py) ==> gps_tag_value(v, tx, ty, lat, lon, px, py)
            == white_rgba(),
        text_covers(lon, tx + 38, ty + 36, 2, px, py) ==> gps_tag_value(v, tx, ty, lat, lon, px, py)
            == white_rgba(),
        text_covers("LAT"@, tx + 8, ty + 13, 1, px, py) ==> gps_tag_value(
            v,
            tx,
            ty,
            lat,
            lon,
            px,
            py,
        ) == neon_cyan_dim_rgba(),
        text_covers("LON"@, tx + 8, ty + 38, 1, px, py) ==> gps_tag_value(
            v,
            tx,
            ty,
            lat,
            lon,
            px,
            py,
        ) == neon_cyan_dim_rgba(),
{
    reveal_strlit("LAT");
    reveal_strlit("LON");
    if text_covers(lat, tx + 38, ty + 11, 2, px, py) {
        law_text_stays_in_its_box(lat, tx + 38, ty + 11, 2, px, py);
        if text_covers("LON"@, tx + 8, ty + 38, 1, px, py) {
            law_text_stays_in_its_box("LON"@, tx + 8, ty + 38, 1, px, py);
        }
        if text_covers(lon, tx + 38, ty + 36, 2, px, py) {
            law_text_stays_in_its_box(lon, tx + 38, ty + 36, 2, px, py);
        }
    }
    if text_covers("LAT"@, tx + 8, ty + 13, 1, px, py) {
        law_text_stays_in_its_box("LAT"@, tx + 8, ty + 13, 1, px, py);
        if text_covers(lat, tx + 38, ty + 11, 2, px, py) {
            law_text_stays_in_its_box(lat, tx + 38, ty + 11, 2, px, py);
        }
        if text_covers("LON"@, tx + 8, ty + 38, 1, px, py) {
            law_text_stays_in_its_box("LON"@, tx + 8, ty + 38, 1, px, py);
        }
        if text_covers(lon, tx + 38, ty + 36, 2, px, py) {
            law_text_stays_in_its_box(lon, tx + 38, ty + 36, 2, px, py);
        }
    }
    if text_covers("LON"@, tx + 8, ty + 38, 1, px, py) {
        law_text_stays_in_its_box("LON"@, tx + 8, ty + 38, 1, px, py);
        if text_covers(lon, tx + 38, ty + 36, 2, px, py) {
            law_text_stays_in_its_box(lon, tx + 38, ty + 36, 2, px, py);
        }
    }
}

} // verus!
