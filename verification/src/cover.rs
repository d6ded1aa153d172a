//! The pixels of a cover, from which the window's palette is drawn: the
//! image is decoded and scaled down to a small square before anything is
//! measured on it.
use vstd::prelude::*;

verus! {

/// Side of the square a cover is scaled to: the palette is a statistic, not
/// a detail, and a small image makes it far cheaper.
pub const COVER_SIDE: u32 = 48;

/// What the `image` crate makes of an encoded picture scaled to `w` by `h`
/// with its triangle filter: its RGB pixels row by row, or nothing when the
/// bytes are not a picture it reads.
pub uninterp spec fn scaled_rgb(bytes: Seq<u8>, w: u32, h: u32) -> Option<Seq<(u8, u8, u8)>>;

/// Decodes a picture and scales it to `w` by `h`.
///
/// Wraps `image::load_from_memory` (an error becomes `None`) and, on the image
/// decoded, `DynamicImage::resize_exact` with the triangle filter, read out as
/// RGB. Its result is named by `scaled_rgb`; the fact stated besides is the
/// documented one: the scaled image has exactly `w` by `h` pixels. The crate
/// documents that unreadable bytes give an error, not that its decoders never
/// panic on them; that is not shown here.
#[verifier::external_body]
fn decode_scaled(bytes: &[u8], w: u32, h: u32) -> (r: Option<Vec<(u8, u8, u8)>>)
    requires
        w > 0,
        h > 0,
    ensures
        match r {
            Some(v) => scaled_rgb(bytes@, w, h) == Some(v@),
            None => scaled_rgb(bytes@, w, h) is None,
        },
        r matches Some(v) ==> v@.len() == w * h,
{
    image::load_from_memory(bytes).ok().map(|img| {
        img.resize_exact(w, h, image::imageops::FilterType::Triangle)
            .to_rgb8()
            .pixels()
            .map(|p| (p[0], p[1], p[2]))
            .collect()
    })
}

/// The pixels of a cover scaled to [`COVER_SIDE`] by [`COVER_SIDE`], or
/// `None` when its bytes are not a picture.
pub fn cover_pixels(bytes: &[u8]) -> (r: Option<Vec<(u8, u8, u8)>>)
    ensures
        match r {
            Some(v) => scaled_rgb(bytes@, COVER_SIDE, COVER_SIDE) == Some(v@),
            None => scaled_rgb(bytes@, COVER_SIDE, COVER_SIDE) is None,
        },
        r matches Some(v) ==> v@.len() == COVER_SIDE * COVER_SIDE,
{
    decode_scaled(bytes, COVER_SIDE, COVER_SIDE)
}

} // verus!
