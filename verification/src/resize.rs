//! The single trusted boundary to the `image` crate: nearest-neighbor
//! resizing of a square RGBA buffer.

use vstd::prelude::*;

verus! {

use crate::pixel::{PixelBuffer, MAX_SIDE};

/// The flat RGBA bytes produced by the `image` crate's nearest-neighbor
/// resize of a square image of side `side` (given as its flat bytes) to a
/// square image of side `new_side`.  The result is a pure function of the
/// input bytes and the two dimensions.
pub uninterp spec fn resize_of(data: Seq<u8>, side: int, new_side: int) -> Seq<u8>;

/// Relies on `image::DynamicImage::resize_to_fill` with
/// `FilterType::Nearest`: for a square source and a square target it returns
/// a `new_side` by `new_side` RGBA image (hence `new_side * new_side * 4`
/// raw bytes), computed from the input pixels and the dimensions alone.
/// `RgbaImage::from_raw` returns `Some` whenever the buffer holds at least
/// `side * side * 4` bytes, which `buf@.wf()` guarantees exactly.
#[verifier::external_body]
pub(crate) fn resize_nearest(buf: &PixelBuffer, new_side: u32) -> (r: PixelBuffer)
    requires
        buf@.wf(),
        1 <= new_side <= MAX_SIDE,
    ensures
        r@.side == new_side,
        r@.data.len() == new_side * new_side * 4,
        r@.data == resize_of(buf@.data, buf@.side, new_side as int),
{
    let img = image::RgbaImage::from_raw(buf.side, buf.side, buf.data.clone())
        .expect("buffer length matches its dimensions");
    let resized = image::DynamicImage::ImageRgba8(img)
        .resize_to_fill(new_side, new_side, image::imageops::FilterType::Nearest);
    PixelBuffer { side: new_side, data: resized.into_rgba8().into_raw() }
}

} // verus!
