//! The RGB image buffer of the `image` crate, as the library sees it.
//!
//! An image is modelled by three names: its width, its height and its
//! pixels, a map from `(x, y)` to the `(r, g, b)` channels stored there.

use image::{ImageBuffer, Rgb, RgbImage};
use vstd::prelude::*;

use crate::color::Color;

verus! {

/// An RGB image of the `image` crate. Verus does not accept a declaration
/// of `ImageBuffer` itself (its `Pixel` bound is refused), so the buffer is
/// held here; the names below describe it. The field is public because no
/// function of this library can hand an `ImageBuffer` out (its type cannot
/// stand in a verified signature); code outside the library that changes it
/// leaves the names behind.
#[verifier::external_body]
pub struct Raster {
    pub image: RgbImage,
}

/// What an RGB image holds: the channels of the pixel at each `(x, y)`.
pub uninterp spec fn image_pixels(img: Raster) -> Map<(u32, u32), (u8, u8, u8)>;

/// What `ImageBuffer::width` returns.
pub uninterp spec fn image_width(img: Raster) -> u32;

/// What `ImageBuffer::height` returns.
pub uninterp spec fn image_height(img: Raster) -> u32;

/// The coordinates of a `width` x `height` image.
pub open spec fn pixel_grid(width: u32, height: u32) -> Set<(u32, u32)> {
    Set::new(|p: (u32, u32)| p.0 < width && p.1 < height)
}

/// An image whose pixels lie exactly on its `width` x `height` grid.
pub open spec fn image_well_formed(img: Raster) -> bool {
    image_pixels(img).dom() == pixel_grid(image_width(img), image_height(img))
}

/// `ImageBuffer::from_pixel`: a new `width` x `height` image with every
/// pixel set to `color`. The image crate computes `3 * width * height`
/// with checked arithmetic and allocates that many bytes; the contract
/// asks for a size that a `Vec` can hold. A failing allocation, which
/// aborts the process, is not described.
#[verifier::external_body]
pub(crate) fn new_filled_image(width: u32, height: u32, color: Color) -> (img: Raster)
    requires
        3 * width * height <= isize::MAX,
    ensures
        image_width(img) == width,
        image_height(img) == height,
        image_pixels(img) == Map::new(
            |p: (u32, u32)| p.0 < width && p.1 < height,
            |p: (u32, u32)| color.channels(),
        ),
{
    Raster { image: ImageBuffer::from_pixel(width, height, Rgb([color.r, color.g, color.b])) }
}

/// `ImageBuffer::put_pixel`: overwrites the pixel at `(x, y)` with
/// `color`; it panics outside the image, which `requires` rules out.
#[verifier::external_body]
pub(crate) fn set_image_pixel(img: &mut Raster, x: u32, y: u32, color: Color)
    requires
        x < image_width(*old(img)),
        y < image_height(*old(img)),
    ensures
        image_width(*final(img)) == image_width(*old(img)),
        image_height(*final(img)) == image_height(*old(img)),
        image_pixels(*final(img)) == image_pixels(*old(img)).insert((x, y), color.channels()),
{
    img.image.put_pixel(x, y, Rgb([color.r, color.g, color.b]))
}

/// `ImageBuffer::width`.
#[verifier::external_body]
pub(crate) fn width_of(img: &Raster) -> (w: u32)
    ensures
        w == image_width(*img),
{
    img.image.width()
}

/// `ImageBuffer::height`.
#[verifier::external_body]
pub(crate) fn height_of(img: &Raster) -> (h: u32)
    ensures
        h == image_height(*img),
{
    img.image.height()
}

} // verus!
