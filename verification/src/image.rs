//! The source image, as visioncortex holds it.

use crate::geometry::PointI32;
use vstd::prelude::*;
use visioncortex::BinaryImage;

verus! {

/// `visioncortex::BinaryImage`: an image with one bit for each pixel. What it
/// holds is known here only by the three names below.
#[verifier::external_type_specification]
#[verifier::external_body]
pub struct ExBinaryImage(BinaryImage);

/// The `width` field of the image.
pub uninterp spec fn image_width(image: BinaryImage) -> nat;

/// The `height` field of the image.
pub uninterp spec fn image_height(image: BinaryImage) -> nat;

/// The bits of the `pixels` field of the image, row after row.
pub uninterp spec fn image_pixels(image: BinaryImage) -> Seq<bool>;

/// The image holds one bit for each pixel, and its sides fit in `i32`.
pub open spec fn image_well_formed(image: BinaryImage) -> bool {
    &&& image_pixels(image).len() == image_width(image) * image_height(image)
    &&& image_width(image) <= i32::MAX
    &&& image_height(image) <= i32::MAX
}

/// The pixel in column `x` of row `y`; outside the image, background.
pub open spec fn image_pixel(image: BinaryImage, x: int, y: int) -> bool {
    &&& 0 <= x < image_width(image)
    &&& 0 <= y < image_height(image)
    &&& image_pixels(image)[y * image_width(image) + x]
}

/// Calls `BinaryImage::get_pixel_at_safe` of visioncortex, which compares the
/// coordinates with `width` and `height` narrowed to `i32`, reads bit
/// `y * width + x` of `pixels` where they lie inside, and returns `false`
/// where they do not.
#[verifier::external_body]
pub(crate) fn get_pixel_at_safe(image: &BinaryImage, p: PointI32) -> (pixel: bool)
    requires
        image_pixels(*image).len() == image_width(*image) * image_height(*image),
        image_width(*image) <= i32::MAX,
        image_height(*image) <= i32::MAX,
    ensures
        pixel == (0 <= p.x < image_width(*image) && 0 <= p.y < image_height(*image)
            && image_pixels(*image)[p.y * image_width(*image) + p.x]),
{
    image.get_pixel_at_safe(visioncortex::PointI32::new(p.x, p.y))
}

/// Reads the fields `width` and `height` of the image and calls `BitVec::len`
/// of bit-vec on its field `pixels`, which returns the number of bits.
#[verifier::external_body]
pub(crate) fn image_shape(image: &BinaryImage) -> (shape: (usize, usize, usize))
    ensures
        shape.0 == image_width(*image),
        shape.1 == image_height(*image),
        shape.2 == image_pixels(*image).len(),
{
    (image.width, image.height, image.pixels.len())
}

/// Whether the image holds one bit for each pixel and has sides that fit in
/// `i32`.
pub fn image_is_well_formed(image: &BinaryImage) -> (ok: bool)
    ensures
        ok == image_well_formed(*image),
{
    let (width, height, bits) = image_shape(image);
    if width > i32::MAX as usize || height > i32::MAX as usize {
        return false;
    }
    match width.checked_mul(height) {
        Some(pixels) => pixels == bits,
        None => false,
    }
}

} // verus!
