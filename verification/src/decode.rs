//! What the terrain takes on trust from the `image` crate.
use vstd::prelude::*;

verus! {

/// `image::DynamicImage`, an image of any of the crate's pixel formats.
#[verifier::external_type_specification]
#[verifier::external_body]
pub struct ExDynamicImage(image::DynamicImage);

/// `image::ImageError`, why an image could not be read.
#[verifier::external_type_specification]
#[verifier::external_body]
pub struct ExImageError(image::ImageError);

/// Width and height of an image, in pixels.
pub uninterp spec fn image_size(image: image::DynamicImage) -> (nat, nat);

/// The first channel of every pixel of an image as 8 bits, row by row.
pub uninterp spec fn image_samples(image: image::DynamicImage) -> Seq<u8>;

/// The samples of the image that `DynamicImage::grayscale` makes of an
/// image.
pub uninterp spec fn gray_samples(image: image::DynamicImage) -> Seq<u8>;

/// `image::load_from_memory` guesses the format of the bytes and decodes
/// them. Nothing is taken on trust of what it returns: decoders can be
/// registered with the crate while a program runs, so the bytes alone do
/// not decide it.
pub assume_specification[ image::load_from_memory ](buffer: &[u8]) -> (loaded: Result<
    image::DynamicImage,
    image::ImageError,
>)
;

/// `DynamicImage::grayscale` copies or converts the image pixel by pixel.
/// Taken on trust: the result is as wide and as high as the image, and the
/// image alone decides its samples.
pub assume_specification[ image::DynamicImage::grayscale ](image: &image::DynamicImage) -> (gray:
    image::DynamicImage)
    ensures
        image_size(gray) == image_size(*image),
        image_samples(gray) == gray_samples(*image),
;

/// `DynamicImage::width`. Taken on trust: it is the first part of the size.
pub assume_specification[ image::DynamicImage::width ](image: &image::DynamicImage) -> (width: u32)
    ensures
        width == image_size(*image).0,
;

/// `DynamicImage::height`. Taken on trust: it is the second part of the size.
pub assume_specification[ image::DynamicImage::height ](image: &image::DynamicImage) -> (height:
    u32)
    ensures
        height == image_size(*image).1,
;

/// `GenericImageView::get_pixel` of a `DynamicImage` hands out the pixel at
/// `(x, y)` as 8-bit RGBA and panics outside the image. Taken on trust: its
/// first channel is the sample that stands at `y * width + x`.
#[verifier::external_body]
pub(crate) fn first_channel(image: &image::DynamicImage, x: u32, y: u32) -> (sample: u8)
    requires
        x < image_size(*image).0,
        y < image_size(*image).1,
    ensures
        sample == image_samples(*image)[y * image_size(*image).0 + x],
{
    image::GenericImageView::get_pixel(image, x, y).0[0]
}

} // verus!
