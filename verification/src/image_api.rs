//! Trusted boundary to the image codec crate.
//!
//! Decoding, resizing and JPEG re-encoding all depend on their arguments
//! alone, so their results are named here and everything downstream is
//! verified against those names. Nothing is assumed about pixel data.

use vstd::prelude::*;

verus! {

#[verifier::external_type_specification]
#[verifier::external_body]
pub struct ExDynamicImage(image::DynamicImage);

#[verifier::external_type_specification]
#[verifier::external_body]
pub struct ExImageError(image::ImageError);

/// Whether the codec accepts this byte blob as an image.
pub uninterp spec fn spec_image_decodes(data: Seq<u8>) -> bool;

/// The pixel width of the image decoded from this blob.
pub uninterp spec fn spec_decoded_width(data: Seq<u8>) -> u32;

/// The pixel height of the image decoded from this blob.
pub uninterp spec fn spec_decoded_height(data: Seq<u8>) -> u32;

/// The image value decoded from this blob.
pub uninterp spec fn spec_decoded_image(data: Seq<u8>) -> image::DynamicImage;

/// The pixel width of an image value.
pub uninterp spec fn spec_img_width(img: image::DynamicImage) -> u32;

/// The pixel height of an image value.
pub uninterp spec fn spec_img_height(img: image::DynamicImage) -> u32;

/// The image value produced by the Lanczos resampler for these exact
/// target dimensions.
pub uninterp spec fn spec_resized(img: image::DynamicImage, w: u32, h: u32) -> image::DynamicImage;

/// The RGB JPEG re-encoding of an image value.
pub uninterp spec fn spec_jpeg_of(img: image::DynamicImage) -> Seq<u8>;

/// Relies on image::load_from_memory together with DynamicImage::width and
/// DynamicImage::height: decoding depends on the bytes alone, so success,
/// the decoded image and its dimensions are functions of the input, named
/// above. The three calls are combined so the dimensions can be tied to
/// the bytes.
#[verifier::external_body]
pub(crate) fn decode_image(data: &[u8]) -> (r: Result<
    (image::DynamicImage, u32, u32),
    image::ImageError,
>)
    ensures
        r is Ok <==> spec_image_decodes(data@),
        r matches Ok(t) ==> t.0 == spec_decoded_image(data@) && t.1 == spec_decoded_width(data@)
            && t.2 == spec_decoded_height(data@) && spec_img_width(t.0) == t.1 && spec_img_height(
            t.0,
        ) == t.2,
{
    let img = image::load_from_memory(data)?;
    let w = img.width();
    let h = img.height();
    Ok((img, w, h))
}

/// Relies on DynamicImage::resize_exact with the Lanczos3 filter: it
/// returns a new image with exactly the requested dimensions, and the
/// resampling depends on its arguments alone.
#[verifier::external_body]
pub(crate) fn resize_image(img: &image::DynamicImage, w: u32, h: u32) -> (r: image::DynamicImage)
    requires
        w >= 1,
        h >= 1,
    ensures
        r == spec_resized(*img, w, h),
        spec_img_width(r) == w,
        spec_img_height(r) == h,
{
    img.resize_exact(w, h, image::imageops::FilterType::Lanczos3)
}

/// Relies on DynamicImage::to_rgb8 and ImageBuffer::write_to with the JPEG
/// format: re-encodes the pixels as an RGB JPEG byte stream, a function of
/// the image value alone. For an RGB image with both dimensions in
/// 1..=65535, written into an in-memory buffer with no ICC profile, the
/// encoder's only failure path is its size check, so success is owed.
#[verifier::external_body]
pub(crate) fn encode_jpeg(img: &image::DynamicImage) -> (r: Result<Vec<u8>, image::ImageError>)
    ensures
        r matches Ok(b) ==> b@ == spec_jpeg_of(*img),
        1 <= spec_img_width(*img) <= 65535 && 1 <= spec_img_height(*img) <= 65535 ==> r is Ok,
{
    let rgb = img.to_rgb8();
    let mut out: Vec<u8> = Vec::new();
    let mut cursor = std::io::Cursor::new(&mut out);
    rgb.write_to(&mut cursor, image::ImageFormat::Jpeg)?;
    Ok(out)
}

/// Relies on ImageError's Display implementation for the diagnostic text.
#[verifier::external_body]
pub(crate) fn image_error_message(e: &image::ImageError) -> (r: String) {
    e.to_string()
}

} // verus!
