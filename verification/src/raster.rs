//! The image rasterizer: size ceiling, decode, bounded downsampling, and
//! JPEG re-encoding.
//!
//! The size ceiling is checked before any decode attempt. Images whose
//! larger dimension exceeds the pixel bound are downsampled proportionally
//! so that the larger dimension becomes exactly the bound.

use vstd::prelude::*;
use vstd::arithmetic::div_mod::{lemma_fundamental_div_mod, lemma_mod_division_less_than_divisor};
use vstd::string::StringExecFns;
use crate::errors::MergeError;
use crate::image_api::{decode_image, resize_image, encode_jpeg, image_error_message,
    spec_image_decodes, spec_decoded_width, spec_decoded_height, spec_decoded_image, spec_resized,
    spec_jpeg_of};

verus! {

/// Size ceiling for image blobs: 50 MB.
pub const MAX_IMAGE_BYTES: usize = 52428800;

/// Largest pixel dimension kept when embedding; larger images are
/// downsampled.
pub const MAX_PIXEL_DIM: u32 = 1920;

/// A decoded, bounded, re-encoded image ready for embedding: JPEG bytes and
/// their pixel dimensions.
#[derive(Debug, Clone, PartialEq, Eq)]
pub struct RasterImage {
    pub jpeg: Vec<u8>,
    pub width: u32,
    pub height: u32,
}

/// The width after downsampling a w x h image so that its larger dimension
/// becomes the pixel bound (at least 1 to stay a drawable image).
pub open spec fn spec_target_width(w: int, h: int) -> int {
    if w >= h {
        MAX_PIXEL_DIM as int
    } else if (w * (MAX_PIXEL_DIM as int)) / h >= 1 {
        (w * (MAX_PIXEL_DIM as int)) / h
    } else {
        1
    }
}

/// The height after downsampling a w x h image so that its larger dimension
/// becomes the pixel bound.
pub open spec fn spec_target_height(w: int, h: int) -> int {
    if w >= h {
        if (h * (MAX_PIXEL_DIM as int)) / w >= 1 {
            (h * (MAX_PIXEL_DIM as int)) / w
        } else {
            1
        }
    } else {
        MAX_PIXEL_DIM as int
    }
}

/// Downsampling keeps the aspect ratio to within one rounding step: scaling
/// the kept dimension back up misses the exact value by less than one pixel
/// of the divisor dimension.
pub proof fn lemma_downsample_aspect(w: int, h: int)
    requires
        w > 0,
        h > 0,
    ensures
        1 <= spec_target_width(w, h) <= MAX_PIXEL_DIM as int,
        1 <= spec_target_height(w, h) <= MAX_PIXEL_DIM as int,
        w >= h && (MAX_PIXEL_DIM as int) * h >= w ==> 0 <= (MAX_PIXEL_DIM as int) * h - w
            * spec_target_height(w, h) < w,
        w < h && (MAX_PIXEL_DIM as int) * w >= h ==> 0 <= (MAX_PIXEL_DIM as int) * w - h
            * spec_target_width(w, h) < h,
{
    let m = MAX_PIXEL_DIM as int;
    if w >= h {
        let q = (h * m) / w;
        lemma_fundamental_div_mod(h * m, w);
        lemma_mod_division_less_than_divisor(h * m, w);
        assert(h * m == w * q + (h * m) % w);
        assert(q >= 0) by (nonlinear_arith)
            requires
                w > 0,
                h > 0,
                m > 0,
                h * m == w * q + (h * m) % w,
                0 <= (h * m) % w < w,
        {
        }
        assert(q <= m) by (nonlinear_arith)
            requires
                w >= h,
                w > 0,
                h > 0,
                m > 0,
                h * m == w * q + (h * m) % w,
                0 <= (h * m) % w,
        {
        }
        if m * h >= w {
            assert(q >= 1) by (nonlinear_arith)
                requires
                    w > 0,
                    m * h >= w,
                    h * m == w * q + (h * m) % w,
                    0 <= (h * m) % w < w,
            {
            }
        }
    } else {
        let q = (w * m) / h;
        lemma_fundamental_div_mod(w * m, h);
        lemma_mod_division_less_than_divisor(w * m, h);
        assert(w * m == h * q + (w * m) % h);
        assert(q >= 0) by (nonlinear_arith)
            requires
                w > 0,
                h > 0,
                m > 0,
                w * m == h * q + (w * m) % h,
                0 <= (w * m) % h < h,
        {
        }
        assert(q <= m) by (nonlinear_arith)
            requires
                w < h,
                w > 0,
                h > 0,
                m > 0,
                w * m == h * q + (w * m) % h,
                0 <= (w * m) % h,
        {
        }
        if m * w >= h {
            assert(q >= 1) by (nonlinear_arith)
                requires
                    h > 0,
                    m * w >= h,
                    w * m == h * q + (w * m) % h,
                    0 <= (w * m) % h < h,
            {
            }
        }
    }
}

/// Computes the bounded dimensions for an oversized image.
fn downsample_dims(w: u32, h: u32) -> (r: (u32, u32))
    requires
        w > 0,
        h > 0,
        w > MAX_PIXEL_DIM || h > MAX_PIXEL_DIM,
    ensures
        r.0 as int == spec_target_width(w as int, h as int),
        r.1 as int == spec_target_height(w as int, h as int),
        1 <= r.0 <= MAX_PIXEL_DIM,
        1 <= r.1 <= MAX_PIXEL_DIM,
{
    proof {
        lemma_downsample_aspect(w as int, h as int);
    }
    let w64 = w as u64;
    let h64 = h as u64;
    let m64 = MAX_PIXEL_DIM as u64;
    if w >= h {
        let q64 = (h64 * m64) / w64;
        let q: u32 = if q64 >= 1 {
            q64 as u32
        } else {
            1
        };
        (MAX_PIXEL_DIM, q)
    } else {
        let q64 = (w64 * m64) / h64;
        let q: u32 = if q64 >= 1 {
            q64 as u32
        } else {
            1
        };
        (q, MAX_PIXEL_DIM)
    }
}

/// Decodes an image blob, enforcing the size ceiling first, downsampling
/// oversized images, and re-encoding the pixels as JPEG.
///
/// Failures: a blob over the ceiling is rejected before any decode attempt;
/// an undecodable blob or one that decodes to an empty image reports the
/// decoder's diagnostic; a re-encoding failure reports the encoder's.
pub fn rasterize(data: &Vec<u8>) -> (r: Result<RasterImage, MergeError>)
    ensures
        data@.len() > MAX_IMAGE_BYTES ==> r == Err::<RasterImage, MergeError>(
            MergeError::SizeLimit(data@.len() as usize),
        ),
        data@.len() <= MAX_IMAGE_BYTES && !spec_image_decodes(data@) ==> (r matches Err(e)
            && e matches MergeError::Decode(_)),
        r matches Ok(img) ==> {
            &&& data@.len() <= MAX_IMAGE_BYTES
            &&& spec_image_decodes(data@)
            &&& spec_decoded_width(data@) >= 1
            &&& spec_decoded_height(data@) >= 1
            &&& 1 <= img.width <= MAX_PIXEL_DIM
            &&& 1 <= img.height <= MAX_PIXEL_DIM
            &&& if spec_decoded_width(data@) <= MAX_PIXEL_DIM && spec_decoded_height(data@)
                <= MAX_PIXEL_DIM {
                img.width == spec_decoded_width(data@) && img.height == spec_decoded_height(data@)
                    && img.jpeg@ == spec_jpeg_of(spec_decoded_image(data@))
            } else {
                img.width as int == spec_target_width(
                    spec_decoded_width(data@) as int,
                    spec_decoded_height(data@) as int,
                ) && img.height as int == spec_target_height(
                    spec_decoded_width(data@) as int,
                    spec_decoded_height(data@) as int,
                ) && img.jpeg@ == spec_jpeg_of(
                    spec_resized(spec_decoded_image(data@), img.width, img.height),
                )
            }
        },
        data@.len() <= MAX_IMAGE_BYTES && spec_image_decodes(data@) && spec_decoded_width(data@)
            >= 1 && spec_decoded_height(data@) >= 1 ==> r is Ok,
        r matches Err(e) ==> (e matches MergeError::SizeLimit(_)
            || e matches MergeError::Decode(_)),
        data@.len() <= MAX_IMAGE_BYTES && spec_image_decodes(data@) && (spec_decoded_width(data@)
            < 1 || spec_decoded_height(data@) < 1) ==> (r matches Err(e)
            && e matches MergeError::Decode(_)),
{
    if data.len() > MAX_IMAGE_BYTES {
        return Err(MergeError::SizeLimit(data.len()));
    }
    match decode_image(data.as_slice()) {
        Err(e) => Err(MergeError::Decode(image_error_message(&e))),
        Ok((img, w0, h0)) => {
            if w0 == 0 || h0 == 0 {
                return Err(MergeError::Decode(String::from_str("decoded image has no pixels")));
            }
            let (scaled, w, h): (image::DynamicImage, u32, u32) = if w0 > MAX_PIXEL_DIM || h0
                > MAX_PIXEL_DIM {
                let (tw, th) = downsample_dims(w0, h0);
                (resize_image(&img, tw, th), tw, th)
            } else {
                (img, w0, h0)
            };
            match encode_jpeg(&scaled) {
                Err(e) => Err(MergeError::Encode(image_error_message(&e))),
                Ok(jpeg) => Ok(RasterImage { jpeg, width: w, height: h }),
            }
        },
    }
}

} // verus!
