//! Reading a fetched response: whether its declared type is an image, and
//! the pixels its bytes decode to.

use vstd::prelude::*;
use vstd::string::StringSliceAdditionalSpecFns;
use crate::image::{ColorImage, ImageModel, Rgb};

verus! {

/// What the `image` crate decodes `bytes` to: width, height and the RGB
/// samples row by row (an alpha channel is dropped), or nothing when the
/// bytes are no image it reads.
pub uninterp spec fn decoded(bytes: Seq<u8>) -> Option<(u32, u32, Seq<u8>)>;

/// Relies on image::load_from_memory (format guessed from the bytes, then
/// decoded), with DynamicImage::to_rgb8 and ImageBuffer::into_raw giving
/// the pixels as RGB bytes: the outcome depends on the bytes alone (the
/// PNG decoder is plain integer code, and jpeg-decoder is built with its
/// `platform_independent` feature, which turns off the SIMD paths whose
/// results differ by machine).
#[verifier::external_body]
fn decode_rgb(bytes: &[u8]) -> (r: Option<(u32, u32, Vec<u8>)>)
    ensures
        match r {
            Some((w, h, raw)) => decoded(bytes@) == Some((w, h, raw@)),
            None => decoded(bytes@) is None,
        },
{
    match ::image::load_from_memory(bytes) {
        Ok(img) => {
            let rgb = img.to_rgb8();
            Some((rgb.width(), rgb.height(), rgb.into_raw()))
        },
        Err(_) => None,
    }
}

/// The image whose pixels are the RGB byte triples of `raw`.
pub open spec fn image_from_rgb(w: u32, h: u32, raw: Seq<u8>) -> ImageModel {
    ImageModel {
        width: w as int,
        height: h as int,
        pixels: Seq::new(
            (w * h) as nat,
            |k: int| Rgb { r: raw[3 * k], g: raw[3 * k + 1], b: raw[3 * k + 2] },
        ),
    }
}

/// Decode compressed image bytes into an image, or nothing when they are
/// not an image the codec reads. Images here are RGB: transparency in the
/// source is dropped, not blended.
pub fn load_image_bytes(bytes: &[u8]) -> (r: Option<ColorImage>)
    ensures
        match decoded(bytes@) {
            Some((w, h, raw)) => if raw.len() == 3 * w * h {
                r is Some && r->Some_0@ == image_from_rgb(w, h, raw) && r->Some_0.wf()
            } else {
                r is None
            },
            None => r is None,
        },
{
    match decode_rgb(bytes) {
        None => None,
        Some((w, h, raw)) => {
            assert(3 * (w as int) * (h as int) == 3 * ((w as int) * (h as int))) by (nonlinear_arith);
            let len = raw.len();
            let wu = w as usize;
            let hu = h as usize;
            let n = match wu.checked_mul(hu) {
                Some(n) => n,
                None => return None,
            };
            if n > len / 3 || len != 3 * n {
                return None;
            }
            let ghost target = image_from_rgb(w, h, raw@);
            let mut pixels: Vec<Rgb> = Vec::new();
            for k in 0..n
                invariant
                    len == raw@.len(),
                    len == 3 * n,
                    n == (w as int) * (h as int),
                    target == image_from_rgb(w, h, raw@),
                    pixels@ =~= target.pixels.take(k as int),
            {
                let p = Rgb { r: raw[3 * k], g: raw[3 * k + 1], b: raw[3 * k + 2] };
                pixels.push(p);
                assert(pixels@ =~= target.pixels.take(k + 1));
            }
            assert(target.pixels.take(n as int) =~= target.pixels);
            Some(ColorImage { size: (wu, hu), pixels })
        },
    }
}

/// Whether `bytes` starts with the ASCII text `image/`.
pub open spec fn has_image_prefix(bytes: Seq<u8>) -> bool {
    bytes.len() >= 6 && bytes[0] == 105 && bytes[1] == 109 && bytes[2] == 97 && bytes[3] == 103
        && bytes[4] == 101 && bytes[5] == 47
}

/// Whether a declared content type names an image: it begins with
/// `image/`.
pub fn is_image_content_type(content_type: &str) -> (r: bool)
    ensures
        r == has_image_prefix(content_type.spec_bytes()),
{
    let b = content_type.as_bytes();
    b.len() >= 6 && b[0] == 105 && b[1] == 109 && b[2] == 97 && b[3] == 103 && b[4] == 101 && b[5]
        == 47
}

} // verus!
