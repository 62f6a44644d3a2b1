//! A fixed two-step pipeline outside the graph: the gray slice of an input
//! image, then its centered spectrum shown as a gray image.

use vstd::prelude::*;
use crate::eval::{gray_fits, Kernels};
use crate::image::{expand_spec, ColorImage, ImageSlice, SliceColor, SliceModel};
use crate::transform::{gray_spec, image_to_gray};

verus! {

/// The image the pipeline reads and, once processed, the image it made.
#[derive(Debug)]
pub struct PipelineState {
    pub input_image: Option<ColorImage>,
    pub output_image: Option<ColorImage>,
}

/// The gray slice of the input image, when there is an input that the gray
/// conversion can take.
pub fn compute_gray(state: &PipelineState) -> (r: Option<ImageSlice>)
    ensures
        match state.input_image {
            Some(i) => if i.wf() && gray_fits(i@) {
                r is Some && r->Some_0@ == gray_spec(i@)
            } else {
                r is None
            },
            None => r is None,
        },
{
    match &state.input_image {
        Some(image) => {
            if image.is_well_formed() && image.size.0 <= 0xffff_ffff && image.size.1 <= 0xffff_ffff
                && image.pixels.len() <= usize::MAX / 3 {
                Some(image_to_gray(image))
            } else {
                None
            }
        },
        None => None,
    }
}

/// When an input is waiting and no output is made yet, make it: the gray
/// slice of the input goes through the spectrum kernel and the result is
/// shown as a gray image of the input's size. A kernel result of another
/// size is dropped and no output is made. Otherwise nothing changes.
pub fn process_image<K: Kernels>(state: &mut PipelineState, kernels: &mut K)
    ensures
        final(state).input_image == old(state).input_image,
        old(state).output_image is Some ==> final(state).output_image == old(state).output_image,
        old(state).output_image is None ==> match old(state).input_image {
            Some(i) => if i.wf() && gray_fits(i@) {
                match final(state).output_image {
                    Some(o) => o.wf() && o.size == i.size && exists|s: Seq<u8>|
                        s.len() == i.pixels@.len() && o@ == expand_spec(
                            SliceModel { color: SliceColor::Gray, width: i@.width, height: i@.height, pixels: s },
                        ),
                    None => true,
                }
            } else {
                final(state).output_image is None
            },
            None => final(state).output_image is None,
        },
{
    if state.output_image.is_none() {
        if let Some(gray) = compute_gray(state) {
            let spectrum = kernels.fourier(&gray);
            if spectrum.size.0 == gray.size.0 && spectrum.size.1 == gray.size.1
                && spectrum.is_well_formed() {
                let shown = ImageSlice {
                    color: SliceColor::Gray,
                    size: spectrum.size,
                    pixels: spectrum.pixels,
                };
                let image = shown.to_image();
                assert(image@ == expand_spec(shown@));
                assert(shown@ == SliceModel {
                    color: SliceColor::Gray,
                    width: shown@.width,
                    height: shown@.height,
                    pixels: shown@.pixels,
                });
                state.output_image = Some(image);
            }
        }
    }
}

} // verus!
