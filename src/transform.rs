//! Whole-image transforms: gray conversion, channel split and merge,
//! inversion, and the axis-aligned flips and quarter-turn rotations.

use vstd::prelude::*;
use vstd::arithmetic::div_mod::lemma_fundamental_div_mod_converse;
use crate::image::{
    channel_of, extract_spec, ColorImage, ImageModel, ImageSlice, Rgb, SliceColor, SliceModel,
};

verus! {

/// The luma that `image`'s gray conversion gives a pixel: the sRGB weights
/// 0.2126, 0.7152, 0.0722 in integer arithmetic, rounded down.
pub open spec fn luma(r: u8, g: u8, b: u8) -> u8 {
    ((2126 * r + 7152 * g + 722 * b) / 10000) as u8
}

/// The gray slice of an image.
pub open spec fn gray_spec(i: ImageModel) -> SliceModel {
    SliceModel {
        color: SliceColor::Gray,
        width: i.width,
        height: i.height,
        pixels: Seq::new(i.pixels.len(), |k: int| luma(i.pixels[k].r, i.pixels[k].g, i.pixels[k].b)),
    }
}

/// Relies on image::imageops::grayscale over an RgbImage built by
/// RgbImage::from_raw, read back with into_raw: one luma byte per pixel,
/// in the same order, computed by the crate's rgb_to_luma. Its pixel
/// iterator reads past the buffer of an image of width 0 and height 2 or
/// more, hence the second requirement.
#[verifier::external_body]
fn grayscale_raw(width: u32, height: u32, rgb: Vec<u8>) -> (r: Vec<u8>)
    requires
        rgb@.len() == 3 * width * height,
        width > 0 || height < 2,
    ensures
        r@.len() == width * height,
        forall|k: int|
            0 <= k < width * height ==> r@[k] == luma(rgb@[3 * k], rgb@[3 * k + 1], rgb@[3 * k + 2]),
{
    match ::image::RgbImage::from_raw(width, height, rgb) {
        Some(img) => ::image::imageops::grayscale(&img).into_raw(),
        None => Vec::new(),
    }
}

/// The gray slice of an image, by the `image` crate's luma conversion.
pub fn image_to_gray(image: &ColorImage) -> (r: ImageSlice)
    requires
        image.wf(),
        image.size.0 <= u32::MAX,
        image.size.1 <= u32::MAX,
        3 * image.pixels@.len() <= usize::MAX,
    ensures
        r@ == gray_spec(image@),
{
    let n = image.pixels.len();
    if n == 0 {
        let r = crate::image::luma_to_slice(image.size, Vec::new());
        assert(r@.pixels =~= gray_spec(image@).pixels);
        return r;
    }
    let mut raw: Vec<u8> = Vec::new();
    for k in 0..n
        invariant
            n == image.pixels@.len(),
            3 * n <= usize::MAX,
            raw@.len() == 3 * k,
            forall|j: int|
                0 <= j < k ==> raw@[3 * j] == image.pixels@[j].r && raw@[3 * j + 1]
                    == image.pixels@[j].g && raw@[3 * j + 2] == image.pixels@[j].b,
    {
        let p = image.pixels[k];
        raw.push(p.r);
        raw.push(p.g);
        raw.push(p.b);
    }
    let w = image.size.0;
    let h = image.size.1;
    assert(3 * (w as int) * (h as int) == 3 * (n as int) && w > 0) by (nonlinear_arith)
        requires
            n as int == (w as int) * (h as int),
            n > 0,
    ;
    let luma_bytes = grayscale_raw(image.size.0 as u32, image.size.1 as u32, raw);
    let r = crate::image::luma_to_slice(image.size, luma_bytes);
    assert(r@.pixels =~= gray_spec(image@).pixels);
    r
}

/// The three slices of an image, red, green and blue.
pub open spec fn split_spec(i: ImageModel) -> (SliceModel, SliceModel, SliceModel) {
    (
        extract_spec(i, SliceColor::Red),
        extract_spec(i, SliceColor::Green),
        extract_spec(i, SliceColor::Blue),
    )
}

/// Split an image into its red, green and blue slices.
pub fn image_to_channels(image: &ColorImage) -> (r: (ImageSlice, ImageSlice, ImageSlice))
    ensures
        (r.0@, r.1@, r.2@) == split_spec(image@),
{
    let red = ImageSlice::from_image(image, SliceColor::Red);
    let green = ImageSlice::from_image(image, SliceColor::Green);
    let blue = ImageSlice::from_image(image, SliceColor::Blue);
    (red, green, blue)
}

pub open spec fn max3(a: int, b: int, c: int) -> int {
    if a >= b && a >= c {
        a
    } else if b >= c {
        b
    } else {
        c
    }
}

/// Sample `k` of `s`, or zero past its end.
pub open spec fn sample_or_zero(s: Seq<u8>, k: int) -> u8 {
    if k < s.len() {
        s[k]
    } else {
        0
    }
}

/// The image merged from three slices taken as red, green and blue: its
/// size is the largest width by the largest height, and each slice gives
/// its channel at the same linear index, zero past its own end.
pub open spec fn merge_spec(r: SliceModel, g: SliceModel, b: SliceModel) -> ImageModel {
    let w = max3(r.width, g.width, b.width);
    let h = max3(r.height, g.height, b.height);
    ImageModel {
        width: w,
        height: h,
        pixels: Seq::new(
            (w * h) as nat,
            |k: int|
                Rgb {
                    r: sample_or_zero(r.pixels, k),
                    g: sample_or_zero(g.pixels, k),
                    b: sample_or_zero(b.pixels, k),
                },
        ),
    }
}

fn max3_exec(a: usize, b: usize, c: usize) -> (r: usize)
    ensures
        r == max3(a as int, b as int, c as int),
{
    if a >= b && a >= c {
        a
    } else if b >= c {
        b
    } else {
        c
    }
}

/// The size that merging three slices gives, if its pixel count fits.
pub fn merged_size(red: &ImageSlice, green: &ImageSlice, blue: &ImageSlice) -> (r: Option<(usize, usize)>)
    ensures
        ({
            let m = merge_spec(red@, green@, blue@);
            match r {
                Some(s) => s.0 == m.width && s.1 == m.height && m.width * m.height <= usize::MAX,
                None => m.width * m.height > usize::MAX,
            }
        }),
{
    let w = max3_exec(red.size.0, green.size.0, blue.size.0);
    let h = max3_exec(red.size.1, green.size.1, blue.size.1);
    match w.checked_mul(h) {
        Some(_) => Some((w, h)),
        None => None,
    }
}

fn sample_at(s: &Vec<u8>, k: usize) -> (r: u8)
    ensures
        r == sample_or_zero(s@, k as int),
{
    if k < s.len() {
        s[k]
    } else {
        0
    }
}

/// Merge three slices, taken as red, green and blue, into one image.
pub fn channels_to_image(red: &ImageSlice, green: &ImageSlice, blue: &ImageSlice) -> (r: ColorImage)
    requires
        merge_spec(red@, green@, blue@).width * merge_spec(red@, green@, blue@).height
            <= usize::MAX,
    ensures
        r@ == merge_spec(red@, green@, blue@),
        r.wf(),
{
    let w = max3_exec(red.size.0, green.size.0, blue.size.0);
    let h = max3_exec(red.size.1, green.size.1, blue.size.1);
    let n: usize = w * h;
    let ghost m = merge_spec(red@, green@, blue@);
    let mut pixels: Vec<Rgb> = Vec::new();
    for k in 0..n
        invariant
            n == m.pixels.len(),
            m == merge_spec(red@, green@, blue@),
            pixels@ =~= m.pixels.take(k as int),
    {
        let p = Rgb {
            r: sample_at(&red.pixels, k),
            g: sample_at(&green.pixels, k),
            b: sample_at(&blue.pixels, k),
        };
        pixels.push(p);
        assert(pixels@ =~= m.pixels.take(k + 1));
    }
    assert(m.pixels.take(n as int) =~= m.pixels);
    ColorImage { size: (w, h), pixels }
}

/// Splitting an image into its red, green and blue slices and merging them
/// back gives the image again, pixel for pixel.
pub proof fn lemma_split_merge_round_trip(i: ImageModel)
    requires
        i.wf(),
    ensures
        merge_spec(split_spec(i).0, split_spec(i).1, split_spec(i).2) == i,
{
    let (r, g, b) = split_spec(i);
    let m = merge_spec(r, g, b);
    assert(m.width == i.width && m.height == i.height);
    assert forall|k: int| 0 <= k < i.pixels.len() implies m.pixels[k] == i.pixels[k] by {
        assert(channel_of(i.pixels[k], SliceColor::Red) == i.pixels[k].r);
    }
    assert(m.pixels =~= i.pixels);
}

/// An image with every channel replaced by 255 minus itself.
pub open spec fn invert_spec(i: ImageModel) -> ImageModel {
    ImageModel {
        width: i.width,
        height: i.height,
        pixels: Seq::new(
            i.pixels.len(),
            |k: int|
                Rgb {
                    r: (255 - i.pixels[k].r) as u8,
                    g: (255 - i.pixels[k].g) as u8,
                    b: (255 - i.pixels[k].b) as u8,
                },
        ),
    }
}

/// Invert the colors of an image.
pub fn invert_colors_image(image: &ColorImage) -> (r: ColorImage)
    ensures
        r@ == invert_spec(image@),
{
    let n = image.pixels.len();
    let ghost m = invert_spec(image@);
    let mut pixels: Vec<Rgb> = Vec::new();
    for k in 0..n
        invariant
            n == image.pixels@.len(),
            m == invert_spec(image@),
            pixels@ =~= m.pixels.take(k as int),
    {
        let p = image.pixels[k];
        pixels.push(Rgb { r: 255 - p.r, g: 255 - p.g, b: 255 - p.b });
        assert(pixels@ =~= m.pixels.take(k + 1));
    }
    assert(m.pixels.take(n as int) =~= m.pixels);
    ColorImage { size: image.size, pixels }
}

/// An axis-aligned placement of an image: a flip about either axis, or a
/// clockwise rotation by `quarter` quarter turns (taken modulo 4).
#[derive(Clone, Copy, PartialEq, Eq, Structural, Debug)]
pub enum Placement {
    Flip { horizontal: bool, vertical: bool },
    Rotate { quarter: u8 },
}

/// Whether a placement exchanges width and height.
pub open spec fn swaps_axes(m: Placement) -> bool {
    match m {
        Placement::Flip { .. } => false,
        Placement::Rotate { quarter } => quarter % 2 == 1,
    }
}

/// The width and height of an image of size `w` by `h` after placement `m`.
pub open spec fn placed_dims(m: Placement, w: int, h: int) -> (int, int) {
    if swaps_axes(m) {
        (h, w)
    } else {
        (w, h)
    }
}

/// Where pixel (x, y) of the placed image comes from in the `w` by `h`
/// source.
pub open spec fn placed_source(m: Placement, x: int, y: int, w: int, h: int) -> (int, int) {
    match m {
        Placement::Flip { horizontal, vertical } => (
            if horizontal {
                w - 1 - x
            } else {
                x
            },
            if vertical {
                h - 1 - y
            } else {
                y
            },
        ),
        Placement::Rotate { quarter } => {
            let q = quarter % 4;
            if q == 0 {
                (x, y)
            } else if q == 1 {
                (y, h - 1 - x)
            } else if q == 2 {
                (w - 1 - x, h - 1 - y)
            } else {
                (w - 1 - y, x)
            }
        },
    }
}

/// The pixel of `i` that lands at linear index `k` of the placed image.
pub open spec fn placed_pixel(i: ImageModel, m: Placement, k: int) -> Rgb {
    let w2 = placed_dims(m, i.width, i.height).0;
    let s = placed_source(m, k % w2, k / w2, i.width, i.height);
    i.pixels[s.1 * i.width + s.0]
}

/// Image `i` after placement `m`.
pub open spec fn placed_spec(i: ImageModel, m: Placement) -> ImageModel {
    let d = placed_dims(m, i.width, i.height);
    ImageModel {
        width: d.0,
        height: d.1,
        pixels: Seq::new((d.0 * d.1) as nat, |k: int| placed_pixel(i, m, k)),
    }
}

/// Linear index `y * w + x` of a cell of a `w` by `h` grid, and its
/// coordinates back from it.
proof fn lemma_cell_index(x: int, y: int, w: int, h: int)
    requires
        0 <= x < w,
        0 <= y < h,
    ensures
        0 <= y * w + x < w * h,
        (y * w + x) % w == x,
        (y * w + x) / w == y,
{
    assert(0 <= y * w + x < w * h) by (nonlinear_arith)
        requires
            0 <= x < w,
            0 <= y < h,
    ;
    lemma_fundamental_div_mod_converse(y * w + x, w, y, x);
}

fn placed_source_exec(m: Placement, x: usize, y: usize, w: usize, h: usize) -> (r: (usize, usize))
    requires
        x < placed_dims(m, w as int, h as int).0,
        y < placed_dims(m, w as int, h as int).1,
    ensures
        r.0 as int == placed_source(m, x as int, y as int, w as int, h as int).0,
        r.1 as int == placed_source(m, x as int, y as int, w as int, h as int).1,
        r.0 < w,
        r.1 < h,
{
    match m {
        Placement::Flip { horizontal, vertical } => {
            let sx = if horizontal {
                w - 1 - x
            } else {
                x
            };
            let sy = if vertical {
                h - 1 - y
            } else {
                y
            };
            (sx, sy)
        },
        Placement::Rotate { quarter } => {
            let q = quarter % 4;
            if q == 0 {
                (x, y)
            } else if q == 1 {
                (y, h - 1 - x)
            } else if q == 2 {
                (w - 1 - x, h - 1 - y)
            } else {
                (w - 1 - y, x)
            }
        },
    }
}

/// Resample a well-formed image under a placement.
fn place(image: &ColorImage, m: Placement) -> (r: ColorImage)
    requires
        image.wf(),
    ensures
        r@ == placed_spec(image@, m),
        r.wf(),
{
    let w = image.size.0;
    let h = image.size.1;
    let swap = match m {
        Placement::Flip { .. } => false,
        Placement::Rotate { quarter } => quarter % 2 == 1,
    };
    let (w2, h2) = if swap {
        (h, w)
    } else {
        (w, h)
    };
    let ghost target = placed_spec(image@, m);
    let n = image.pixels.len();
    assert((w2 as int) * (h2 as int) == (w as int) * (h as int)) by (nonlinear_arith)
        requires
            (w2 == w && h2 == h) || (w2 == h && h2 == w),
    ;
    assert(placed_dims(m, w as int, h as int) == (w2 as int, h2 as int));
    let mut pixels: Vec<Rgb> = Vec::new();
    let mut y: usize = 0;
    while y < h2
        invariant
            w == image.size.0,
            h == image.size.1,
            n == image.pixels@.len(),
            image.wf(),
            placed_dims(m, w as int, h as int) == (w2 as int, h2 as int),
            target == placed_spec(image@, m),
            (w2 as int) * (h2 as int) == (w as int) * (h as int),
            y <= h2,
            pixels@.len() == (y as int) * (w2 as int),
            forall|k: int| 0 <= k < pixels@.len() ==> pixels@[k] == target.pixels[k],
        decreases h2 - y,
    {
        let mut x: usize = 0;
        while x < w2
            invariant
                w == image.size.0,
                h == image.size.1,
                n == image.pixels@.len(),
                image.wf(),
                placed_dims(m, w as int, h as int) == (w2 as int, h2 as int),
                target == placed_spec(image@, m),
                (w2 as int) * (h2 as int) == (w as int) * (h as int),
                y < h2,
                x <= w2,
                pixels@.len() == (y as int) * (w2 as int) + x,
                forall|k: int| 0 <= k < pixels@.len() ==> pixels@[k] == target.pixels[k],
            decreases w2 - x,
        {
            let (sx, sy) = placed_source_exec(m, x, y, w, h);
            proof {
                lemma_cell_index(sx as int, sy as int, w as int, h as int);
                lemma_cell_index(x as int, y as int, w2 as int, h2 as int);
            }
            let p = image.pixels[sy * w + sx];
            pixels.push(p);
            x = x + 1;
        }
        assert((y as int) * (w2 as int) + (w2 as int) == (y as int + 1) * (w2 as int)) by (nonlinear_arith);
        y = y + 1;
    }
    assert((h2 as int) * (w2 as int) == (w2 as int) * (h2 as int)) by (nonlinear_arith);
    let r = ColorImage { size: (w2, h2), pixels };
    assert(r@.pixels =~= target.pixels);
    r
}

/// The image flipped left to right when `horizontal`, top to bottom when
/// `vertical`.
pub open spec fn flip_spec(i: ImageModel, horizontal: bool, vertical: bool) -> ImageModel {
    placed_spec(i, Placement::Flip { horizontal, vertical })
}

/// The pixel at column `x`, row `y` of `i`.
pub open spec fn pixel_at(i: ImageModel, x: int, y: int) -> Rgb {
    i.pixels[y * i.width + x]
}

/// Flip an image about its vertical axis (`horizontal`) and its horizontal
/// axis (`vertical`); width and height are kept.
pub fn flip_image(image: &ColorImage, horizontal: bool, vertical: bool) -> (r: ColorImage)
    requires
        image.wf(),
    ensures
        r@ == flip_spec(image@, horizontal, vertical),
        r.wf(),
        r.size == image.size,
        forall|x: int, y: int|
            0 <= x < image@.width && 0 <= y < image@.height ==> #[trigger] pixel_at(r@, x, y)
                == pixel_at(
                image@,
                if horizontal {
                    image@.width - 1 - x
                } else {
                    x
                },
                if vertical {
                    image@.height - 1 - y
                } else {
                    y
                },
            ),
{
    let r = place(image, Placement::Flip { horizontal, vertical });
    assert forall|x: int, y: int|
        0 <= x < image@.width && 0 <= y < image@.height implies #[trigger] pixel_at(r@, x, y)
            == pixel_at(
            image@,
            if horizontal {
                image@.width - 1 - x
            } else {
                x
            },
            if vertical {
                image@.height - 1 - y
            } else {
                y
            },
        ) by {
        lemma_cell_index(x, y, image@.width, image@.height);
    }
    r
}

/// The number of clockwise quarter turns that a turn count stands for.
pub open spec fn quarter_turns(turns: i32) -> int {
    (turns as int) % 4
}

/// The image rotated clockwise by `q` quarter turns.
pub open spec fn rotate_spec(i: ImageModel, q: int) -> ImageModel {
    placed_spec(i, Placement::Rotate { quarter: q as u8 })
}

fn quarter_turns_exec(turns: i32) -> (r: u8)
    ensures
        r as int == quarter_turns(turns),
        r < 4,
{
    if turns >= 0 {
        (turns % 4) as u8
    } else {
        let m: i32 = (-(turns + 1)) % 4;
        (3 - m) as u8
    }
}

/// Rotate an image clockwise by `turns` quarter turns (negative counts turn
/// the other way). A half turn or a multiple of four keeps width and
/// height; an odd count exchanges them, as a quarter turn of a non-square
/// image must (only square images keep their size under every rotation).
/// A count that is a multiple of four gives the image back unchanged.
pub fn rotate_image(image: &ColorImage, turns: i32) -> (r: ColorImage)
    requires
        image.wf(),
    ensures
        r@ == rotate_spec(image@, quarter_turns(turns)),
        r.wf(),
        quarter_turns(turns) % 2 == 0 ==> r.size == image.size,
        quarter_turns(turns) % 2 == 1 ==> r.size.0 == image.size.1 && r.size.1
            == image.size.0,
        quarter_turns(turns) == 0 ==> r@ == image@,
{
    let q = quarter_turns_exec(turns);
    let r = place(image, Placement::Rotate { quarter: q });
    if q == 0 {
        assert forall|k: int| 0 <= k < image@.pixels.len() implies r@.pixels[k]
            == image@.pixels[k] by {
            let w = image@.width;
            let x = k % w;
            let y = k / w;
            assert(w > 0) by (nonlinear_arith)
                requires
                    0 <= k < image@.pixels.len(),
                    image@.pixels.len() == w * image@.height,
                    w >= 0,
            ;
            vstd::arithmetic::div_mod::lemma_fundamental_div_mod(k, w);
            assert(y * w + x == k) by (nonlinear_arith)
                requires
                    k == w * (k / w) + k % w,
                    x == k % w,
                    y == k / w,
            ;
        }
        assert(r@.pixels =~= image@.pixels);
    }
    r
}

} // verus!
