//! Pixel buffers, single-channel slices, and the exact transforms on them.

use vstd::prelude::*;

verus! {

/// Which channel of a color image a slice carries.
#[derive(Clone, Copy, PartialEq, Eq, Structural, Debug)]
pub enum SliceColor {
    Red,
    Green,
    Blue,
    Gray,
}

impl Default for SliceColor {
    fn default() -> (r: Self)
        ensures
            r == SliceColor::Blue,
    {
        SliceColor::Blue
    }
}

/// One opaque RGB pixel.
#[derive(Clone, Copy, PartialEq, Eq, Structural, Debug)]
pub struct Rgb {
    pub r: u8,
    pub g: u8,
    pub b: u8,
}

/// A color image: `size` is width then height, `pixels` runs row by row
/// from the top.
#[derive(Debug, PartialEq)]
pub struct ColorImage {
    pub size: (usize, usize),
    pub pixels: Vec<Rgb>,
}

/// One channel of an image, tagged with the channel it came from.
#[derive(Debug, PartialEq)]
pub struct ImageSlice {
    pub color: SliceColor,
    /// width, height.
    pub size: (usize, usize),
    /// The samples, row by row, from top to bottom.
    pub pixels: Vec<u8>,
}

/// The mathematical content of a `ColorImage`.
pub struct ImageModel {
    pub width: int,
    pub height: int,
    pub pixels: Seq<Rgb>,
}

/// The mathematical content of an `ImageSlice`.
pub struct SliceModel {
    pub color: SliceColor,
    pub width: int,
    pub height: int,
    pub pixels: Seq<u8>,
}

impl ImageModel {
    /// The pixel count agrees with the dimensions.
    pub open spec fn wf(self) -> bool {
        self.width >= 0 && self.height >= 0 && self.pixels.len() == self.width * self.height
    }
}

impl SliceModel {
    pub open spec fn wf(self) -> bool {
        self.width >= 0 && self.height >= 0 && self.pixels.len() == self.width * self.height
    }
}

impl View for ColorImage {
    type V = ImageModel;

    open spec fn view(&self) -> ImageModel {
        ImageModel {
            width: self.size.0 as int,
            height: self.size.1 as int,
            pixels: self.pixels@,
        }
    }
}

impl View for ImageSlice {
    type V = SliceModel;

    open spec fn view(&self) -> SliceModel {
        SliceModel {
            color: self.color,
            width: self.size.0 as int,
            height: self.size.1 as int,
            pixels: self.pixels@,
        }
    }
}

/// The byte of `p` that a slice of color `c` carries; a gray slice reads
/// the first channel.
pub open spec fn channel_of(p: Rgb, c: SliceColor) -> u8 {
    match c {
        SliceColor::Red => p.r,
        SliceColor::Green => p.g,
        SliceColor::Blue => p.b,
        SliceColor::Gray => p.r,
    }
}

/// The pixel that a sample `v` of a slice of color `c` stands for: the
/// slice's own channel holds `v`, the others are zero; gray fills all three.
pub open spec fn expand_sample(v: u8, c: SliceColor) -> Rgb {
    match c {
        SliceColor::Red => Rgb { r: v, g: 0, b: 0 },
        SliceColor::Green => Rgb { r: 0, g: v, b: 0 },
        SliceColor::Blue => Rgb { r: 0, g: 0, b: v },
        SliceColor::Gray => Rgb { r: v, g: v, b: v },
    }
}

/// A slice of color `c` taken from `i`.
pub open spec fn extract_spec(i: ImageModel, c: SliceColor) -> SliceModel {
    SliceModel {
        color: c,
        width: i.width,
        height: i.height,
        pixels: Seq::new(i.pixels.len(), |k: int| channel_of(i.pixels[k], c)),
    }
}

/// The color image that slice `s` stands for.
pub open spec fn expand_spec(s: SliceModel) -> ImageModel {
    ImageModel {
        width: s.width,
        height: s.height,
        pixels: Seq::new(s.pixels.len(), |k: int| expand_sample(s.pixels[k], s.color)),
    }
}

impl ColorImage {
    pub open spec fn wf(&self) -> bool {
        self@.wf()
    }

    /// Create an image of the given size filled with one color.
    pub fn new(size: (usize, usize), fill: Rgb) -> (r: ColorImage)
        requires
            size.0 * size.1 <= usize::MAX,
        ensures
            r.wf(),
            r.size == size,
            r.pixels@ == Seq::new((size.0 * size.1) as nat, |k: int| fill),
    {
        let n: usize = size.0 * size.1;
        let pixels = vec![fill; n];
        assert(pixels@ =~= Seq::new((size.0 * size.1) as nat, |k: int| fill));
        ColorImage { size, pixels }
    }

    /// Whether the pixel count agrees with the dimensions.
    pub fn is_well_formed(&self) -> (r: bool)
        ensures
            r == self.wf(),
    {
        let len = self.pixels.len();
        match self.size.0.checked_mul(self.size.1) {
            Some(n) => n == len,
            None => false,
        }
    }
}

impl ImageSlice {
    pub open spec fn wf(&self) -> bool {
        self@.wf()
    }

    /// Create a slice of the given color and size with every sample zero.
    pub fn new(color: SliceColor, size: (usize, usize)) -> (r: ImageSlice)
        requires
            size.0 * size.1 <= usize::MAX,
        ensures
            r.wf(),
            r.color == color,
            r.size == size,
            r.pixels@ == Seq::new((size.0 * size.1) as nat, |k: int| 0u8),
    {
        let n: usize = size.0 * size.1;
        let pixels = vec![0u8; n];
        assert(pixels@ =~= Seq::new((size.0 * size.1) as nat, |k: int| 0u8));
        ImageSlice { color, size, pixels }
    }

    /// Whether the sample count agrees with the dimensions.
    pub fn is_well_formed(&self) -> (r: bool)
        ensures
            r == self.wf(),
    {
        let len = self.pixels.len();
        match self.size.0.checked_mul(self.size.1) {
            Some(n) => n == len,
            None => false,
        }
    }

    /// The slice of color `color` of an image: each sample is that channel
    /// of the pixel at the same place (the first channel for gray).
    pub fn from_image(image: &ColorImage, color: SliceColor) -> (r: ImageSlice)
        ensures
            r@ == extract_spec(image@, color),
    {
        let mut pixels: Vec<u8> = Vec::new();
        let n = image.pixels.len();
        for k in 0..n
            invariant
                n == image.pixels@.len(),
                pixels@ =~= Seq::new(k as nat, |j: int| channel_of(image.pixels@[j], color)),
        {
            let p = image.pixels[k];
            let v = match color {
                SliceColor::Red => p.r,
                SliceColor::Green => p.g,
                SliceColor::Blue => p.b,
                SliceColor::Gray => p.r,
            };
            pixels.push(v);
        }
        let r = ImageSlice { color, size: image.size, pixels };
        assert(r@.pixels =~= extract_spec(image@, color).pixels);
        r
    }

    /// The color image this slice stands for: its own channel carries the
    /// samples and the other two are zero (a gray slice fills all three).
    pub fn to_image(&self) -> (r: ColorImage)
        ensures
            r@ == expand_spec(self@),
    {
        let mut pixels: Vec<Rgb> = Vec::new();
        let n = self.pixels.len();
        for k in 0..n
            invariant
                n == self.pixels@.len(),
                pixels@ =~= Seq::new(k as nat, |j: int| expand_sample(self.pixels@[j], self.color)),
        {
            let v = self.pixels[k];
            let p = match self.color {
                SliceColor::Red => Rgb { r: v, g: 0, b: 0 },
                SliceColor::Green => Rgb { r: 0, g: v, b: 0 },
                SliceColor::Blue => Rgb { r: 0, g: 0, b: v },
                SliceColor::Gray => Rgb { r: v, g: v, b: v },
            };
            pixels.push(p);
        }
        let r = ColorImage { size: self.size, pixels };
        assert(r@.pixels =~= expand_spec(self@).pixels);
        r
    }
}

/// A gray slice holding the given luma samples.
pub fn luma_to_slice(size: (usize, usize), luma: Vec<u8>) -> (r: ImageSlice)
    ensures
        r.color == SliceColor::Gray,
        r.size == size,
        r.pixels@ == luma@,
{
    ImageSlice { color: SliceColor::Gray, size, pixels: luma }
}

} // verus!
