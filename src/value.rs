//! The values that flow along the graph's wires, and the coercions a node
//! applies when it asks for an input as a particular kind.

use vstd::prelude::*;
use crate::image::{
    expand_spec, extract_spec, ColorImage, ImageModel, ImageSlice, Rgb, SliceColor, SliceModel,
};

verus! {

/// The declared kind of a port.
#[derive(Clone, Copy, PartialEq, Eq, Structural, Debug)]
pub enum DataType {
    Image,
    Slice,
    Color,
    Scalar,
    Integer,
    Boolean,
}

/// Why a node could not be evaluated.
#[derive(Clone, Copy, PartialEq, Eq, Structural, Debug)]
pub enum EvalError {
    /// An input held a value of another kind than the node asked for.
    TypeMismatch,
    /// The node lacks a port that its template calls for.
    MissingPort,
    /// A node that an input depends on failed.
    UpstreamFailure,
    /// An input depends, through its wires, on the node being evaluated.
    Cycle,
    /// A result would not fit in memory or in the codec's 32-bit sizes.
    TooLarge,
    /// A floating-point transform returned a result of another size (or,
    /// for a slice, another color) than its input.
    TransformFault,
}

/// A value carried by a port. A scalar is held as the bit pattern of an
/// IEEE-754 single-precision number: the graph only moves it along, and
/// the transforms that read it do the arithmetic.
#[allow(inconsistent_fields)]
#[derive(Debug, PartialEq)]
pub enum Value {
    ImageFetcher { value: ColorImage },
    Image { value: ColorImage },
    Slice { value: ImageSlice },
    Color { value: Rgb },
    Scalar { bits: u32 },
    Integer { value: i32 },
    Boolean { value: bool },
}

/// The mathematical content of a `Value`.
pub enum ValueModel {
    FetchedImage(ImageModel),
    Image(ImageModel),
    Slice(SliceModel),
    Color(Rgb),
    Scalar(u32),
    Integer(i32),
    Boolean(bool),
}

impl ValueModel {
    /// Every image or slice payload has as many pixels as its size says.
    pub open spec fn wf(self) -> bool {
        match self {
            ValueModel::FetchedImage(i) => i.wf(),
            ValueModel::Image(i) => i.wf(),
            ValueModel::Slice(s) => s.wf(),
            _ => true,
        }
    }
}

impl View for Value {
    type V = ValueModel;

    open spec fn view(&self) -> ValueModel {
        match self {
            Value::ImageFetcher { value } => ValueModel::FetchedImage(value@),
            Value::Image { value } => ValueModel::Image(value@),
            Value::Slice { value } => ValueModel::Slice(value@),
            Value::Color { value } => ValueModel::Color(*value),
            Value::Scalar { bits } => ValueModel::Scalar(*bits),
            Value::Integer { value } => ValueModel::Integer(*value),
            Value::Boolean { value } => ValueModel::Boolean(*value),
        }
    }
}

/// The image a value gives when a node asks for an image: a fetched image
/// or an image as it is, a slice expanded into its color; nothing for the
/// other kinds.
pub open spec fn image_of(v: ValueModel) -> Option<ImageModel> {
    match v {
        ValueModel::FetchedImage(i) => Some(i),
        ValueModel::Image(i) => Some(i),
        ValueModel::Slice(s) => Some(expand_spec(s)),
        _ => None,
    }
}

/// The slice a value gives when a node asks for a slice, preferably of
/// color `color`: a slice as it is, or the `color` channel of an image
/// (gray when no color is named).
pub open spec fn slice_of(v: ValueModel, color: Option<SliceColor>) -> Option<SliceModel> {
    match v {
        ValueModel::Slice(s) => Some(s),
        ValueModel::Image(i) => Some(
            extract_spec(
                i,
                match color {
                    Some(c) => c,
                    None => SliceColor::Gray,
                },
            ),
        ),
        _ => None,
    }
}

/// Whether a value may sit in a port of kind `k`: one that reads as that
/// kind (an image port also takes a fetched image or a slice, a slice port
/// an image), or of exactly that kind for the others.
pub open spec fn fits(k: DataType, v: ValueModel) -> bool {
    match k {
        DataType::Image => v is FetchedImage || v is Image || v is Slice,
        DataType::Slice => v is Slice || v is Image,
        DataType::Color => v is Color,
        DataType::Scalar => v is Scalar,
        DataType::Integer => v is Integer,
        DataType::Boolean => v is Boolean,
    }
}

/// Copy of a vector of plain items.
fn copy_items<T: Copy>(v: &Vec<T>) -> (r: Vec<T>)
    ensures
        r@ == v@,
{
    let mut out: Vec<T> = Vec::new();
    let n = v.len();
    for k in 0..n
        invariant
            n == v@.len(),
            out@ =~= v@.take(k as int),
    {
        out.push(v[k]);
        assert(out@ =~= v@.take(k + 1));
    }
    assert(v@.take(n as int) =~= v@);
    out
}

impl ColorImage {
    /// An independent copy of the image.
    pub fn duplicate(&self) -> (r: ColorImage)
        ensures
            r@ == self@,
            r.size == self.size,
    {
        ColorImage { size: self.size, pixels: copy_items(&self.pixels) }
    }
}

impl ImageSlice {
    /// An independent copy of the slice.
    pub fn duplicate(&self) -> (r: ImageSlice)
        ensures
            r@ == self@,
            r.size == self.size,
    {
        ImageSlice { color: self.color, size: self.size, pixels: copy_items(&self.pixels) }
    }
}

impl Value {
    /// An independent copy of the value.
    pub fn duplicate(&self) -> (r: Value)
        ensures
            r@ == self@,
    {
        match self {
            Value::ImageFetcher { value } => Value::ImageFetcher { value: value.duplicate() },
            Value::Image { value } => Value::Image { value: value.duplicate() },
            Value::Slice { value } => Value::Slice { value: value.duplicate() },
            Value::Color { value } => Value::Color { value: *value },
            Value::Scalar { bits } => Value::Scalar { bits: *bits },
            Value::Integer { value } => Value::Integer { value: *value },
            Value::Boolean { value } => Value::Boolean { value: *value },
        }
    }

    /// Whether the value may sit in a port of kind `kind`.
    pub fn fits(&self, kind: DataType) -> (r: bool)
        ensures
            r == fits(kind, self@),
    {
        match kind {
            DataType::Image => match self {
                Value::ImageFetcher { .. } | Value::Image { .. } | Value::Slice { .. } => true,
                _ => false,
            },
            DataType::Slice => match self {
                Value::Slice { .. } | Value::Image { .. } => true,
                _ => false,
            },
            DataType::Color => match self {
                Value::Color { .. } => true,
                _ => false,
            },
            DataType::Scalar => match self {
                Value::Scalar { .. } => true,
                _ => false,
            },
            DataType::Integer => match self {
                Value::Integer { .. } => true,
                _ => false,
            },
            DataType::Boolean => match self {
                Value::Boolean { .. } => true,
                _ => false,
            },
        }
    }

    pub open spec fn wf(&self) -> bool {
        self@.wf()
    }

    /// Whether every image or slice payload has as many pixels as its size
    /// says.
    pub fn is_well_formed(&self) -> (r: bool)
        ensures
            r == self.wf(),
    {
        match self {
            Value::ImageFetcher { value } => value.is_well_formed(),
            Value::Image { value } => value.is_well_formed(),
            Value::Slice { value } => value.is_well_formed(),
            _ => true,
        }
    }

    /// Read the value as an image.
    pub fn try_to_image(&self) -> (r: Result<ColorImage, EvalError>)
        requires
            self.wf(),
        ensures
            match image_of(self@) {
                Some(i) => r is Ok && r->Ok_0@ == i && r->Ok_0.wf(),
                None => r == Err::<ColorImage, EvalError>(EvalError::TypeMismatch),
            },
    {
        match self {
            Value::ImageFetcher { value } => Ok(value.duplicate()),
            Value::Image { value } => Ok(value.duplicate()),
            Value::Slice { value } => Ok(value.to_image()),
            _ => Err(EvalError::TypeMismatch),
        }
    }

    /// Read the value as a slice, taking channel `color` (gray when none
    /// is named) out of an image.
    pub fn try_to_slice(&self, color: Option<SliceColor>) -> (r: Result<ImageSlice, EvalError>)
        requires
            self.wf(),
        ensures
            match slice_of(self@, color) {
                Some(s) => r is Ok && r->Ok_0@ == s && r->Ok_0.wf(),
                None => r == Err::<ImageSlice, EvalError>(EvalError::TypeMismatch),
            },
    {
        match self {
            Value::Slice { value } => Ok(value.duplicate()),
            Value::Image { value } => {
                let c = match color {
                    Some(c) => c,
                    None => SliceColor::Gray,
                };
                Ok(ImageSlice::from_image(value, c))
            },
            _ => Err(EvalError::TypeMismatch),
        }
    }

    /// Read the value as a color; only a color is one.
    pub fn try_to_color(&self) -> (r: Result<Rgb, EvalError>)
        ensures
            match self@ {
                ValueModel::Color(c) => r == Ok::<Rgb, EvalError>(c),
                _ => r == Err::<Rgb, EvalError>(EvalError::TypeMismatch),
            },
    {
        match self {
            Value::Color { value } => Ok(*value),
            _ => Err(EvalError::TypeMismatch),
        }
    }

    /// Read the value as a scalar (its bit pattern); only a scalar is one.
    pub fn try_to_scalar(&self) -> (r: Result<u32, EvalError>)
        ensures
            match self@ {
                ValueModel::Scalar(b) => r == Ok::<u32, EvalError>(b),
                _ => r == Err::<u32, EvalError>(EvalError::TypeMismatch),
            },
    {
        match self {
            Value::Scalar { bits } => Ok(*bits),
            _ => Err(EvalError::TypeMismatch),
        }
    }

    /// Read the value as a boolean; only a boolean is one.
    pub fn try_to_boolean(&self) -> (r: Result<bool, EvalError>)
        ensures
            match self@ {
                ValueModel::Boolean(b) => r == Ok::<bool, EvalError>(b),
                _ => r == Err::<bool, EvalError>(EvalError::TypeMismatch),
            },
    {
        match self {
            Value::Boolean { value } => Ok(*value),
            _ => Err(EvalError::TypeMismatch),
        }
    }

    /// Read the value as an integer; only an integer is one.
    pub fn try_to_integer(&self) -> (r: Result<i32, EvalError>)
        ensures
            match self@ {
                ValueModel::Integer(i) => r == Ok::<i32, EvalError>(i),
                _ => r == Err::<i32, EvalError>(EvalError::TypeMismatch),
            },
    {
        match self {
            Value::Integer { value } => Ok(*value),
            _ => Err(EvalError::TypeMismatch),
        }
    }
}

/// A well-formed slice tagged red, read as an image, gives an image of the
/// same size whose every pixel has the slice's sample in red and zero in
/// green and blue.
pub proof fn lemma_red_slice_reads_as_red_image(s: SliceModel)
    requires
        s.wf(),
        s.color == SliceColor::Red,
    ensures
        image_of(ValueModel::Slice(s)) is Some,
        ({
            let i = image_of(ValueModel::Slice(s))->Some_0;
            &&& i.width == s.width
            &&& i.height == s.height
            &&& i.pixels.len() == s.pixels.len()
            &&& forall|k: int|
                0 <= k < s.pixels.len() ==> #[trigger] i.pixels[k] == Rgb { r: s.pixels[k], g: 0, b: 0 }
        }),
{
}

} // verus!
