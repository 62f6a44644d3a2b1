//! The fixed set of node templates and the ports each one declares.

use vstd::prelude::*;
use crate::image::{ColorImage, ImageModel, ImageSlice, Rgb, SliceColor, SliceModel};
use crate::value::{DataType, Value, ValueModel};

verus! {

/// The kinds of node a graph can hold.
#[derive(Clone, Copy, PartialEq, Eq, Structural, Debug)]
pub enum NodeTemplate {
    ImageFetcher,
    GrayScales,
    ImageToSlice,
    SliceToImage,
    GaussianBlur,
    FourierSpace,
    BrightenImage,
    ContrastImage,
    InvertImage,
    HueRotate,
    FlipImage,
    RotateImage,
}

/// How an input port gets its value.
#[derive(Clone, Copy, PartialEq, Eq, Structural, Debug)]
pub enum InputParamKind {
    /// Fed by a wire; unwired, it reads its default value.
    ConnectionOnly,
    /// Holds an editable inline value and takes no wire.
    ConstantOnly,
}

/// What an input port of a template is for; it fixes the port's kind,
/// policy and default value.
#[derive(Clone, Copy, PartialEq, Eq, Structural, Debug)]
pub enum PortRole {
    /// The image that a fetch brought in.
    Fetched,
    Image,
    Slice { color: SliceColor },
    Scalar,
    Integer,
    Boolean,
}

pub open spec fn role_kind(r: PortRole) -> DataType {
    match r {
        PortRole::Fetched => DataType::Image,
        PortRole::Image => DataType::Image,
        PortRole::Slice { .. } => DataType::Slice,
        PortRole::Scalar => DataType::Scalar,
        PortRole::Integer => DataType::Integer,
        PortRole::Boolean => DataType::Boolean,
    }
}

pub open spec fn role_policy(r: PortRole) -> InputParamKind {
    match r {
        PortRole::Image => InputParamKind::ConnectionOnly,
        PortRole::Slice { .. } => InputParamKind::ConnectionOnly,
        _ => InputParamKind::ConstantOnly,
    }
}

/// The 1 by 1 black image.
pub open spec fn black_pixel_model() -> ImageModel {
    ImageModel { width: 1, height: 1, pixels: seq![Rgb { r: 0, g: 0, b: 0 }] }
}

/// The zero value of each role: a 1 by 1 black image or slice, 0, false.
pub open spec fn role_default(r: PortRole) -> ValueModel {
    match r {
        PortRole::Fetched => ValueModel::FetchedImage(black_pixel_model()),
        PortRole::Image => ValueModel::Image(black_pixel_model()),
        PortRole::Slice { color } => ValueModel::Slice(
            SliceModel { color, width: 1, height: 1, pixels: seq![0u8] },
        ),
        PortRole::Scalar => ValueModel::Scalar(0),
        PortRole::Integer => ValueModel::Integer(0),
        PortRole::Boolean => ValueModel::Boolean(false),
    }
}

/// The input ports of each template, in order.
pub open spec fn input_roles(t: NodeTemplate) -> Seq<PortRole> {
    match t {
        NodeTemplate::ImageFetcher => seq![PortRole::Fetched],
        NodeTemplate::GrayScales => seq![PortRole::Image],
        NodeTemplate::ImageToSlice => seq![PortRole::Image],
        NodeTemplate::SliceToImage => seq![
            PortRole::Slice { color: SliceColor::Red },
            PortRole::Slice { color: SliceColor::Green },
            PortRole::Slice { color: SliceColor::Blue },
        ],
        NodeTemplate::FourierSpace => seq![PortRole::Slice { color: SliceColor::Gray }],
        NodeTemplate::GaussianBlur => seq![PortRole::Image, PortRole::Scalar],
        NodeTemplate::BrightenImage => seq![PortRole::Image, PortRole::Scalar],
        NodeTemplate::ContrastImage => seq![PortRole::Image, PortRole::Scalar],
        NodeTemplate::HueRotate => seq![PortRole::Image, PortRole::Scalar],
        NodeTemplate::InvertImage => seq![PortRole::Image],
        NodeTemplate::FlipImage => seq![PortRole::Image, PortRole::Boolean, PortRole::Boolean],
        NodeTemplate::RotateImage => seq![PortRole::Image, PortRole::Integer],
    }
}

/// The kinds of the output ports of each template, in order.
pub open spec fn output_kinds(t: NodeTemplate) -> Seq<DataType> {
    match t {
        NodeTemplate::GrayScales => seq![DataType::Slice],
        NodeTemplate::FourierSpace => seq![DataType::Slice],
        NodeTemplate::ImageToSlice => seq![DataType::Slice, DataType::Slice, DataType::Slice],
        _ => seq![DataType::Image],
    }
}

/// The name shown for each port kind.
pub open spec fn kind_name_spec(k: DataType) -> Seq<char> {
    match k {
        DataType::Image => "image"@,
        DataType::Color => "color"@,
        DataType::Slice => "slice"@,
        DataType::Scalar => "scalar"@,
        DataType::Integer => "integer"@,
        DataType::Boolean => "boolean"@,
    }
}

/// The color in which ports of each kind are drawn.
pub open spec fn kind_color_spec(k: DataType) -> Rgb {
    match k {
        DataType::Image => Rgb { r: 38, g: 109, b: 211 },
        DataType::Color => Rgb { r: 238, g: 207, b: 109 },
        DataType::Slice => Rgb { r: 214, g: 65, b: 10 },
        DataType::Scalar => Rgb { r: 24, g: 165, b: 37 },
        DataType::Integer => Rgb { r: 24, g: 165, b: 37 },
        DataType::Boolean => Rgb { r: 24, g: 165, b: 37 },
    }
}

impl DataType {
    /// The name shown for ports of this kind.
    pub fn name(&self) -> (r: &'static str)
        ensures
            r@ == kind_name_spec(*self),
    {
        match self {
            DataType::Image => "image",
            DataType::Color => "color",
            DataType::Slice => "slice",
            DataType::Scalar => "scalar",
            DataType::Integer => "integer",
            DataType::Boolean => "boolean",
        }
    }

    /// The color in which ports of this kind are drawn.
    pub fn data_type_color(&self) -> (r: Rgb)
        ensures
            r == kind_color_spec(*self),
    {
        match self {
            DataType::Image => Rgb { r: 38, g: 109, b: 211 },
            DataType::Color => Rgb { r: 238, g: 207, b: 109 },
            DataType::Slice => Rgb { r: 214, g: 65, b: 10 },
            DataType::Scalar => Rgb { r: 24, g: 165, b: 37 },
            DataType::Integer => Rgb { r: 24, g: 165, b: 37 },
            DataType::Boolean => Rgb { r: 24, g: 165, b: 37 },
        }
    }
}

/// The name the node finder shows for each template.
pub open spec fn label_spec(t: NodeTemplate) -> Seq<char> {
    match t {
        NodeTemplate::ImageFetcher => "Image fetcher"@,
        NodeTemplate::GrayScales => "Gray scales"@,
        NodeTemplate::ImageToSlice => "Image to RGB Slice"@,
        NodeTemplate::SliceToImage => "RGB Slice to Image"@,
        NodeTemplate::FourierSpace => "Fourier space"@,
        NodeTemplate::GaussianBlur => "Gaussian blur"@,
        NodeTemplate::BrightenImage => "Brighten Image"@,
        NodeTemplate::ContrastImage => "Contrast Image"@,
        NodeTemplate::InvertImage => "Invert Image"@,
        NodeTemplate::HueRotate => "Hue Rotate"@,
        NodeTemplate::FlipImage => "Flip Image"@,
        NodeTemplate::RotateImage => "Rotate Image"@,
    }
}

fn black_pixel() -> (r: ColorImage)
    ensures
        r@ == black_pixel_model(),
        r.wf(),
{
    let size: (usize, usize) = (1, 1);
    assert(size.0 * size.1 == 1);
    let r = ColorImage::new(size, Rgb { r: 0, g: 0, b: 0 });
    assert(r@.pixels =~= seq![Rgb { r: 0, g: 0, b: 0 }]);
    r
}

impl PortRole {
    pub fn data_type(&self) -> (r: DataType)
        ensures
            r == role_kind(*self),
    {
        match self {
            PortRole::Fetched => DataType::Image,
            PortRole::Image => DataType::Image,
            PortRole::Slice { .. } => DataType::Slice,
            PortRole::Scalar => DataType::Scalar,
            PortRole::Integer => DataType::Integer,
            PortRole::Boolean => DataType::Boolean,
        }
    }

    pub fn policy(&self) -> (r: InputParamKind)
        ensures
            r == role_policy(*self),
    {
        match self {
            PortRole::Image => InputParamKind::ConnectionOnly,
            PortRole::Slice { .. } => InputParamKind::ConnectionOnly,
            _ => InputParamKind::ConstantOnly,
        }
    }

    /// The value a fresh port of this role holds.
    pub fn default_value(&self) -> (r: Value)
        ensures
            r@ == role_default(*self),
    {
        match self {
            PortRole::Fetched => Value::ImageFetcher { value: black_pixel() },
            PortRole::Image => Value::Image { value: black_pixel() },
            PortRole::Slice { color } => {
                let s = ImageSlice::new(*color, (1, 1));
                assert(s@.pixels =~= seq![0u8]);
                Value::Slice { value: s }
            },
            PortRole::Scalar => Value::Scalar { bits: 0 },
            PortRole::Integer => Value::Integer { value: 0 },
            PortRole::Boolean => Value::Boolean { value: false },
        }
    }
}

impl NodeTemplate {
    /// The name shown in the node finder.
    pub fn node_finder_label(&self) -> (r: &'static str)
        ensures
            r@ == label_spec(*self),
    {
        match self {
            NodeTemplate::ImageFetcher => "Image fetcher",
            NodeTemplate::GrayScales => "Gray scales",
            NodeTemplate::ImageToSlice => "Image to RGB Slice",
            NodeTemplate::SliceToImage => "RGB Slice to Image",
            NodeTemplate::FourierSpace => "Fourier space",
            NodeTemplate::GaussianBlur => "Gaussian blur",
            NodeTemplate::BrightenImage => "Brighten Image",
            NodeTemplate::ContrastImage => "Contrast Image",
            NodeTemplate::InvertImage => "Invert Image",
            NodeTemplate::HueRotate => "Hue Rotate",
            NodeTemplate::FlipImage => "Flip Image",
            NodeTemplate::RotateImage => "Rotate Image",
        }
    }

    /// The title a node of this template shows: its finder label.
    pub fn node_graph_label(&self) -> (r: String)
        ensures
            r@ == label_spec(*self),
    {
        self.node_finder_label().to_owned()
    }

    /// The input ports a node of this template is built with, in order.
    pub fn input_roles(&self) -> (r: Vec<PortRole>)
        ensures
            r@ == input_roles(*self),
    {
        let r = match self {
            NodeTemplate::ImageFetcher => vec![PortRole::Fetched],
            NodeTemplate::GrayScales => vec![PortRole::Image],
            NodeTemplate::ImageToSlice => vec![PortRole::Image],
            NodeTemplate::SliceToImage => vec![
                PortRole::Slice { color: SliceColor::Red },
                PortRole::Slice { color: SliceColor::Green },
                PortRole::Slice { color: SliceColor::Blue },
            ],
            NodeTemplate::FourierSpace => vec![PortRole::Slice { color: SliceColor::Gray }],
            NodeTemplate::GaussianBlur => vec![PortRole::Image, PortRole::Scalar],
            NodeTemplate::BrightenImage => vec![PortRole::Image, PortRole::Scalar],
            NodeTemplate::ContrastImage => vec![PortRole::Image, PortRole::Scalar],
            NodeTemplate::HueRotate => vec![PortRole::Image, PortRole::Scalar],
            NodeTemplate::InvertImage => vec![PortRole::Image],
            NodeTemplate::FlipImage => vec![PortRole::Image, PortRole::Boolean, PortRole::Boolean],
            NodeTemplate::RotateImage => vec![PortRole::Image, PortRole::Integer],
        };
        assert(r@ =~= input_roles(*self));
        r
    }

    /// The kinds of the output ports a node of this template is built
    /// with, in order.
    pub fn output_kinds(&self) -> (r: Vec<DataType>)
        ensures
            r@ == output_kinds(*self),
    {
        let r = match self {
            NodeTemplate::GrayScales => vec![DataType::Slice],
            NodeTemplate::FourierSpace => vec![DataType::Slice],
            NodeTemplate::ImageToSlice => vec![DataType::Slice, DataType::Slice, DataType::Slice],
            _ => vec![DataType::Image],
        };
        assert(r@ =~= output_kinds(*self));
        r
    }
}

/// The list of templates that the node finder offers.
pub struct AllNodeTemplates;

impl AllNodeTemplates {
    /// Every template, in the order the node finder lists them.
    pub fn all_kinds(&self) -> (r: Vec<NodeTemplate>)
        ensures
            r@.len() == 12,
            forall|t: NodeTemplate| r@.contains(t),
            r@.no_duplicates(),
    {
        all_kinds()
    }
}

/// Every template, in the order the node finder lists them.
pub fn all_kinds() -> (r: Vec<NodeTemplate>)
    ensures
        r@.len() == 12,
        forall|t: NodeTemplate| r@.contains(t),
        r@.no_duplicates(),
{
    let r = vec![
        NodeTemplate::ImageFetcher,
        NodeTemplate::GrayScales,
        NodeTemplate::GaussianBlur,
        NodeTemplate::FourierSpace,
        NodeTemplate::SliceToImage,
        NodeTemplate::ImageToSlice,
        NodeTemplate::BrightenImage,
        NodeTemplate::ContrastImage,
        NodeTemplate::InvertImage,
        NodeTemplate::HueRotate,
        NodeTemplate::FlipImage,
        NodeTemplate::RotateImage,
    ];
    assert forall|t: NodeTemplate| r@.contains(t) by {
        match t {
            NodeTemplate::ImageFetcher => assert(r@[0] == t),
            NodeTemplate::GrayScales => assert(r@[1] == t),
            NodeTemplate::GaussianBlur => assert(r@[2] == t),
            NodeTemplate::FourierSpace => assert(r@[3] == t),
            NodeTemplate::SliceToImage => assert(r@[4] == t),
            NodeTemplate::ImageToSlice => assert(r@[5] == t),
            NodeTemplate::BrightenImage => assert(r@[6] == t),
            NodeTemplate::ContrastImage => assert(r@[7] == t),
            NodeTemplate::InvertImage => assert(r@[8] == t),
            NodeTemplate::HueRotate => assert(r@[9] == t),
            NodeTemplate::FlipImage => assert(r@[10] == t),
            NodeTemplate::RotateImage => assert(r@[11] == t),
        }
    }
    r
}

} // verus!
