//! Pull evaluation of a graph: each node resolves its inputs (following a
//! wire to its source, which is evaluated first if need be, or reading the
//! inline value), computes its outputs once, and caches them for the pass.

use vstd::prelude::*;
use crate::catalog::{input_roles, output_kinds, role_default, NodeTemplate};
use crate::graph::Graph;
use crate::image::{ColorImage, ImageModel, ImageSlice, SliceColor, SliceModel};
use crate::transform::{
    channels_to_image, flip_image, flip_spec, gray_spec, image_to_channels, image_to_gray,
    invert_colors_image, invert_spec, merge_spec, merged_size, quarter_turns, rotate_image,
    rotate_spec, split_spec,
};
use crate::value::{image_of, slice_of, EvalError, Value, ValueModel};

verus! {

/// The transforms whose arithmetic is floating point: a caller supplies
/// them, and the evaluator only routes values to and from them. Each is to
/// keep its input's size (and a slice's color); the evaluator checks that
/// and reports `TransformFault` otherwise. A scalar argument is the bit
/// pattern of an IEEE-754 single-precision number.
pub trait Kernels {
    /// The centered 2D Fourier spectrum of a slice.
    fn fourier(&mut self, slice: &ImageSlice) -> ImageSlice;

    /// Gaussian blur with standard deviation `sigma`.
    fn blur(&mut self, image: &ColorImage, sigma: u32) -> ColorImage;

    /// Every channel raised by `amount` (a fraction of full scale).
    fn brighten(&mut self, image: &ColorImage, amount: u32) -> ColorImage;

    /// Channels spread around the middle gray by `amount` percent.
    fn contrast(&mut self, image: &ColorImage, amount: u32) -> ColorImage;

    /// Hue turned by `amount` degrees.
    fn hue_rotate(&mut self, image: &ColorImage, amount: u32) -> ColorImage;
}

pub open spec fn views(s: Seq<Value>) -> Seq<ValueModel> {
    s.map_values(|v: Value| v@)
}

/// Whether an image can go through the gray conversion: its sizes fit the
/// codec's 32-bit fields and its bytes fit in memory.
pub open spec fn gray_fits(i: ImageModel) -> bool {
    i.width <= u32::MAX && i.height <= u32::MAX && 3 * i.pixels.len() <= usize::MAX
}

pub open spec fn mismatch(r: Result<Seq<ValueModel>, EvalError>) -> bool {
    r == Err::<Seq<ValueModel>, EvalError>(EvalError::TypeMismatch)
}

pub open spec fn gives(r: Result<Seq<ValueModel>, EvalError>, outs: Seq<ValueModel>) -> bool {
    r == Ok::<Seq<ValueModel>, EvalError>(outs)
}

/// What a floating-point transform of image `i` may yield: one image of
/// the same size, or a fault when the transform changed the size.
pub open spec fn kernel_image(r: Result<Seq<ValueModel>, EvalError>, i: ImageModel) -> bool {
    r == Err::<Seq<ValueModel>, EvalError>(EvalError::TransformFault) || (r is Ok && r->Ok_0.len()
        == 1 && match r->Ok_0[0] {
        ValueModel::Image(t) => t.width == i.width && t.height == i.height,
        _ => false,
    })
}

/// What the spectrum of slice `s` may yield: one slice of the same size
/// and color, or a fault when the transform changed either.
pub open spec fn kernel_slice(r: Result<Seq<ValueModel>, EvalError>, s: SliceModel) -> bool {
    r == Err::<Seq<ValueModel>, EvalError>(EvalError::TransformFault) || (r is Ok && r->Ok_0.len()
        == 1 && match r->Ok_0[0] {
        ValueModel::Slice(t) => t.width == s.width && t.height == s.height && t.color == s.color,
        _ => false,
    })
}

/// Every value is well formed.
pub open spec fn all_wf(s: Seq<Value>) -> bool {
    forall|k: int| 0 <= k < s.len() ==> #[trigger] s[k].wf()
}

/// What a node of template `t` yields from input values `ins`, taken in
/// the template's order: each input is read as the kind the node needs,
/// a failed read is a type mismatch, and the rest is the node's transform.
pub open spec fn computes(
    t: NodeTemplate,
    ins: Seq<ValueModel>,
    r: Result<Seq<ValueModel>, EvalError>,
) -> bool {
    if ins.len() < input_roles(t).len() {
        r == Err::<Seq<ValueModel>, EvalError>(EvalError::MissingPort)
    } else {
        match t {
            NodeTemplate::ImageFetcher => match image_of(ins[0]) {
                Some(i) => gives(r, seq![ValueModel::Image(i)]),
                None => mismatch(r),
            },
            NodeTemplate::GrayScales => match image_of(ins[0]) {
                Some(i) => if gray_fits(i) {
                    gives(r, seq![ValueModel::Slice(gray_spec(i))])
                } else {
                    r == Err::<Seq<ValueModel>, EvalError>(EvalError::TooLarge)
                },
                None => mismatch(r),
            },
            NodeTemplate::ImageToSlice => match image_of(ins[0]) {
                Some(i) => gives(
                    r,
                    seq![
                        ValueModel::Slice(split_spec(i).0),
                        ValueModel::Slice(split_spec(i).1),
                        ValueModel::Slice(split_spec(i).2),
                    ],
                ),
                None => mismatch(r),
            },
            NodeTemplate::SliceToImage => match (
                slice_of(ins[0], Some(SliceColor::Red)),
                slice_of(ins[1], Some(SliceColor::Green)),
                slice_of(ins[2], Some(SliceColor::Blue)),
            ) {
                (Some(a), Some(b), Some(c)) => {
                    let m = merge_spec(a, b, c);
                    if m.width * m.height <= usize::MAX {
                        gives(r, seq![ValueModel::Image(m)])
                    } else {
                        r == Err::<Seq<ValueModel>, EvalError>(EvalError::TooLarge)
                    }
                },
                _ => mismatch(r),
            },
            NodeTemplate::FourierSpace => match slice_of(ins[0], None) {
                Some(s) => kernel_slice(r, s),
                None => mismatch(r),
            },
            NodeTemplate::GaussianBlur | NodeTemplate::BrightenImage | NodeTemplate::ContrastImage
            | NodeTemplate::HueRotate => match (image_of(ins[0]), ins[1]) {
                (Some(i), ValueModel::Scalar(_)) => kernel_image(r, i),
                _ => mismatch(r),
            },
            NodeTemplate::InvertImage => match image_of(ins[0]) {
                Some(i) => gives(r, seq![ValueModel::Image(invert_spec(i))]),
                None => mismatch(r),
            },
            NodeTemplate::FlipImage => match (image_of(ins[0]), ins[1], ins[2]) {
                (Some(i), ValueModel::Boolean(h), ValueModel::Boolean(v)) => gives(
                    r,
                    seq![ValueModel::Image(flip_spec(i, h, v))],
                ),
                _ => mismatch(r),
            },
            NodeTemplate::RotateImage => match (image_of(ins[0]), ins[1]) {
                (Some(i), ValueModel::Integer(q)) => gives(
                    r,
                    seq![ValueModel::Image(rotate_spec(i, quarter_turns(q)))],
                ),
                _ => mismatch(r),
            },
        }
    }
}

pub open spec fn result_view(r: Result<Vec<Value>, EvalError>) -> Result<Seq<ValueModel>, EvalError> {
    match r {
        Ok(v) => Ok(views(v@)),
        Err(e) => Err(e),
    }
}

fn one(v: Value) -> (r: Result<Vec<Value>, EvalError>)
    ensures
        result_view(r) == Ok::<Seq<ValueModel>, EvalError>(seq![v@]),
        r is Ok && r->Ok_0@ == seq![v],
{
    let mut out: Vec<Value> = Vec::new();
    let ghost m = v@;
    out.push(v);
    assert(views(out@) =~= seq![m]);
    assert(out@ =~= seq![v]);
    Ok(out)
}

fn fail(e: EvalError) -> (r: Result<Vec<Value>, EvalError>)
    ensures
        result_view(r) == Err::<Seq<ValueModel>, EvalError>(e),
{
    Err(e)
}

fn compute_fetch(ins: &Vec<Value>) -> (r: Result<Vec<Value>, EvalError>)
    requires
        ins@.len() >= 1,
        all_wf(ins@),
    ensures
        computes(NodeTemplate::ImageFetcher, views(ins@), result_view(r)),
        r is Ok ==> all_wf(r->Ok_0@) && r->Ok_0@.len() == output_kinds(NodeTemplate::ImageFetcher).len(),
        r is Err ==> node_error(r->Err_0),
{
    let ghost vs = views(ins@);
    assert(vs[0] == ins@[0]@);
    match ins[0].try_to_image() {
        Ok(i) => one(Value::Image { value: i }),
        Err(e) => fail(e),
    }
}

fn compute_gray(ins: &Vec<Value>) -> (r: Result<Vec<Value>, EvalError>)
    requires
        ins@.len() >= 1,
        all_wf(ins@),
    ensures
        computes(NodeTemplate::GrayScales, views(ins@), result_view(r)),
        r is Ok ==> all_wf(r->Ok_0@) && r->Ok_0@.len() == output_kinds(NodeTemplate::GrayScales).len(),
        r is Err ==> node_error(r->Err_0),
{
    let ghost vs = views(ins@);
    assert(vs[0] == ins@[0]@);
    match ins[0].try_to_image() {
        Ok(i) => {
            let n = i.pixels.len();
            if i.size.0 <= 0xffff_ffff && i.size.1 <= 0xffff_ffff && n <= usize::MAX / 3 {
                one(Value::Slice { value: image_to_gray(&i) })
            } else {
                fail(EvalError::TooLarge)
            }
        },
        Err(e) => fail(e),
    }
}

fn compute_split(ins: &Vec<Value>) -> (r: Result<Vec<Value>, EvalError>)
    requires
        ins@.len() >= 1,
        all_wf(ins@),
    ensures
        computes(NodeTemplate::ImageToSlice, views(ins@), result_view(r)),
        r is Ok ==> all_wf(r->Ok_0@) && r->Ok_0@.len() == output_kinds(NodeTemplate::ImageToSlice).len(),
        r is Err ==> node_error(r->Err_0),
{
    let ghost vs = views(ins@);
    assert(vs[0] == ins@[0]@);
    match ins[0].try_to_image() {
        Ok(i) => {
            let (a, b, c) = image_to_channels(&i);
            let ghost ms = seq![a@, b@, c@];
            let mut out: Vec<Value> = Vec::new();
            out.push(Value::Slice { value: a });
            out.push(Value::Slice { value: b });
            out.push(Value::Slice { value: c });
            assert(views(out@) =~= seq![
                ValueModel::Slice(ms[0]),
                ValueModel::Slice(ms[1]),
                ValueModel::Slice(ms[2]),
            ]);
            Ok(out)
        },
        Err(e) => fail(e),
    }
}

fn compute_merge(ins: &Vec<Value>) -> (r: Result<Vec<Value>, EvalError>)
    requires
        ins@.len() >= 3,
        all_wf(ins@),
    ensures
        computes(NodeTemplate::SliceToImage, views(ins@), result_view(r)),
        r is Ok ==> all_wf(r->Ok_0@) && r->Ok_0@.len() == output_kinds(NodeTemplate::SliceToImage).len(),
        r is Err ==> node_error(r->Err_0),
{
    let ghost vs = views(ins@);
    assert(vs[0] == ins@[0]@ && vs[1] == ins@[1]@ && vs[2] == ins@[2]@);
    let a = match ins[0].try_to_slice(Some(SliceColor::Red)) {
        Ok(s) => s,
        Err(e) => return fail(e),
    };
    let b = match ins[1].try_to_slice(Some(SliceColor::Green)) {
        Ok(s) => s,
        Err(e) => return fail(e),
    };
    let c = match ins[2].try_to_slice(Some(SliceColor::Blue)) {
        Ok(s) => s,
        Err(e) => return fail(e),
    };
    match merged_size(&a, &b, &c) {
        Some(_) => one(Value::Image { value: channels_to_image(&a, &b, &c) }),
        None => fail(EvalError::TooLarge),
    }
}

fn compute_fourier<K: Kernels>(ins: &Vec<Value>, kernels: &mut K) -> (r: Result<Vec<Value>, EvalError>)
    requires
        ins@.len() >= 1,
        all_wf(ins@),
    ensures
        computes(NodeTemplate::FourierSpace, views(ins@), result_view(r)),
        r is Ok ==> all_wf(r->Ok_0@) && r->Ok_0@.len() == output_kinds(NodeTemplate::FourierSpace).len(),
        r is Err ==> node_error(r->Err_0),
{
    let ghost vs = views(ins@);
    assert(vs[0] == ins@[0]@);
    match ins[0].try_to_slice(None) {
        Ok(s) => {
            let out = kernels.fourier(&s);
            if out.size.0 == s.size.0 && out.size.1 == s.size.1 && out.color == s.color
                && out.is_well_formed() {
                one(Value::Slice { value: out })
            } else {
                fail(EvalError::TransformFault)
            }
        },
        Err(e) => fail(e),
    }
}

/// The four transforms that take an image and a scalar.
fn compute_scalar_op<K: Kernels>(t: NodeTemplate, ins: &Vec<Value>, kernels: &mut K) -> (r: Result<
    Vec<Value>,
    EvalError,
>)
    requires
        ins@.len() >= 2,
        all_wf(ins@),
        t == NodeTemplate::GaussianBlur || t == NodeTemplate::BrightenImage || t
            == NodeTemplate::ContrastImage || t == NodeTemplate::HueRotate,
    ensures
        computes(t, views(ins@), result_view(r)),
        r is Ok ==> all_wf(r->Ok_0@) && r->Ok_0@.len() == output_kinds(t).len(),
        r is Err ==> node_error(r->Err_0),
{
    let ghost vs = views(ins@);
    assert(vs[0] == ins@[0]@ && vs[1] == ins@[1]@);
    assert(ins@[0].wf());
    let i = match ins[0].try_to_image() {
        Ok(i) => i,
        Err(e) => return fail(e),
    };
    let s = match ins[1].try_to_scalar() {
        Ok(s) => s,
        Err(e) => return fail(e),
    };
    let out = match t {
        NodeTemplate::GaussianBlur => kernels.blur(&i, s),
        NodeTemplate::BrightenImage => kernels.brighten(&i, s),
        NodeTemplate::ContrastImage => kernels.contrast(&i, s),
        _ => kernels.hue_rotate(&i, s),
    };
    if out.size.0 == i.size.0 && out.size.1 == i.size.1 && out.is_well_formed() {
        one(Value::Image { value: out })
    } else {
        fail(EvalError::TransformFault)
    }
}

fn compute_invert(ins: &Vec<Value>) -> (r: Result<Vec<Value>, EvalError>)
    requires
        ins@.len() >= 1,
        all_wf(ins@),
    ensures
        computes(NodeTemplate::InvertImage, views(ins@), result_view(r)),
        r is Ok ==> all_wf(r->Ok_0@) && r->Ok_0@.len() == output_kinds(NodeTemplate::InvertImage).len(),
        r is Err ==> node_error(r->Err_0),
{
    let ghost vs = views(ins@);
    assert(vs[0] == ins@[0]@);
    match ins[0].try_to_image() {
        Ok(i) => one(Value::Image { value: invert_colors_image(&i) }),
        Err(e) => fail(e),
    }
}

fn compute_flip(ins: &Vec<Value>) -> (r: Result<Vec<Value>, EvalError>)
    requires
        ins@.len() >= 3,
        all_wf(ins@),
    ensures
        computes(NodeTemplate::FlipImage, views(ins@), result_view(r)),
        r is Ok ==> all_wf(r->Ok_0@) && r->Ok_0@.len() == output_kinds(NodeTemplate::FlipImage).len(),
        r is Err ==> node_error(r->Err_0),
{
    let ghost vs = views(ins@);
    assert(vs[0] == ins@[0]@ && vs[1] == ins@[1]@ && vs[2] == ins@[2]@);
    let i = match ins[0].try_to_image() {
        Ok(i) => i,
        Err(e) => return fail(e),
    };
    let h = match ins[1].try_to_boolean() {
        Ok(h) => h,
        Err(e) => return fail(e),
    };
    let v = match ins[2].try_to_boolean() {
        Ok(v) => v,
        Err(e) => return fail(e),
    };
    one(Value::Image { value: flip_image(&i, h, v) })
}

fn compute_rotate(ins: &Vec<Value>) -> (r: Result<Vec<Value>, EvalError>)
    requires
        ins@.len() >= 2,
        all_wf(ins@),
    ensures
        computes(NodeTemplate::RotateImage, views(ins@), result_view(r)),
        r is Ok ==> all_wf(r->Ok_0@) && r->Ok_0@.len() == output_kinds(NodeTemplate::RotateImage).len(),
        r is Err ==> node_error(r->Err_0),
{
    let ghost vs = views(ins@);
    assert(vs[0] == ins@[0]@ && vs[1] == ins@[1]@);
    let i = match ins[0].try_to_image() {
        Ok(i) => i,
        Err(e) => return fail(e),
    };
    let q = match ins[1].try_to_integer() {
        Ok(q) => q,
        Err(e) => return fail(e),
    };
    one(Value::Image { value: rotate_image(&i, q) })
}

/// Run the transform of template `t` on input values `ins`.
pub fn compute_node<K: Kernels>(t: NodeTemplate, ins: &Vec<Value>, kernels: &mut K) -> (r: Result<
    Vec<Value>,
    EvalError,
>)
    requires
        all_wf(ins@),
    ensures
        computes(t, views(ins@), result_view(r)),
        r is Ok ==> all_wf(r->Ok_0@) && r->Ok_0@.len() == output_kinds(t).len(),
        r is Err ==> node_error(r->Err_0),
{
    let roles = t.input_roles();
    if ins.len() < roles.len() {
        return fail(EvalError::MissingPort);
    }
    match t {
        NodeTemplate::ImageFetcher => compute_fetch(ins),
        NodeTemplate::GrayScales => compute_gray(ins),
        NodeTemplate::ImageToSlice => compute_split(ins),
        NodeTemplate::SliceToImage => compute_merge(ins),
        NodeTemplate::FourierSpace => compute_fourier(ins, kernels),
        NodeTemplate::GaussianBlur | NodeTemplate::BrightenImage | NodeTemplate::ContrastImage
        | NodeTemplate::HueRotate => compute_scalar_op(t, ins, kernels),
        NodeTemplate::InvertImage => compute_invert(ins),
        NodeTemplate::FlipImage => compute_flip(ins),
        NodeTemplate::RotateImage => compute_rotate(ins),
    }
}

/// Where a node stands in the current pass.
#[derive(Clone, Copy, PartialEq, Eq, Structural, Debug)]
pub enum NodeStatus {
    Unvisited,
    /// Its inputs are being resolved.
    InProgress,
    /// Its outputs are in the cache.
    Done,
    Failed { error: EvalError },
}

pub open spec fn settled(s: NodeStatus) -> bool {
    s is Done || s is Failed
}

/// The state of one evaluation pass: the output cache (one slot per output
/// port), each node's status, and the nodes whose transform ran, in order.
#[derive(Debug)]
pub struct Evaluation {
    pub cache: Vec<Option<Value>>,
    pub status: Vec<NodeStatus>,
    pub computed: Vec<usize>,
}

/// The value input `i` resolves to: the cached value of the output wired
/// into it, or its inline value when unwired.
pub open spec fn resolved_input(g: &Graph, cache: Seq<Option<Value>>, i: int) -> ValueModel {
    match g.inputs@[i].connection {
        Some(o) => cache[o as int]->Some_0@,
        None => g.inputs@[i].value@,
    }
}

/// Input `i` is unwired, or the output wired into it is cached.
pub open spec fn input_ready(g: &Graph, cache: Seq<Option<Value>>, i: int) -> bool {
    match g.inputs@[i].connection {
        Some(o) => cache[o as int] is Some,
        None => true,
    }
}

pub open spec fn node_inputs(g: &Graph, cache: Seq<Option<Value>>, n: int) -> Seq<ValueModel> {
    Seq::new(
        g.nodes@[n].inputs@.len(),
        |k: int| resolved_input(g, cache, g.nodes@[n].inputs@[k] as int),
    )
}

pub open spec fn node_outputs(g: &Graph, cache: Seq<Option<Value>>, n: int) -> Seq<ValueModel> {
    Seq::new(g.nodes@[n].outputs@.len(), |k: int| cache[g.nodes@[n].outputs@[k] as int]->Some_0@)
}

/// Node `n`'s outputs are cached and are what its template computes from
/// its resolved inputs.
pub open spec fn node_done(g: &Graph, cache: Seq<Option<Value>>, n: int) -> bool {
    &&& forall|k: int|
        0 <= k < g.nodes@[n].inputs@.len() ==> input_ready(
            g,
            cache,
            #[trigger] g.nodes@[n].inputs@[k] as int,
        )
    &&& forall|k: int|
        0 <= k < g.nodes@[n].outputs@.len() ==> cache[#[trigger] g.nodes@[n].outputs@[k] as int] is Some
    &&& computes(
        g.nodes@[n].template,
        node_inputs(g, cache, n),
        Ok::<Seq<ValueModel>, EvalError>(node_outputs(g, cache, n)),
    )
}

/// Input `i` is wired to an output of a node that failed.
pub open spec fn upstream_failed(g: &Graph, status: Seq<NodeStatus>, i: int) -> bool {
    match g.inputs@[i].connection {
        Some(o) => status[g.outputs@[o as int].node as int] is Failed,
        None => false,
    }
}

/// Input `i` of node `n` is wired back to `n` itself, or to a node that
/// is still being evaluated, or (unless `strict`) to one that failed.
pub open spec fn loops_back(g: &Graph, status: Seq<NodeStatus>, i: int, n: int, strict: bool) -> bool {
    match g.inputs@[i].connection {
        Some(o) => {
            let src = g.outputs@[o as int].node as int;
            src == n || status[src] is InProgress || (!strict && status[src] is Failed)
        },
        None => false,
    }
}

/// Every input of node `n` is ready.
pub open spec fn inputs_ready(g: &Graph, cache: Seq<Option<Value>>, n: int) -> bool {
    forall|k: int|
        0 <= k < g.nodes@[n].inputs@.len() ==> input_ready(
            g,
            cache,
            #[trigger] g.nodes@[n].inputs@[k] as int,
        )
}

/// The errors a node's own computation can give.
pub open spec fn node_error(e: EvalError) -> bool {
    e is TypeMismatch || e is TooLarge || e is TransformFault || e is MissingPort
}

/// Why node `n` may have failed with `e`: an input is wired from a failed
/// node; or an input is wired back to `n` or into a node under evaluation
/// (a cycle; once that node has settled it has failed too); or all inputs
/// resolved and the node's template gives `e` on them, or the node lists
/// another number of outputs than its template.
pub open spec fn failure_explained(
    g: &Graph,
    cache: Seq<Option<Value>>,
    status: Seq<NodeStatus>,
    n: int,
    e: EvalError,
    strict: bool,
) -> bool {
    let node = g.nodes@[n];
    if e is UpstreamFailure {
        exists|k: int|
            0 <= k < node.inputs@.len() && upstream_failed(g, status, #[trigger] node.inputs@[k] as int)
    } else if e is Cycle {
        exists|k: int|
            0 <= k < node.inputs@.len() && loops_back(
                g,
                status,
                #[trigger] node.inputs@[k] as int,
                n,
                strict,
            )
    } else {
        inputs_ready(g, cache, n) && (computes(
            node.template,
            node_inputs(g, cache, n),
            Err::<Seq<ValueModel>, EvalError>(e),
        ) || (e is MissingPort && node.outputs@.len() != output_kinds(node.template).len()))
    }
}

/// The wires of `g` run from lower to higher ranks of their nodes.
pub open spec fn ranked(g: &Graph, rank: spec_fn(int) -> int) -> bool {
    forall|i: int|
        0 <= i < g.inputs@.len() ==> match #[trigger] g.inputs@[i].connection {
            Some(o) => rank(g.outputs@[o as int].node as int) < rank(g.inputs@[i].node as int),
            None => true,
        }
}

/// No chain of wires leads from a node back to itself.
pub open spec fn acyclic(g: &Graph) -> bool {
    exists|rank: spec_fn(int) -> int| ranked(g, rank)
}

/// A ranking of the nodes of an acyclic graph.
pub open spec fn graph_rank(g: &Graph) -> spec_fn(int) -> int {
    choose|rank: spec_fn(int) -> int| ranked(g, rank)
}

/// No node has failed with `Cycle`.
pub open spec fn no_cycle_failure(status: Seq<NodeStatus>) -> bool {
    forall|m: int|
        0 <= m < status.len() ==> #[trigger] status[m] != NodeStatus::Failed { error: EvalError::Cycle }
}

/// Every node under evaluation ranks at least as high as node `n`.
pub open spec fn stack_above(g: &Graph, status: Seq<NodeStatus>, n: int, strict: bool) -> bool {
    forall|x: int|
        0 <= x < status.len() && #[trigger] status[x] is InProgress ==> if strict {
            graph_rank(g)(x) > graph_rank(g)(n)
        } else {
            graph_rank(g)(x) >= graph_rank(g)(n)
        }
}

/// The number of unvisited nodes.
pub open spec fn unvisited_count(s: Seq<NodeStatus>) -> nat
    decreases s.len(),
{
    if s.len() == 0 {
        0
    } else {
        unvisited_count(s.drop_last()) + if s.last() is Unvisited {
            1nat
        } else {
            0nat
        }
    }
}

proof fn lemma_unvisited_le_len(s: Seq<NodeStatus>)
    ensures
        unvisited_count(s) <= s.len(),
    decreases s.len(),
{
    if s.len() > 0 {
        lemma_unvisited_le_len(s.drop_last());
    }
}

proof fn lemma_unvisited_pos(s: Seq<NodeStatus>, i: int)
    requires
        0 <= i < s.len(),
        s[i] is Unvisited,
    ensures
        unvisited_count(s) >= 1,
    decreases s.len(),
{
    if i < s.len() - 1 {
        lemma_unvisited_pos(s.drop_last(), i);
    }
}

proof fn lemma_unvisited_mono(a: Seq<NodeStatus>, b: Seq<NodeStatus>)
    requires
        a.len() == b.len(),
        forall|i: int| 0 <= i < b.len() && #[trigger] b[i] is Unvisited ==> a[i] is Unvisited,
    ensures
        unvisited_count(b) <= unvisited_count(a),
    decreases a.len(),
{
    if a.len() > 0 {
        let a2 = a.drop_last();
        let b2 = b.drop_last();
        assert forall|i: int| 0 <= i < b2.len() && #[trigger] b2[i] is Unvisited implies a2[i] is Unvisited by {
            assert(b[i] is Unvisited);
        }
        lemma_unvisited_mono(a2, b2);
    }
}

proof fn lemma_unvisited_mark(a: Seq<NodeStatus>, n: int, x: NodeStatus)
    requires
        0 <= n < a.len(),
        a[n] is Unvisited,
        !(x is Unvisited),
    ensures
        unvisited_count(a.update(n, x)) + 1 == unvisited_count(a),
    decreases a.len(),
{
    let b = a.update(n, x);
    if n == a.len() - 1 {
        assert(b.drop_last() =~= a.drop_last());
    } else {
        assert(b.drop_last() =~= a.drop_last().update(n, x));
        lemma_unvisited_mark(a.drop_last(), n, x);
    }
}

proof fn lemma_unvisited_extends(a: &Evaluation, b: &Evaluation)
    requires
        b.extends(a),
    ensures
        unvisited_count(b.status@) <= unvisited_count(a.status@),
{
    assert forall|i: int| 0 <= i < b.status@.len() && #[trigger] b.status@[i] is Unvisited implies a.status@[i] is Unvisited by {
        if settled(a.status@[i]) {
        } else if a.status@[i] is InProgress {
        }
    }
    lemma_unvisited_mono(a.status@, b.status@);
}

impl Evaluation {
    /// Only finished nodes have cached outputs, and those are well formed
    /// and what the node computes; every failure has a reason; the log of
    /// computed nodes has no repeats and holds every finished node.
    pub open spec fn wf(&self, g: &Graph) -> bool {
        &&& self.cache@.len() == g.outputs@.len()
        &&& self.status@.len() == g.nodes@.len()
        &&& forall|o: int|
            0 <= o < self.cache@.len() && #[trigger] self.cache@[o] is Some ==> self.status@[g.outputs@[o].node as int] is Done
                && self.cache@[o]->Some_0.wf()
        &&& forall|n: int|
            0 <= n < self.status@.len() && #[trigger] self.status@[n] is Done ==> node_done(g, self.cache@, n)
        &&& forall|n: int|
            0 <= n < self.status@.len() ==> match #[trigger] self.status@[n] {
                NodeStatus::Failed { error } => failure_explained(g, self.cache@, self.status@, n, error, false),
                _ => true,
            }
        &&& self.computed@.no_duplicates()
        &&& forall|j: int|
            0 <= j < self.computed@.len() ==> #[trigger] self.computed@[j] < self.status@.len()
                && settled(self.status@[self.computed@[j] as int])
        &&& forall|n: int|
            0 <= n < self.status@.len() && #[trigger] self.status@[n] is Done ==> self.computed@.contains(n as usize)
    }

    /// `self` is a later state of the same pass as `prev`: settled nodes
    /// and cached values stay, nodes in progress stay in progress, no node
    /// is newly left in progress, and the log only grows.
    pub open spec fn extends(&self, prev: &Evaluation) -> bool {
        &&& self.cache@.len() == prev.cache@.len()
        &&& self.status@.len() == prev.status@.len()
        &&& forall|n: int|
            0 <= n < prev.status@.len() && settled(#[trigger] prev.status@[n]) ==> self.status@[n]
                == prev.status@[n]
        &&& forall|n: int|
            0 <= n < prev.status@.len() && #[trigger] prev.status@[n] is InProgress ==> self.status@[n] is InProgress
        &&& forall|n: int|
            0 <= n < prev.status@.len() && #[trigger] prev.status@[n] is Unvisited ==> !(self.status@[n] is InProgress)
        &&& forall|o: int|
            0 <= o < prev.cache@.len() && #[trigger] prev.cache@[o] is Some ==> self.cache@[o] == prev.cache@[o]
        &&& prev.computed@.len() <= self.computed@.len()
        &&& self.computed@.take(prev.computed@.len() as int) == prev.computed@
    }

    /// A fresh pass over `g`: empty cache, every node unvisited.
    pub fn new(g: &Graph) -> (r: Evaluation)
        ensures
            r.wf(g),
            forall|o: int| 0 <= o < r.cache@.len() ==> #[trigger] r.cache@[o] is None,
            forall|n: int| 0 <= n < r.status@.len() ==> #[trigger] r.status@[n] is Unvisited,
            r.computed@.len() == 0,
    {
        let mut cache: Vec<Option<Value>> = Vec::new();
        for k in 0..g.outputs.len()
            invariant
                cache@.len() == k,
                forall|o: int| 0 <= o < k ==> #[trigger] cache@[o] is None,
        {
            cache.push(None);
        }
        let mut status: Vec<NodeStatus> = Vec::new();
        for k in 0..g.nodes.len()
            invariant
                status@.len() == k,
                forall|n: int| 0 <= n < k ==> #[trigger] status@[n] is Unvisited,
        {
            status.push(NodeStatus::Unvisited);
        }
        Evaluation { cache, status, computed: Vec::new() }
    }
}

proof fn lemma_extends_refl(a: &Evaluation)
    ensures
        a.extends(a),
{
    assert(a.computed@.take(a.computed@.len() as int) =~= a.computed@);
}

proof fn lemma_extends_trans(a: &Evaluation, b: &Evaluation, c: &Evaluation)
    requires
        b.extends(a),
        c.extends(b),
    ensures
        c.extends(a),
{
    assert(c.computed@.take(a.computed@.len() as int) =~= b.computed@.take(
        a.computed@.len() as int,
    ));
}

/// The resolved inputs of node `n` do not change as the cache grows.
proof fn lemma_inputs_stable(g: &Graph, c1: Seq<Option<Value>>, c2: Seq<Option<Value>>, n: int)
    requires
        g.wf(),
        0 <= n < g.nodes@.len(),
        c1.len() == g.outputs@.len(),
        c2.len() == c1.len(),
        forall|o: int| 0 <= o < c1.len() && #[trigger] c1[o] is Some ==> c2[o] == c1[o],
        inputs_ready(g, c1, n),
    ensures
        inputs_ready(g, c2, n),
        node_inputs(g, c2, n) == node_inputs(g, c1, n),
{
    let node = g.nodes@[n];
    assert forall|k: int| 0 <= k < node.inputs@.len() implies input_ready(
        g,
        c2,
        #[trigger] node.inputs@[k] as int,
    ) && resolved_input(g, c2, node.inputs@[k] as int) == resolved_input(
        g,
        c1,
        node.inputs@[k] as int,
    ) by {
        assert(input_ready(g, c1, node.inputs@[k] as int));
        let i = node.inputs@[k] as int;
        assert(0 <= i < g.inputs@.len());
        assert(g.inputs@[i].node < g.nodes@.len());
    }
    assert(node_inputs(g, c2, n) =~= node_inputs(g, c1, n));
}

/// A finished node stays finished as the cache grows.
proof fn lemma_node_done_stable(g: &Graph, c1: Seq<Option<Value>>, c2: Seq<Option<Value>>, n: int)
    requires
        g.wf(),
        0 <= n < g.nodes@.len(),
        c1.len() == g.outputs@.len(),
        c2.len() == c1.len(),
        forall|o: int| 0 <= o < c1.len() && #[trigger] c1[o] is Some ==> c2[o] == c1[o],
        node_done(g, c1, n),
    ensures
        node_done(g, c2, n),
{
    let node = g.nodes@[n];
    lemma_inputs_stable(g, c1, c2, n);
    assert forall|k: int| 0 <= k < node.outputs@.len() implies c2[#[trigger] node.outputs@[k] as int] == c1[node.outputs@[k] as int] by {
        assert(c1[node.outputs@[k] as int] is Some);
    }
    assert(node_outputs(g, c2, n) =~= node_outputs(g, c1, n));
}

/// A reason for a failure stays a reason as the pass goes on.
proof fn lemma_explained_stable(
    g: &Graph,
    c1: Seq<Option<Value>>,
    s1: Seq<NodeStatus>,
    c2: Seq<Option<Value>>,
    s2: Seq<NodeStatus>,
    n: int,
    e: EvalError,
)
    requires
        g.wf(),
        0 <= n < g.nodes@.len(),
        c1.len() == g.outputs@.len(),
        c2.len() == c1.len(),
        s1.len() == g.nodes@.len(),
        s2.len() == s1.len(),
        forall|o: int| 0 <= o < c1.len() && #[trigger] c1[o] is Some ==> c2[o] == c1[o],
        forall|m: int| 0 <= m < s1.len() && #[trigger] s1[m] is Failed ==> s2[m] is Failed,
        forall|m: int|
            0 <= m < s1.len() && #[trigger] s1[m] is InProgress ==> s2[m] is InProgress || s2[m] is Failed,
        failure_explained(g, c1, s1, n, e, false),
    ensures
        failure_explained(g, c2, s2, n, e, false),
{
    let node = g.nodes@[n];
    if e is UpstreamFailure {
        let k = choose|k: int|
            0 <= k < node.inputs@.len() && upstream_failed(g, s1, #[trigger] node.inputs@[k] as int);
        let i = node.inputs@[k] as int;
        assert(g.inputs@[i].node < g.nodes@.len());
        let o = g.inputs@[i].connection->Some_0;
        assert(g.outputs@[o as int].node < g.nodes@.len());
        assert(upstream_failed(g, s2, node.inputs@[k] as int));
    } else if e is Cycle {
        let k = choose|k: int|
            0 <= k < node.inputs@.len() && loops_back(g, s1, #[trigger] node.inputs@[k] as int, n, false);
        let i = node.inputs@[k] as int;
        assert(g.inputs@[i].node < g.nodes@.len());
        let o = g.inputs@[i].connection->Some_0;
        assert(g.outputs@[o as int].node < g.nodes@.len());
        assert(loops_back(g, s2, node.inputs@[k] as int, n, false));
    } else {
        lemma_inputs_stable(g, c1, c2, n);
    }
}

/// A strict reason for a failure is a reason.
proof fn lemma_strict_explains(
    g: &Graph,
    c: Seq<Option<Value>>,
    s: Seq<NodeStatus>,
    n: int,
    e: EvalError,
)
    requires
        failure_explained(g, c, s, n, e, true),
    ensures
        failure_explained(g, c, s, n, e, false),
{
    let node = g.nodes@[n];
    if e is Cycle {
        let k = choose|k: int|
            0 <= k < node.inputs@.len() && loops_back(g, s, #[trigger] node.inputs@[k] as int, n, true);
        assert(loops_back(g, s, node.inputs@[k] as int, n, false));
    }
}

/// Resolve input `i`: the inline value when unwired; otherwise the cached
/// value of the output wired in, evaluating that output's node first when
/// it has not been visited. Fails with `UpstreamFailure` when that node
/// failed, and with `Cycle` when it is still being evaluated (the input
/// depends on itself). A lookup changes nothing.
pub fn evaluate_input<K: Kernels>(
    g: &Graph,
    i: usize,
    ev: &mut Evaluation,
    kernels: &mut K,
    depth: usize,
) -> (r: Result<Value, EvalError>)
    requires
        g.wf(),
        old(ev).wf(g),
        i < g.inputs@.len(),
        unvisited_count(old(ev).status@) <= depth,
    ensures
        final(ev).wf(g),
        final(ev).extends(old(ev)),
        r is Ok ==> input_ready(g, final(ev).cache@, i as int) && r->Ok_0@ == resolved_input(
            g,
            final(ev).cache@,
            i as int,
        ) && r->Ok_0.wf(),
        match g.inputs@[i as int].connection {
            Some(o) => old(ev).cache@[o as int] is Some,
            None => true,
        } ==> r is Ok && final(ev).cache@ == old(ev).cache@ && final(ev).status@ == old(
            ev,
        ).status@ && final(ev).computed@ == old(ev).computed@,
        match g.inputs@[i as int].connection {
            Some(o) => {
                let src = g.outputs@[o as int].node as int;
                &&& r is Err ==> final(ev).cache@[o as int] is None
                &&& r is Err ==> (r->Err_0 is UpstreamFailure && final(ev).status@[src] is Failed)
                    || (r->Err_0 is Cycle && old(ev).status@[src] is InProgress
                    && final(ev).status@[src] is InProgress)
                &&& old(ev).status@[src] is Unvisited && r is Err ==> final(ev).status@[src] is Failed
            },
            None => r is Ok,
        },
        forall|m: int|
            0 <= m < g.nodes@.len() && #[trigger] g.nodes@[m].removed ==> final(ev).status@[m]
                == old(ev).status@[m],
        r is Ok ==> forall|m: int|
            0 <= m < g.nodes@.len() && #[trigger] final(ev).status@[m] is Failed ==> old(ev).status@[m] is Failed,
        acyclic(g) && no_cycle_failure(old(ev).status@) && stack_above(
            g,
            old(ev).status@,
            g.inputs@[i as int].node as int,
            false,
        ) ==> no_cycle_failure(final(ev).status@) && r != Err::<Value, EvalError>(EvalError::Cycle),
    decreases depth, 0nat,
{
    proof {
        lemma_extends_refl(ev);
        assert(g.inputs@[i as int].node < g.nodes@.len());
        assert(g.inputs@[i as int].value.wf());
        if acyclic(g) {
            assert(ranked(g, graph_rank(g)));
            match g.inputs@[i as int].connection {
                Some(o) => assert(graph_rank(g)(g.outputs@[o as int].node as int) < graph_rank(g)(
                    g.inputs@[i as int].node as int,
                )),
                None => {},
            }
        }
        match g.inputs@[i as int].connection {
            Some(o) => {
                assert(!g.nodes@[g.outputs@[o as int].node as int].removed);
                assert(g.outputs@[o as int].node < g.nodes@.len());
            },
            None => {},
        }
    }
    match g.inputs[i].connection {
        None => Ok(g.inputs[i].value.duplicate()),
        Some(o) => {
            if let Some(v) = &ev.cache[o] {
                return Ok(v.duplicate());
            }
            let src = g.outputs[o].node;
            let slot = g.outputs[o].slot;
            match ev.status[src] {
                NodeStatus::Done => {
                    proof {
                        assert(node_done(g, ev.cache@, src as int));
                        assert(g.nodes@[src as int].outputs@[slot as int] == o);
                        assert(ev.cache@[g.nodes@[src as int].outputs@[slot as int] as int] is Some);
                    }
                    Err(EvalError::MissingPort)
                },
                NodeStatus::InProgress => Err(EvalError::Cycle),
                NodeStatus::Failed { .. } => Err(EvalError::UpstreamFailure),
                NodeStatus::Unvisited => {
                    proof {
                        lemma_unvisited_pos(ev.status@, src as int);
                    }
                    match evaluate_node(g, src, ev, kernels, depth - 1) {
                        Err(_) => Err(EvalError::UpstreamFailure),
                        Ok(()) => match &ev.cache[o] {
                            Some(v) => Ok(v.duplicate()),
                            None => {
                                proof {
                                    assert(node_done(g, ev.cache@, src as int));
                                    assert(g.nodes@[src as int].outputs@[slot as int] == o);
                                    assert(ev.cache@[g.nodes@[src as int].outputs@[slot as int] as int] is Some);
                                }
                                Err(EvalError::MissingPort)
                            },
                        },
                    }
                },
            }
        },
    }
}

/// Evaluate node `n`, which this pass has not visited: resolve its inputs
/// in order, run its transform once, and cache its outputs. On failure the
/// node is marked failed with the error, caches nothing, and the error has
/// a reason: an input wired from a failed node, an input wired back into
/// the chain under evaluation, or what the template gives on the resolved
/// inputs.
#[verifier::rlimit(50)]
pub fn evaluate_node<K: Kernels>(
    g: &Graph,
    n: usize,
    ev: &mut Evaluation,
    kernels: &mut K,
    depth: usize,
) -> (r: Result<(), EvalError>)
    requires
        g.wf(),
        old(ev).wf(g),
        n < g.nodes@.len(),
        !g.nodes@[n as int].removed,
        old(ev).status@[n as int] is Unvisited,
        unvisited_count(old(ev).status@) <= depth + 1,
    ensures
        final(ev).wf(g),
        final(ev).extends(old(ev)),
        forall|m: int|
            0 <= m < g.nodes@.len() && #[trigger] g.nodes@[m].removed ==> final(ev).status@[m]
                == old(ev).status@[m],
        match r {
            Ok(()) => final(ev).status@[n as int] is Done,
            Err(e) => final(ev).status@[n as int] == NodeStatus::Failed { error: e },
        },
        r is Err ==> failure_explained(
            g,
            final(ev).cache@,
            final(ev).status@,
            n as int,
            r->Err_0,
            true,
        ),
        r is Ok ==> forall|m: int|
            0 <= m < g.nodes@.len() && #[trigger] final(ev).status@[m] is Failed ==> old(ev).status@[m] is Failed,
        acyclic(g) && no_cycle_failure(old(ev).status@) && stack_above(
            g,
            old(ev).status@,
            n as int,
            true,
        ) ==> no_cycle_failure(final(ev).status@),
    decreases depth, 1nat,
{
    let ghost ev0 = *ev;
    ev.status.set(n, NodeStatus::InProgress);
    let ghost mid = *ev;
    proof {
        lemma_unvisited_mark(ev0.status@, n as int, NodeStatus::InProgress);
        lemma_mark_in_progress(g, &ev0, &mid, n);
        lemma_extends_refl(&mid);
    }
    let node = &g.nodes[n];
    let n_in = node.inputs.len();
    let mut ins: Vec<Value> = Vec::new();
    for k in 0..n_in
        invariant
            g.wf(),
            n < g.nodes@.len(),
            node == &g.nodes@[n as int],
            n_in == node.inputs@.len(),
            ev0 == *old(ev),
            ev0.wf(g),
            ev0.status@[n as int] is Unvisited,
            mid.status@ == ev0.status@.update(n as int, NodeStatus::InProgress),
            mid.cache@ == ev0.cache@,
            mid.computed@ == ev0.computed@,
            ev.wf(g),
            ev.extends(&mid),
            unvisited_count(ev.status@) <= depth,
            !g.nodes@[n as int].removed,
            forall|m: int|
                0 <= m < g.nodes@.len() && #[trigger] g.nodes@[m].removed ==> ev.status@[m]
                    == ev0.status@[m],
            ins@.len() == k,
            all_wf(ins@),
            forall|m: int|
                0 <= m < g.nodes@.len() && #[trigger] ev.status@[m] is Failed ==> ev0.status@[m] is Failed,
            forall|j: int|
                0 <= j < k ==> input_ready(g, ev.cache@, #[trigger] node.inputs@[j] as int)
                    && ins@[j]@ == resolved_input(g, ev.cache@, node.inputs@[j] as int),
    {
        let id = node.inputs[k];
        proof {
            assert(0 <= id < g.inputs@.len());
            assert(mid.status@[n as int] is InProgress);
        }
        let ghost before = *ev;
        proof {
            assert(g.inputs@[id as int].node == n);
            if acyclic(g) && no_cycle_failure(ev0.status@) && stack_above(g, ev0.status@, n as int, true) {
                assert forall|x: int| 0 <= x < ev.status@.len() && #[trigger] ev.status@[x] is InProgress implies graph_rank(g)(x) >= graph_rank(g)(n as int) by {
                    assert(mid.status@[x] is InProgress);
                    if x != n {
                        assert(ev0.status@[x] is InProgress);
                    }
                }
            }
        }
        match evaluate_input(g, id, ev, kernels, depth) {
            Ok(v) => {
                proof {
                    lemma_extends_trans(&mid, &before, ev);
                    lemma_unvisited_extends(&before, ev);
                    assert forall|m: int| 0 <= m < g.nodes@.len() && #[trigger] ev.status@[m] is Failed implies ev0.status@[m] is Failed by {
                        assert(before.status@[m] is Failed);
                    }
                    assert forall|x: int| 0 <= x < ev.status@.len() && #[trigger] ev.status@[x] is InProgress implies mid.status@[x] is InProgress by {
                        assert(before.status@[x] is InProgress) by {
                            if before.status@[x] is Unvisited {
                            } else if settled(before.status@[x]) {
                            }
                        }
                    }
                    assert forall|j: int|
                        0 <= j < k implies input_ready(g, ev.cache@, #[trigger] node.inputs@[j] as int)
                            && ins@[j]@ == resolved_input(g, ev.cache@, node.inputs@[j] as int) by {
                        let i2 = node.inputs@[j] as int;
                        assert(input_ready(g, before.cache@, i2));
                        assert(g.inputs@[i2].node < g.nodes@.len());
                    }
                }
                let ghost ins_before = ins@;
                ins.push(v);
                proof {
                    assert forall|j: int| 0 <= j < ins@.len() implies #[trigger] ins@[j].wf() by {
                        if j < k {
                            assert(ins@[j] == ins_before[j]);
                        }
                    }
                }
            },
            Err(e) => {
                proof {
                    lemma_extends_trans(&mid, &before, ev);
                }
                let ghost ev1 = *ev;
                ev.status.set(n, NodeStatus::Failed { error: e });
                proof {
                    assert(ev1.status@[n as int] is InProgress);
                    let src = g.outputs@[g.inputs@[id as int].connection->Some_0 as int].node as int;
                    if e is UpstreamFailure {
                        assert(ev.status@[src] == ev1.status@[src]);
                        assert(upstream_failed(g, ev.status@, node.inputs@[k as int] as int));
                    } else {
                        if src != n {
                            assert(ev.status@[src] == ev1.status@[src]);
                        }
                        assert(loops_back(g, ev.status@, node.inputs@[k as int] as int, n as int, true));
                    }
                    lemma_settle_failed(g, &ev0, &mid, &ev1, ev, n);
                }
                return Err(e);
            },
        }
    }
    let result = compute_node(node.template, &ins, kernels);
    assert(views(ins@) =~= node_inputs(g, ev.cache@, n as int));
    let ghost ev1 = *ev;
    assert(mid.status@[n as int] is InProgress);
    match result {
        Err(e) => {
            ev.status.set(n, NodeStatus::Failed { error: e });
            ev.computed.push(n);
            proof {
                lemma_settle_failed(g, &ev0, &mid, &ev1, ev, n);
            }
            Err(e)
        },
        Ok(outs) => {
            if outs.len() != node.outputs.len() {
                ev.status.set(n, NodeStatus::Failed { error: EvalError::MissingPort });
                ev.computed.push(n);
                proof {
                    lemma_settle_failed(g, &ev0, &mid, &ev1, ev, n);
                }
                return Err(EvalError::MissingPort);
            }
            let ghost outs_v = views(outs@);
            let n_out = outs.len();
            for k in 0..n_out
                invariant
                    g.wf(),
                    n < g.nodes@.len(),
                    node == &g.nodes@[n as int],
                    n_out == node.outputs@.len(),
                    n_out == outs@.len(),
                    outs_v == views(outs@),
                    ev1.wf(g),
                    ev1.status@[n as int] is InProgress,
                    ev.status@ == ev1.status@,
                    ev.computed@ == ev1.computed@,
                    ev.cache@.len() == ev1.cache@.len(),
                    forall|o: int|
                        0 <= o < ev1.cache@.len() && #[trigger] ev1.cache@[o] is Some ==> ev.cache@[o]
                            == ev1.cache@[o],
                    forall|o: int|
                        0 <= o < ev1.cache@.len() && #[trigger] ev.cache@[o] is Some && ev1.cache@[o] is None
                            ==> g.outputs@[o].node == n,
                    forall|j: int|
                        0 <= j < k ==> ev.cache@[#[trigger] node.outputs@[j] as int] is Some
                            && ev.cache@[node.outputs@[j] as int]->Some_0@ == outs_v[j],
            {
                let o = node.outputs[k];
                proof {
                    assert(o < g.outputs@.len() && g.outputs@[o as int].node == n);
                    if ev1.cache@[o as int] is Some {
                        assert(ev1.status@[n as int] is Done);
                    }
                    assert forall|j: int| 0 <= j < k implies node.outputs@[j] != o by {}
                }
                let v = outs[k].duplicate();
                ev.cache.set(o, Some(v));
            }
            ev.status.set(n, NodeStatus::Done);
            ev.computed.push(n);
            proof {
                assert forall|j: int| 0 <= j < outs_v.len() implies #[trigger] outs_v[j].wf() by {
                    assert(outs@[j].wf());
                }
                lemma_settle_done(g, &ev0, &mid, &ev1, ev, n, outs_v);
            }
            Ok(())
        },
    }
}

/// Marking unvisited node `n` in progress keeps the pass well formed.
proof fn lemma_mark_in_progress(g: &Graph, ev0: &Evaluation, mid: &Evaluation, n: usize)
    requires
        g.wf(),
        n < g.nodes@.len(),
        ev0.wf(g),
        ev0.status@[n as int] is Unvisited,
        mid.status@ == ev0.status@.update(n as int, NodeStatus::InProgress),
        mid.cache@ == ev0.cache@,
        mid.computed@ == ev0.computed@,
    ensures
        mid.wf(g),
{
    assert forall|j: int| 0 <= j < mid.computed@.len() implies #[trigger] mid.computed@[j]
        < mid.status@.len() && settled(mid.status@[mid.computed@[j] as int]) by {
        assert(settled(ev0.status@[ev0.computed@[j] as int]));
    }
    assert forall|m: int| 0 <= m < mid.status@.len() && #[trigger] mid.status@[m] is Done implies mid.computed@.contains(m as usize) by {
        assert(ev0.status@[m] is Done);
    }
    assert forall|m: int| 0 <= m < mid.status@.len() && #[trigger] mid.status@[m] is Done implies node_done(g, mid.cache@, m) by {
        assert(ev0.status@[m] is Done);
    }
    assert forall|o: int| 0 <= o < mid.cache@.len() && #[trigger] mid.cache@[o] is Some implies mid.status@[g.outputs@[o].node as int] is Done
        && mid.cache@[o]->Some_0.wf() by {
        assert(ev0.status@[g.outputs@[o].node as int] is Done);
    }
    assert forall|m: int| 0 <= m < mid.status@.len() implies match #[trigger] mid.status@[m] {
        NodeStatus::Failed { error } => failure_explained(g, mid.cache@, mid.status@, m, error, false),
        _ => true,
    } by {
        match mid.status@[m] {
            NodeStatus::Failed { error } => {
                assert(ev0.status@[m] == mid.status@[m]);
                lemma_explained_stable(g, ev0.cache@, ev0.status@, mid.cache@, mid.status@, m, error);
            },
            _ => {},
        }
    }
}

/// Settling node `n` as failed, from its in-progress state, keeps the
/// pass well formed and extends where it started.
proof fn lemma_settle_failed(
    g: &Graph,
    ev0: &Evaluation,
    mid: &Evaluation,
    ev1: &Evaluation,
    ev: &Evaluation,
    n: usize,
)
    requires
        g.wf(),
        n < g.nodes@.len(),
        ev0.wf(g),
        ev0.status@[n as int] is Unvisited,
        mid.status@ == ev0.status@.update(n as int, NodeStatus::InProgress),
        mid.cache@ == ev0.cache@,
        mid.computed@ == ev0.computed@,
        ev1.wf(g),
        ev1.extends(mid),
        ev.cache@ == ev1.cache@,
        ev.status@[n as int] is Failed,
        ev.status@ == ev1.status@.update(n as int, ev.status@[n as int]),
        ev.computed@ == ev1.computed@.push(n) || ev.computed@ == ev1.computed@,
        match ev.status@[n as int] {
            NodeStatus::Failed { error } => failure_explained(
                g,
                ev.cache@,
                ev.status@,
                n as int,
                error,
                true,
            ),
            _ => false,
        },
    ensures
        ev.wf(g),
        ev.extends(ev0),
{
    assert(mid.status@[n as int] is InProgress);
    assert(ev1.status@[n as int] is InProgress);
    assert(!ev1.computed@.contains(n)) by {
        if ev1.computed@.contains(n) {
            let j = choose|j: int| 0 <= j < ev1.computed@.len() && ev1.computed@[j] == n;
            assert(settled(ev1.status@[ev1.computed@[j] as int]));
        }
    }
    assert forall|o: int|
        0 <= o < ev.cache@.len() && #[trigger] ev.cache@[o] is Some implies ev.status@[g.outputs@[o].node as int] is Done
            && ev.cache@[o]->Some_0.wf() by {
        assert(ev1.status@[g.outputs@[o].node as int] is Done);
    }
    assert forall|m: int| 0 <= m < ev.status@.len() && #[trigger] ev.status@[m] is Done implies node_done(g, ev.cache@, m) by {
        assert(ev1.status@[m] is Done);
    }
    assert forall|m: int| 0 <= m < ev.status@.len() implies match #[trigger] ev.status@[m] {
        NodeStatus::Failed { error } => failure_explained(g, ev.cache@, ev.status@, m, error, false),
        _ => true,
    } by {
        match ev.status@[m] {
            NodeStatus::Failed { error } => {
                if m == n {
                    lemma_strict_explains(g, ev.cache@, ev.status@, m, error);
                } else {
                    assert(ev1.status@[m] == ev.status@[m]);
                    assert forall|x: int| 0 <= x < ev1.status@.len() && #[trigger] ev1.status@[x] is Failed implies ev.status@[x] is Failed by {}
                    lemma_explained_stable(g, ev1.cache@, ev1.status@, ev.cache@, ev.status@, m, error);
                }
            },
            _ => {},
        }
    }
    assert forall|j: int| 0 <= j < ev.computed@.len() implies #[trigger] ev.computed@[j]
        < ev.status@.len() && settled(ev.status@[ev.computed@[j] as int]) by {
        if j < ev1.computed@.len() {
            assert(settled(ev1.status@[ev1.computed@[j] as int]));
        }
    }
    assert forall|m: int| 0 <= m < ev.status@.len() && #[trigger] ev.status@[m] is Done implies ev.computed@.contains(m as usize) by {
        assert(ev1.status@[m] is Done);
        assert(ev1.computed@.contains(m as usize));
        let j = choose|j: int| 0 <= j < ev1.computed@.len() && ev1.computed@[j] == m as usize;
        assert(ev.computed@[j] == m as usize);
    }
    if ev.computed@ == ev1.computed@.push(n) {
        assert(ev.computed@.no_duplicates());
    }
    assert forall|n2: int|
        0 <= n2 < ev0.status@.len() && settled(#[trigger] ev0.status@[n2]) implies ev.status@[n2]
            == ev0.status@[n2] by {
        assert(mid.status@[n2] == ev0.status@[n2]);
    }
    assert forall|n2: int|
        0 <= n2 < ev0.status@.len() && #[trigger] ev0.status@[n2] is InProgress implies ev.status@[n2] is InProgress by {
        assert(mid.status@[n2] is InProgress);
    }
    assert forall|n2: int|
        0 <= n2 < ev0.status@.len() && #[trigger] ev0.status@[n2] is Unvisited implies !(ev.status@[n2] is InProgress) by {
        if n2 != n {
            assert(mid.status@[n2] is Unvisited);
        }
    }
    assert forall|o: int|
        0 <= o < ev0.cache@.len() && #[trigger] ev0.cache@[o] is Some implies ev.cache@[o] == ev0.cache@[o] by {
        assert(mid.cache@[o] is Some);
    }
    assert(ev.computed@.take(ev0.computed@.len() as int) =~= ev1.computed@.take(ev0.computed@.len() as int));
    assert(ev.computed@.take(ev1.computed@.len() as int) =~= ev1.computed@);
}

/// Settling node `n` as done, once its outputs are written, keeps the pass
/// well formed and extends where it started.
#[verifier::rlimit(50)]
proof fn lemma_settle_done(
    g: &Graph,
    ev0: &Evaluation,
    mid: &Evaluation,
    ev1: &Evaluation,
    ev: &Evaluation,
    n: usize,
    outs_v: Seq<ValueModel>,
)
    requires
        g.wf(),
        n < g.nodes@.len(),
        ev0.wf(g),
        ev0.status@[n as int] is Unvisited,
        mid.status@ == ev0.status@.update(n as int, NodeStatus::InProgress),
        mid.cache@ == ev0.cache@,
        mid.computed@ == ev0.computed@,
        ev1.wf(g),
        ev1.extends(mid),
        ev.status@ == ev1.status@.update(n as int, NodeStatus::Done),
        ev.computed@ == ev1.computed@.push(n),
        ev.cache@.len() == ev1.cache@.len(),
        forall|o: int|
            0 <= o < ev1.cache@.len() && #[trigger] ev1.cache@[o] is Some ==> ev.cache@[o] == ev1.cache@[o],
        forall|o: int|
            0 <= o < ev1.cache@.len() && #[trigger] ev.cache@[o] is Some && ev1.cache@[o] is None ==> g.outputs@[o].node == n,
        outs_v.len() == g.nodes@[n as int].outputs@.len(),
        forall|j: int| 0 <= j < outs_v.len() ==> #[trigger] outs_v[j].wf(),
        forall|j: int|
            0 <= j < outs_v.len() ==> ev.cache@[#[trigger] g.nodes@[n as int].outputs@[j] as int] is Some
                && ev.cache@[g.nodes@[n as int].outputs@[j] as int]->Some_0@ == outs_v[j],
        inputs_ready(g, ev1.cache@, n as int),
        computes(
            g.nodes@[n as int].template,
            node_inputs(g, ev1.cache@, n as int),
            Ok::<Seq<ValueModel>, EvalError>(outs_v),
        ),
        forall|m: int| 0 <= m < ev1.status@.len() && #[trigger] ev1.status@[m] is Failed ==> ev0.status@[m] is Failed,
    ensures
        ev.wf(g),
        ev.extends(ev0),
{
    let node = g.nodes@[n as int];
    assert(mid.status@[n as int] is InProgress);
    assert(ev1.status@[n as int] is InProgress);
    assert(!ev1.computed@.contains(n)) by {
        if ev1.computed@.contains(n) {
            let j = choose|j: int| 0 <= j < ev1.computed@.len() && ev1.computed@[j] == n;
            assert(settled(ev1.status@[ev1.computed@[j] as int]));
        }
    }
    lemma_inputs_stable(g, ev1.cache@, ev.cache@, n as int);
    assert(node_outputs(g, ev.cache@, n as int) =~= outs_v);
    assert(node_done(g, ev.cache@, n as int));
    assert forall|o: int|
        0 <= o < ev.cache@.len() && #[trigger] ev.cache@[o] is Some implies ev.status@[g.outputs@[o].node as int] is Done
            && ev.cache@[o]->Some_0.wf() by {
        if ev1.cache@[o] is Some {
            assert(ev1.status@[g.outputs@[o].node as int] is Done);
        } else {
            let slot = g.outputs@[o].slot as int;
            assert(g.nodes@[n as int].outputs@[slot] == o);
            assert(outs_v[slot].wf());
        }
    }
    assert forall|m: int| 0 <= m < ev.status@.len() && #[trigger] ev.status@[m] is Done implies node_done(g, ev.cache@, m) by {
        if m != n {
            assert(ev1.status@[m] is Done);
            lemma_node_done_stable(g, ev1.cache@, ev.cache@, m);
        }
    }
    assert forall|m: int| 0 <= m < ev.status@.len() implies match #[trigger] ev.status@[m] {
        NodeStatus::Failed { error } => failure_explained(g, ev.cache@, ev.status@, m, error, false),
        _ => true,
    } by {
        match ev.status@[m] {
            NodeStatus::Failed { error } => {
                assert(ev1.status@[m] == ev.status@[m]);
                assert(ev0.status@[m] is Failed);
                assert(ev0.status@[m] == ev.status@[m]) by {
                    assert(mid.status@[m] == ev0.status@[m]);
                }
                assert forall|x: int| 0 <= x < ev0.status@.len() && #[trigger] ev0.status@[x] is Failed implies ev.status@[x] is Failed by {
                    assert(mid.status@[x] == ev0.status@[x]);
                }
                assert forall|x: int| 0 <= x < ev0.status@.len() && #[trigger] ev0.status@[x] is InProgress implies ev.status@[x] is InProgress || ev.status@[x] is Failed by {
                    assert(mid.status@[x] is InProgress);
                }
                assert forall|o: int| 0 <= o < ev0.cache@.len() && #[trigger] ev0.cache@[o] is Some implies ev.cache@[o] == ev0.cache@[o] by {
                    assert(mid.cache@[o] is Some);
                }
                lemma_explained_stable(g, ev0.cache@, ev0.status@, ev.cache@, ev.status@, m, error);
            },
            _ => {},
        }
    }
    assert forall|j: int| 0 <= j < ev.computed@.len() implies #[trigger] ev.computed@[j]
        < ev.status@.len() && settled(ev.status@[ev.computed@[j] as int]) by {
        if j < ev1.computed@.len() {
            assert(settled(ev1.status@[ev1.computed@[j] as int]));
        }
    }
    assert forall|m: int| 0 <= m < ev.status@.len() && #[trigger] ev.status@[m] is Done implies ev.computed@.contains(m as usize) by {
        if m != n {
            assert(ev1.status@[m] is Done);
            assert(ev1.computed@.contains(m as usize));
            let j = choose|j: int| 0 <= j < ev1.computed@.len() && ev1.computed@[j] == m as usize;
            assert(ev.computed@[j] == m as usize);
        } else {
            assert(ev.computed@[ev1.computed@.len() as int] == n);
        }
    }
    assert forall|n2: int|
        0 <= n2 < ev0.status@.len() && settled(#[trigger] ev0.status@[n2]) implies ev.status@[n2]
            == ev0.status@[n2] by {
        assert(mid.status@[n2] == ev0.status@[n2]);
    }
    assert forall|n2: int|
        0 <= n2 < ev0.status@.len() && #[trigger] ev0.status@[n2] is InProgress implies ev.status@[n2] is InProgress by {
        assert(mid.status@[n2] is InProgress);
    }
    assert forall|n2: int|
        0 <= n2 < ev0.status@.len() && #[trigger] ev0.status@[n2] is Unvisited implies !(ev.status@[n2] is InProgress) by {
        if n2 != n {
            assert(mid.status@[n2] is Unvisited);
        }
    }
    assert forall|o: int|
        0 <= o < ev0.cache@.len() && #[trigger] ev0.cache@[o] is Some implies ev.cache@[o] == ev0.cache@[o] by {
        assert(mid.cache@[o] is Some);
    }
    assert(ev.computed@.take(ev0.computed@.len() as int) =~= ev1.computed@.take(ev0.computed@.len() as int));
    assert(ev.computed@.take(ev1.computed@.len() as int) =~= ev1.computed@);
}

/// Evaluate the whole graph in a fresh pass: every node that is not removed
/// is visited (a removed one never is), each node's transform runs at most
/// once however many nodes read its outputs, a finished node's outputs are
/// cached and are what its template computes from its resolved inputs, a
/// failed node caches nothing, and every failure has a reason.
pub fn evaluate_graph<K: Kernels>(g: &Graph, kernels: &mut K) -> (r: Evaluation)
    requires
        g.wf(),
    ensures
        r.wf(g),
        r.status@.len() == g.nodes@.len(),
        r.cache@.len() == g.outputs@.len(),
        forall|n: int|
            0 <= n < g.nodes@.len() && !g.nodes@[n].removed ==> settled(#[trigger] r.status@[n]),
        forall|n: int| 0 <= n < g.nodes@.len() ==> !(#[trigger] r.status@[n] is InProgress),
        r.computed@.no_duplicates(),
        forall|n: int|
            0 <= n < g.nodes@.len() && #[trigger] r.status@[n] is Done ==> node_done(g, r.cache@, n)
                && r.computed@.contains(n as usize),
        forall|n: int|
            0 <= n < g.nodes@.len() ==> match #[trigger] r.status@[n] {
                NodeStatus::Failed { error } => failure_explained(g, r.cache@, r.status@, n, error, false),
                _ => true,
            },
        forall|o: int|
            0 <= o < g.outputs@.len() && #[trigger] r.status@[g.outputs@[o].node as int] is Failed
                ==> r.cache@[o] is None,
        forall|n: int|
            0 <= n < g.nodes@.len() && #[trigger] g.nodes@[n].removed ==> r.status@[n] is Unvisited,
        acyclic(g) ==> no_cycle_failure(r.status@),
{
    let mut ev = Evaluation::new(g);
    let total = g.nodes.len();
    for n in 0..total
        invariant
            g.wf(),
            total == g.nodes@.len(),
            ev.wf(g),
            forall|m: int| 0 <= m < n && !g.nodes@[m].removed ==> settled(#[trigger] ev.status@[m]),
            forall|m: int| 0 <= m < total ==> !(#[trigger] ev.status@[m] is InProgress),
            forall|m: int| 0 <= m < total && #[trigger] g.nodes@[m].removed ==> ev.status@[m] is Unvisited,
            acyclic(g) ==> no_cycle_failure(ev.status@),
    {
        if !g.nodes[n].removed && ev.status[n] == NodeStatus::Unvisited {
            let ghost before = ev;
            proof {
                lemma_unvisited_le_len(ev.status@);
            }
            let _ = evaluate_node(g, n, &mut ev, kernels, total);
            proof {
                assert forall|m: int| 0 <= m < n && !g.nodes@[m].removed implies settled(#[trigger] ev.status@[m]) by {
                    assert(settled(before.status@[m]));
                }
                assert forall|m: int| 0 <= m < total implies !(#[trigger] ev.status@[m] is InProgress) by {
                    assert(!(before.status@[m] is InProgress));
                    if before.status@[m] is Unvisited {
                    } else {
                        assert(settled(before.status@[m]));
                    }
                }
            }
        }
    }
    proof {
        assert forall|o: int|
            0 <= o < g.outputs@.len() && #[trigger] ev.status@[g.outputs@[o].node as int] is Failed
                implies ev.cache@[o] is None by {
            if ev.cache@[o] is Some {
                assert(ev.status@[g.outputs@[o].node as int] is Done);
            }
        }
    }
    ev
}

/// On an acyclic graph, a node that a pass leaves failed failed because an
/// input is wired from a failed node, or because its template gives the
/// error on its resolved inputs (or it lists another number of outputs).
pub proof fn lemma_acyclic_failures(g: &Graph, r: &Evaluation, n: int, e: EvalError)
    requires
        g.wf(),
        r.wf(g),
        acyclic(g),
        no_cycle_failure(r.status@),
        0 <= n < g.nodes@.len(),
        r.status@[n] == (NodeStatus::Failed { error: e }),
    ensures
        e is UpstreamFailure ==> exists|k: int|
            0 <= k < g.nodes@[n].inputs@.len() && upstream_failed(
                g,
                r.status@,
                #[trigger] g.nodes@[n].inputs@[k] as int,
            ),
        !(e is UpstreamFailure) ==> node_error(e) && inputs_ready(g, r.cache@, n) && (computes(
            g.nodes@[n].template,
            node_inputs(g, r.cache@, n),
            Err::<Seq<ValueModel>, EvalError>(e),
        ) || (e is MissingPort && g.nodes@[n].outputs@.len() != output_kinds(
            g.nodes@[n].template,
        ).len())),
{
    assert(r.status@[n] != NodeStatus::Failed { error: EvalError::Cycle });
    assert(failure_explained(g, r.cache@, r.status@, n, e, false));
}

/// An input of a freshly built node, left unwired, resolves to its role's
/// default value (a 1 by 1 black image or slice, zero, or false) rather
/// than to an error.
pub proof fn lemma_unwired_input_reads_default(
    g: &Graph,
    cache: Seq<Option<Value>>,
    n: int,
    t: NodeTemplate,
    k: int,
)
    requires
        g.wf(),
        0 <= n < g.nodes@.len(),
        g.built_from(n, t),
        0 <= k < g.nodes@[n].inputs@.len(),
    ensures
        input_ready(g, cache, g.nodes@[n].inputs@[k] as int),
        resolved_input(g, cache, g.nodes@[n].inputs@[k] as int) == role_default(input_roles(t)[k]),
{
    let i = g.nodes@[n].inputs@[k];
    assert(g.inputs@[i as int].connection is None);
}

} // verus!
