use node_image::catalog::{all_kinds, InputParamKind, NodeTemplate, PortRole};
use node_image::eval::{compute_node, evaluate_graph, Evaluation, Kernels, NodeStatus};
use node_image::graph::{ConnectError, Graph};
use node_image::image::{ColorImage, ImageSlice, Rgb, SliceColor};
use node_image::pipeline::{compute_gray, process_image, PipelineState};
use node_image::state::OutputPanel;
use node_image::value::{DataType, EvalError, Value};

fn px(r: u8, g: u8, b: u8) -> Rgb {
    Rgb { r, g, b }
}

/// Stand-in transforms that count their calls; the spectrum reverses the
/// samples and the image transforms copy their input.
#[derive(Default)]
struct Counting {
    fourier: usize,
    blur: usize,
    others: usize,
}

impl Kernels for Counting {
    fn fourier(&mut self, slice: &ImageSlice) -> ImageSlice {
        self.fourier += 1;
        let mut pixels = slice.pixels.clone();
        pixels.reverse();
        ImageSlice { color: slice.color, size: slice.size, pixels }
    }

    fn blur(&mut self, image: &ColorImage, _sigma: u32) -> ColorImage {
        self.blur += 1;
        image.duplicate()
    }

    fn brighten(&mut self, image: &ColorImage, _amount: u32) -> ColorImage {
        self.others += 1;
        image.duplicate()
    }

    fn contrast(&mut self, image: &ColorImage, _amount: u32) -> ColorImage {
        self.others += 1;
        image.duplicate()
    }

    fn hue_rotate(&mut self, image: &ColorImage, _amount: u32) -> ColorImage {
        self.others += 1;
        image.duplicate()
    }
}

fn test_image() -> ColorImage {
    ColorImage {
        size: (2, 2),
        pixels: vec![px(255, 0, 0), px(0, 255, 0), px(0, 0, 255), px(255, 255, 255)],
    }
}

fn cached_image(ev: &Evaluation, output: usize) -> ColorImage {
    match &ev.cache[output] {
        Some(Value::Image { value }) => value.duplicate(),
        other => panic!("expected an image, found {:?}", other),
    }
}

/// A fetcher holding `image`; returns the graph and the fetcher's node.
fn graph_with_fetcher(image: ColorImage) -> (Graph, usize) {
    let mut g = Graph::new();
    let f = g.add_node(NodeTemplate::ImageFetcher);
    let fetch_in = g.nodes[f].inputs[0];
    assert!(g.set_value(fetch_in, Value::ImageFetcher { value: image }));
    (g, f)
}

#[test]
fn fetcher_to_invert_end_to_end() {
    let (mut g, f) = graph_with_fetcher(test_image());
    let inv = g.add_node(NodeTemplate::InvertImage);
    let out = g.nodes[f].outputs[0];
    let inp = g.nodes[inv].inputs[0];
    assert_eq!(g.connect(out, inp), Ok(()));
    let mut k = Counting::default();
    let ev = evaluate_graph(&g, &mut k);
    assert_eq!(ev.status[f], NodeStatus::Done);
    assert_eq!(ev.status[inv], NodeStatus::Done);
    let result = cached_image(&ev, g.nodes[inv].outputs[0]);
    assert_eq!(result.size, (2, 2));
    assert_eq!(
        result.pixels,
        vec![px(0, 255, 255), px(255, 0, 255), px(255, 255, 0), px(0, 0, 0)]
    );
    assert_eq!(cached_image(&ev, out), test_image());
}

#[test]
fn shared_output_is_computed_once() {
    let (mut g, f) = graph_with_fetcher(test_image());
    let blur = g.add_node(NodeTemplate::GaussianBlur);
    assert_eq!(g.connect(g.nodes[f].outputs[0], g.nodes[blur].inputs[0]), Ok(()));
    let mut consumers = Vec::new();
    for _ in 0..3 {
        let c = g.add_node(NodeTemplate::InvertImage);
        assert_eq!(g.connect(g.nodes[blur].outputs[0], g.nodes[c].inputs[0]), Ok(()));
        consumers.push(c);
    }
    let mut k = Counting::default();
    let ev = evaluate_graph(&g, &mut k);
    assert_eq!(k.blur, 1);
    assert_eq!(ev.computed.len(), 5);
    assert_eq!(ev.computed.iter().filter(|&&n| n == blur).count(), 1);
    for c in consumers {
        assert_eq!(ev.status[c], NodeStatus::Done);
    }
}

#[test]
fn consumers_listed_first_still_compute_source_once() {
    // Consumers are added before the source, so the source is reached
    // through the wires before the pass comes to it.
    let mut g = Graph::new();
    let mut consumers = Vec::new();
    for _ in 0..2 {
        consumers.push(g.add_node(NodeTemplate::ImageToSlice));
    }
    let fourier_a = g.add_node(NodeTemplate::FourierSpace);
    let fetch = g.add_node(NodeTemplate::ImageFetcher);
    let fetch_in = g.nodes[fetch].inputs[0];
    assert!(g.set_value(fetch_in, Value::ImageFetcher { value: test_image() }));
    let gray = g.add_node(NodeTemplate::GrayScales);
    assert_eq!(g.connect(g.nodes[fetch].outputs[0], g.nodes[gray].inputs[0]), Ok(()));
    assert_eq!(g.connect(g.nodes[gray].outputs[0], g.nodes[fourier_a].inputs[0]), Ok(()));
    for &c in &consumers {
        assert_eq!(g.connect(g.nodes[fetch].outputs[0], g.nodes[c].inputs[0]), Ok(()));
    }
    let mut k = Counting::default();
    let ev = evaluate_graph(&g, &mut k);
    assert_eq!(k.fourier, 1);
    assert_eq!(ev.computed.iter().filter(|&&n| n == fetch).count(), 1);
    assert_eq!(ev.computed.len(), g.nodes.len());
    match &ev.cache[g.nodes[fourier_a].outputs[0]] {
        Some(Value::Slice { value }) => assert_eq!(value.pixels, vec![255, 18, 182, 54]),
        other => panic!("expected a slice, found {:?}", other),
    }
}

#[test]
fn unwired_input_reads_default_black_pixel() {
    let mut g = Graph::new();
    let inv = g.add_node(NodeTemplate::InvertImage);
    let gray = g.add_node(NodeTemplate::GrayScales);
    let mut k = Counting::default();
    let ev = evaluate_graph(&g, &mut k);
    assert_eq!(ev.status[inv], NodeStatus::Done);
    let r = cached_image(&ev, g.nodes[inv].outputs[0]);
    assert_eq!(r.size, (1, 1));
    assert_eq!(r.pixels, vec![px(255, 255, 255)]);
    match &ev.cache[g.nodes[gray].outputs[0]] {
        Some(Value::Slice { value }) => {
            assert_eq!(value.size, (1, 1));
            assert_eq!(value.pixels, vec![0]);
        },
        other => panic!("expected a slice, found {:?}", other),
    }
}

#[test]
fn scalar_wired_from_wrong_kind_is_type_mismatch() {
    let (mut g, f) = graph_with_fetcher(test_image());
    let blur = g.add_node(NodeTemplate::GaussianBlur);
    let sigma = g.nodes[blur].inputs[1];
    // The store refuses this wire; set it by hand to see what evaluation does.
    assert_eq!(g.connect(g.nodes[f].outputs[0], sigma), Err(ConnectError::ConstantOnly));
    g.inputs[sigma].connection = Some(g.nodes[f].outputs[0]);
    let mut k = Counting::default();
    let ev = evaluate_graph(&g, &mut k);
    assert_eq!(ev.status[blur], NodeStatus::Failed { error: EvalError::TypeMismatch });
    assert!(ev.cache[g.nodes[blur].outputs[0]].is_none());
    assert_eq!(k.blur, 0);
    assert_eq!(ev.status[f], NodeStatus::Done);
}

#[test]
fn boolean_read_as_scalar_is_type_mismatch() {
    let ins = vec![Value::Image { value: test_image() }, Value::Boolean { value: true }];
    let mut k = Counting::default();
    let r = compute_node(NodeTemplate::GaussianBlur, &ins, &mut k);
    assert_eq!(r, Err(EvalError::TypeMismatch));
    assert_eq!(k.blur, 0);
}

#[test]
fn failure_propagates_downstream() {
    let (mut g, f) = graph_with_fetcher(test_image());
    let rot = g.add_node(NodeTemplate::RotateImage);
    let inv = g.add_node(NodeTemplate::InvertImage);
    assert_eq!(g.connect(g.nodes[f].outputs[0], g.nodes[rot].inputs[0]), Ok(()));
    assert_eq!(g.connect(g.nodes[rot].outputs[0], g.nodes[inv].inputs[0]), Ok(()));
    let turns = g.nodes[rot].inputs[1];
    // The store refuses a boolean in an integer slot; put it there by hand.
    assert!(!g.set_value(turns, Value::Boolean { value: true }));
    g.inputs[turns].value = Value::Boolean { value: true };
    let mut k = Counting::default();
    let ev = evaluate_graph(&g, &mut k);
    assert_eq!(ev.status[rot], NodeStatus::Failed { error: EvalError::TypeMismatch });
    assert_eq!(ev.status[inv], NodeStatus::Failed { error: EvalError::UpstreamFailure });
    assert!(ev.cache[g.nodes[inv].outputs[0]].is_none());
    assert_eq!(ev.status[f], NodeStatus::Done);
}

#[test]
fn cycle_is_reported() {
    let mut g = Graph::new();
    let a = g.add_node(NodeTemplate::InvertImage);
    let b = g.add_node(NodeTemplate::InvertImage);
    assert_eq!(g.connect(g.nodes[a].outputs[0], g.nodes[b].inputs[0]), Ok(()));
    assert_eq!(g.connect(g.nodes[b].outputs[0], g.nodes[a].inputs[0]), Ok(()));
    let mut k = Counting::default();
    let ev = evaluate_graph(&g, &mut k);
    assert_eq!(ev.status[a], NodeStatus::Failed { error: EvalError::UpstreamFailure });
    assert_eq!(ev.status[b], NodeStatus::Failed { error: EvalError::Cycle });
    assert!(ev.computed.is_empty());
}

#[test]
fn rotate_and_flip_nodes_use_inline_values() {
    let (mut g, f) = graph_with_fetcher(test_image());
    let rot = g.add_node(NodeTemplate::RotateImage);
    let flip = g.add_node(NodeTemplate::FlipImage);
    assert_eq!(g.connect(g.nodes[f].outputs[0], g.nodes[rot].inputs[0]), Ok(()));
    assert_eq!(g.connect(g.nodes[f].outputs[0], g.nodes[flip].inputs[0]), Ok(()));
    let h = g.nodes[flip].inputs[1];
    assert!(g.set_value(h, Value::Boolean { value: true }));
    let mut k = Counting::default();
    let ev = evaluate_graph(&g, &mut k);
    assert_eq!(cached_image(&ev, g.nodes[rot].outputs[0]), test_image());
    assert_eq!(
        cached_image(&ev, g.nodes[flip].outputs[0]).pixels,
        vec![px(0, 255, 0), px(255, 0, 0), px(255, 255, 255), px(0, 0, 255)]
    );
}

#[test]
fn split_and_merge_nodes_round_trip() {
    let (mut g, f) = graph_with_fetcher(test_image());
    let split = g.add_node(NodeTemplate::ImageToSlice);
    let merge = g.add_node(NodeTemplate::SliceToImage);
    assert_eq!(g.connect(g.nodes[f].outputs[0], g.nodes[split].inputs[0]), Ok(()));
    for c in 0..3 {
        assert_eq!(g.connect(g.nodes[split].outputs[c], g.nodes[merge].inputs[c]), Ok(()));
    }
    let mut k = Counting::default();
    let ev = evaluate_graph(&g, &mut k);
    assert_eq!(cached_image(&ev, g.nodes[merge].outputs[0]), test_image());
}

#[test]
fn missing_port_is_reported() {
    let mut g = Graph::new();
    let n = g.add_node(NodeTemplate::FlipImage);
    g.nodes[n].inputs.truncate(1);
    let mut k = Counting::default();
    let ev = evaluate_graph(&g, &mut k);
    assert_eq!(ev.status[n], NodeStatus::Failed { error: EvalError::MissingPort });
}

#[test]
fn connect_checks_ports() {
    let mut g = Graph::new();
    let gray = g.add_node(NodeTemplate::GrayScales);
    let inv = g.add_node(NodeTemplate::InvertImage);
    let slice_out = g.nodes[gray].outputs[0];
    let image_in = g.nodes[inv].inputs[0];
    assert_eq!(g.connect(slice_out, image_in), Err(ConnectError::KindMismatch));
    assert_eq!(g.connect(99, image_in), Err(ConnectError::UnknownPort));
    assert_eq!(g.connect(slice_out, 99), Err(ConnectError::UnknownPort));
    assert_eq!(g.connect(g.nodes[inv].outputs[0], g.nodes[gray].inputs[0]), Ok(()));
    assert_eq!(g.inputs[g.nodes[gray].inputs[0]].connection, Some(g.nodes[inv].outputs[0]));
    g.disconnect(g.nodes[gray].inputs[0]);
    assert_eq!(g.inputs[g.nodes[gray].inputs[0]].connection, None);
    assert!(!g.set_value(99, Value::Integer { value: 1 }));
    let image_in_value = Value::Slice { value: ImageSlice::new(SliceColor::Red, (1, 1)) };
    assert!(g.set_value(image_in, image_in_value));
    assert!(!g.set_value(image_in, Value::Scalar { bits: 0 }));
}

#[test]
fn built_nodes_follow_catalog() {
    let mut g = Graph::new();
    let n = g.add_node(NodeTemplate::SliceToImage);
    assert_eq!(g.nodes[n].inputs.len(), 3);
    assert_eq!(g.nodes[n].outputs.len(), 1);
    let p = &g.inputs[g.nodes[n].inputs[1]];
    assert_eq!(p.kind, DataType::Slice);
    assert_eq!(p.policy, InputParamKind::ConnectionOnly);
    assert_eq!(
        p.value,
        Value::Slice { value: ImageSlice { color: SliceColor::Green, size: (1, 1), pixels: vec![0] } }
    );
    let b = g.add_node(NodeTemplate::GaussianBlur);
    let s = &g.inputs[g.nodes[b].inputs[1]];
    assert_eq!(s.kind, DataType::Scalar);
    assert_eq!(s.policy, InputParamKind::ConstantOnly);
    assert_eq!(s.value, Value::Scalar { bits: 0 });
    assert_eq!(g.outputs[g.nodes[b].outputs[0]].kind, DataType::Image);
}

#[test]
fn catalog_lists_every_template() {
    let kinds = all_kinds();
    assert_eq!(kinds.len(), 12);
    assert!(kinds.contains(&NodeTemplate::RotateImage));
    assert_eq!(NodeTemplate::ImageFetcher.node_finder_label(), "Image fetcher");
    assert_eq!(NodeTemplate::FourierSpace.node_finder_label(), "Fourier space");
    assert_eq!(
        NodeTemplate::FlipImage.input_roles(),
        vec![PortRole::Image, PortRole::Boolean, PortRole::Boolean]
    );
    assert_eq!(
        NodeTemplate::ImageToSlice.output_kinds(),
        vec![DataType::Slice, DataType::Slice, DataType::Slice]
    );
}

#[test]
fn coercions_follow_kinds() {
    let slice = ImageSlice { color: SliceColor::Blue, size: (1, 1), pixels: vec![9] };
    let v = Value::Slice { value: slice.duplicate() };
    assert_eq!(v.try_to_image().unwrap().pixels, vec![px(0, 0, 9)]);
    assert_eq!(v.try_to_slice(Some(SliceColor::Red)).unwrap(), slice);
    let img = Value::Image { value: test_image() };
    assert_eq!(img.try_to_slice(None).unwrap().pixels, vec![255, 0, 0, 255]);
    assert_eq!(img.try_to_slice(Some(SliceColor::Blue)).unwrap().pixels, vec![0, 0, 255, 255]);
    let fetched = Value::ImageFetcher { value: test_image() };
    assert_eq!(fetched.try_to_image().unwrap(), test_image());
    assert_eq!(fetched.try_to_slice(None), Err(EvalError::TypeMismatch));
    assert_eq!(Value::Integer { value: 3 }.try_to_scalar(), Err(EvalError::TypeMismatch));
    assert_eq!(Value::Scalar { bits: 7 }.try_to_integer(), Err(EvalError::TypeMismatch));
    assert_eq!(Value::Scalar { bits: 7 }.try_to_boolean(), Err(EvalError::TypeMismatch));
    assert_eq!(Value::Boolean { value: true }.try_to_image(), Err(EvalError::TypeMismatch));
    assert_eq!(Value::Boolean { value: true }.try_to_color(), Err(EvalError::TypeMismatch));
    assert_eq!(Value::Color { value: px(1, 2, 3) }.try_to_color(), Ok(px(1, 2, 3)));
    assert_eq!(Value::Scalar { bits: 7 }.try_to_scalar(), Ok(7));
    assert_eq!(Value::Integer { value: -2 }.try_to_integer(), Ok(-2));
    assert_eq!(Value::Boolean { value: true }.try_to_boolean(), Ok(true));
    let bad = Value::Image { value: ColorImage { size: (2, 2), pixels: vec![px(0, 0, 0)] } };
    assert!(!bad.is_well_formed());
    assert!(img.is_well_formed());
}

/// Transforms that shrink every image to nothing.
struct Shrinking;

impl Kernels for Shrinking {
    fn fourier(&mut self, slice: &ImageSlice) -> ImageSlice {
        ImageSlice { color: slice.color, size: (0, 0), pixels: vec![] }
    }

    fn blur(&mut self, _image: &ColorImage, _sigma: u32) -> ColorImage {
        ColorImage { size: (0, 0), pixels: vec![] }
    }

    fn brighten(&mut self, image: &ColorImage, _amount: u32) -> ColorImage {
        image.duplicate()
    }

    fn contrast(&mut self, image: &ColorImage, _amount: u32) -> ColorImage {
        image.duplicate()
    }

    fn hue_rotate(&mut self, image: &ColorImage, _amount: u32) -> ColorImage {
        image.duplicate()
    }
}

#[test]
fn transform_that_changes_size_is_a_fault() {
    let (mut g, f) = graph_with_fetcher(test_image());
    let blur = g.add_node(NodeTemplate::GaussianBlur);
    let inv = g.add_node(NodeTemplate::InvertImage);
    assert_eq!(g.connect(g.nodes[f].outputs[0], g.nodes[blur].inputs[0]), Ok(()));
    assert_eq!(g.connect(g.nodes[blur].outputs[0], g.nodes[inv].inputs[0]), Ok(()));
    let ev = evaluate_graph(&g, &mut Shrinking);
    assert_eq!(ev.status[blur], NodeStatus::Failed { error: EvalError::TransformFault });
    assert_eq!(ev.status[inv], NodeStatus::Failed { error: EvalError::UpstreamFailure });
    let ins = vec![Value::Slice { value: ImageSlice::new(SliceColor::Gray, (2, 2)) }];
    assert_eq!(compute_node(NodeTemplate::FourierSpace, &ins, &mut Shrinking), Err(EvalError::TransformFault));
    let mut state = PipelineState { input_image: Some(test_image()), output_image: None };
    process_image(&mut state, &mut Shrinking);
    assert!(state.output_image.is_none());
}

#[test]
fn malformed_inline_value_is_refused() {
    let mut g = Graph::new();
    let inv = g.add_node(NodeTemplate::InvertImage);
    let input = g.nodes[inv].inputs[0];
    let bad = Value::Image { value: ColorImage { size: (2, 2), pixels: vec![px(0, 0, 0)] } };
    assert!(!g.set_value(input, bad));
    assert!(g.set_value(input, Value::Image { value: test_image() }));
}

#[test]
fn merge_of_oversized_slices_is_too_large() {
    let ins = vec![
        Value::Slice { value: ImageSlice { color: SliceColor::Red, size: (usize::MAX, 0), pixels: vec![] } },
        Value::Slice { value: ImageSlice { color: SliceColor::Green, size: (0, 2), pixels: vec![] } },
        Value::Slice { value: ImageSlice { color: SliceColor::Blue, size: (0, 0), pixels: vec![] } },
    ];
    let mut k = Counting::default();
    assert_eq!(compute_node(NodeTemplate::SliceToImage, &ins, &mut k), Err(EvalError::TooLarge));
}

#[test]
fn scalar_nodes_call_their_kernel() {
    let mut k = Counting::default();
    for t in [NodeTemplate::BrightenImage, NodeTemplate::ContrastImage, NodeTemplate::HueRotate] {
        let ins = vec![Value::Image { value: test_image() }, Value::Scalar { bits: 1 }];
        let r = compute_node(t, &ins, &mut k).unwrap();
        assert_eq!(r, vec![Value::Image { value: test_image() }]);
    }
    assert_eq!(k.others, 3);
    assert_eq!(compute_node(NodeTemplate::InvertImage, &vec![], &mut k), Err(EvalError::MissingPort));
}

#[test]
fn pipeline_processes_once() {
    let mut state = PipelineState { input_image: Some(test_image()), output_image: None };
    assert_eq!(compute_gray(&state).unwrap().pixels, vec![54, 182, 18, 255]);
    let mut k = Counting::default();
    process_image(&mut state, &mut k);
    assert_eq!(k.fourier, 1);
    let out = state.output_image.as_ref().unwrap();
    assert_eq!(out.pixels, vec![px(255, 255, 255), px(18, 18, 18), px(182, 182, 182), px(54, 54, 54)]);
    process_image(&mut state, &mut k);
    assert_eq!(k.fourier, 1);
    let mut empty = PipelineState { input_image: None, output_image: None };
    process_image(&mut empty, &mut k);
    assert!(empty.output_image.is_none());
    assert!(compute_gray(&empty).is_none());
}

#[test]
fn output_panel_defaults_to_image() {
    assert_eq!(OutputPanel::default(), OutputPanel::Image);
}

#[test]
fn removed_node_cuts_its_wires_and_is_skipped() {
    let (mut g, f) = graph_with_fetcher(test_image());
    let inv = g.add_node(NodeTemplate::InvertImage);
    let out = g.nodes[f].outputs[0];
    let inp = g.nodes[inv].inputs[0];
    assert_eq!(g.connect(out, inp), Ok(()));
    assert!(g.remove_node(f));
    assert!(!g.remove_node(f));
    assert!(!g.remove_node(42));
    assert!(g.nodes[f].removed);
    assert_eq!(g.inputs[inp].connection, None);
    assert_eq!(g.connect(out, inp), Err(ConnectError::UnknownPort));
    let mut k = Counting::default();
    let ev = evaluate_graph(&g, &mut k);
    assert_eq!(ev.status[f], NodeStatus::Unvisited);
    assert!(ev.cache[out].is_none());
    assert_eq!(cached_image(&ev, g.nodes[inv].outputs[0]).pixels, vec![px(255, 255, 255)]);
}

#[test]
fn kinds_have_names_and_colors() {
    assert_eq!(DataType::Image.name(), "image");
    assert_eq!(DataType::Boolean.name(), "boolean");
    assert_eq!(DataType::Slice.data_type_color(), px(214, 65, 10));
    assert_eq!(DataType::Image.data_type_color(), px(38, 109, 211));
    assert_eq!(NodeTemplate::HueRotate.node_graph_label(), "Hue Rotate".to_string());
    let kinds = node_image::catalog::AllNodeTemplates.all_kinds();
    assert_eq!(kinds, all_kinds());
    assert_eq!(kinds[0], NodeTemplate::ImageFetcher);
}
