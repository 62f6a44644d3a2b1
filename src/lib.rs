//! A dataflow engine for image processing: typed node graphs whose outputs
//! are pulled, computed once per pass and cached, over a small library of
//! verified pixel transforms.
//!
//! - `image`: color images and single-channel slices, with their models.
//! - `transform`: gray conversion, channel split and merge, inversion,
//!   flips and quarter-turn rotations.
//! - `fft`: the quadrant swap that centers a 2D spectrum.
//! - `codec`: decoding fetched bytes and testing their declared type.
//! - `value`: the values on the wires and how a node reads them.
//! - `catalog`: the node templates and the ports each declares.
//! - `graph`: the graph store.
//! - `eval`: memoized pull evaluation of a graph.
//! - `pipeline`: the fixed gray-then-spectrum pipeline.
//! - `state`: presentation choices kept for callers.

pub mod image;
pub mod transform;
pub mod fft;
pub mod codec;
pub mod value;
pub mod catalog;
pub mod graph;
pub mod eval;
pub mod pipeline;
pub mod state;
