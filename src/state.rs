//! Presentation choices that the library keeps for its callers.

use vstd::prelude::*;

verus! {

/// Which view of the selected node's image the output panel shows.
#[derive(Clone, Copy, PartialEq, Eq, Structural, Debug)]
pub enum OutputPanel {
    Image,
    Spectrum,
}

impl Default for OutputPanel {
    fn default() -> (r: Self)
        ensures
            r == OutputPanel::Image,
    {
        OutputPanel::Image
    }
}

} // verus!
