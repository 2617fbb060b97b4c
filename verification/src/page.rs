//! The pages of the display.

use vstd::prelude::*;

verus! {

/// A page of the display: the one that is shown is the current view.
#[derive(Clone, Copy, PartialEq, Eq, Structural, Debug)]
pub enum View {
    Dashboard,
    Processes,
    Battery,
    Gpu,
}

} // verus!
