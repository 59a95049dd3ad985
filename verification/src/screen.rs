use vstd::prelude::*;

verus! {

/// The fixed size of a rectangular cell buffer: `height` rows, each of
/// `width` cells.
#[derive(Clone, Copy, PartialEq, Eq, Structural, Debug)]
pub struct Dimension {
    pub height: u16,
    pub width: u16,
}

} // verus!
