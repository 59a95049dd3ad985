use vstd::prelude::*;

verus! {

/// An opaque color value usable as a cell's foreground or background.
///
/// The renderer that consumes diff output maps these to whatever color
/// representation its output device expects.
#[derive(Clone, Copy, PartialEq, Eq, Structural, Debug)]
pub enum Color {
    Black,
    White,
    Rgb { red: u8, green: u8, blue: u8 },
}

} // verus!
