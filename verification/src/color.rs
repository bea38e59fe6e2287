use vstd::prelude::*;

verus! {

/// An RGBA color with 8-bit channels, the element type of the output
/// pixel buffer.
#[derive(Clone, Copy, PartialEq, Eq, Structural, Debug)]
pub struct Color {
    pub r: u8,
    pub g: u8,
    pub b: u8,
    pub a: u8,
}

} // verus!
