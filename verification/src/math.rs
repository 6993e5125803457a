//! Small geometric and color value types shared by the rest of the crate.

use vstd::prelude::*;

verus! {

/// Integer coordinate of a cube in a voxel grid.
///
/// Mirrors the role of a three-component integer point; kept as plain fields
/// so that equality and ordering are plain field equality.
#[derive(Clone, Copy, Debug, PartialEq, Eq, Hash, Structural)]
pub struct GridPoint {
    pub x: i32,
    pub y: i32,
    pub z: i32,
}

impl GridPoint {
    pub fn new(x: i32, y: i32, z: i32) -> (p: GridPoint)
        ensures
            p == (GridPoint { x, y, z }),
    {
        GridPoint { x, y, z }
    }
}

/// A color with red, green, blue and alpha components, stored as 8-bit sRGB
/// values. Block colors carry no more precision than this in this crate.
#[derive(Clone, Copy, Debug, PartialEq, Eq, Hash, Structural)]
pub struct Rgba {
    pub red: u8,
    pub green: u8,
    pub blue: u8,
    pub alpha: u8,
}

impl Rgba {
    pub fn new(red: u8, green: u8, blue: u8, alpha: u8) -> (c: Rgba)
        ensures
            c == (Rgba { red, green, blue, alpha }),
    {
        Rgba { red, green, blue, alpha }
    }
}

} // verus!
