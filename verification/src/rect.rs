use vstd::prelude::*;

verus! {

/// An axis-aligned rectangle in pixel coordinates: `x`, `y` is the top-left
/// corner, `w` and `h` are the extents.
#[derive(Debug, Copy, Clone, PartialEq, Eq, Structural)]
pub struct Rect {
    pub x: i32,
    pub y: i32,
    pub w: u32,
    pub h: u32,
}

} // verus!
