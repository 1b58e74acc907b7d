use vstd::prelude::*;

verus! {

/// A two-dimensional display position.
///
/// `x` is a column measured in terminal cells (wide glyphs occupy two cells,
/// zero-width codepoints none); `y` is a zero-based line or row index.
#[derive(Debug, Clone, Copy, PartialEq, Eq, Structural)]
pub struct Vec2 {
    pub x: usize,
    pub y: usize,
}

impl Vec2 {
    pub fn new(x: usize, y: usize) -> (r: Vec2)
        ensures
            r.x == x,
            r.y == y,
    {
        Vec2 { x, y }
    }
}

} // verus!
