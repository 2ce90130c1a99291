use vstd::prelude::*;

verus! {

/// A width and a height.
pub struct Size {
    pub width: u16,
    pub height: u16,
}

impl Size {
    /// Construct a new `Size`.
    pub fn new(width: u16, height: u16) -> (r: Size)
        ensures
            r.width == width,
            r.height == height,
    {
        Size { width, height }
    }
}

} // verus!
