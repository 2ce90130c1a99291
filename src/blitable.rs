use vstd::prelude::*;

use crate::blit_target::BlitTarget;
use crate::point::Point;
use crate::surface::Cells;

verus! {

/// A type that may be 'blitted' to a `BlitTarget`.
///
/// 'Blitting' involves drawing the contents of a type to a target. `Window`s
/// themselves implement `Blitable`, so a `Window` can be blitted to another
/// `Window`: this is how 'sub windows' are made.
pub trait Blitable {
    /// What blitting this source at `pos` makes of a target holding `m`.
    spec fn blit_cells(&self, m: Cells, pos: Point) -> Cells;

    /// Blit to the target at an offset from the origin.
    fn blit<T: BlitTarget>(&self, target: &mut T, pos: Point)
        ensures
            final(target).cells() == self.blit_cells(old(target).cells(), pos),
    ;
}

} // verus!
