use vstd::prelude::*;

use crate::point::fits_i16;

verus! {

/// What a drawing destination holds: one character for each cell of its
/// clip rectangle, keyed by `(x, y)`.
pub type Cells = Map<(int, int), char>;

/// A single clipped write: `p` takes `c` when it lies in the clip rectangle,
/// and nothing changes otherwise.
pub open spec fn put(m: Cells, p: (int, int), c: char) -> Cells {
    if m.dom().contains(p) {
        m.insert(p, c)
    } else {
        m
    }
}

/// Every cell of `s` that lies in the clip rectangle takes `c`; the others keep
/// their character.
pub open spec fn paint(m: Cells, s: Set<(int, int)>, c: char) -> Cells {
    Map::new(|k: (int, int)| m.dom().contains(k), |k: (int, int)| if s.contains(k) { c } else { m[k] })
}

/// Both coordinates of `p` can be written as a `Point`.
pub open spec fn is_point(p: (int, int)) -> bool {
    fits_i16(p.0) && fits_i16(p.1)
}

/// The one cell `(x, y)` where it can be written as a point, else nothing.
pub open spec fn point_cell(x: int, y: int) -> Set<(int, int)> {
    Set::new(|k: (int, int)| k == (x, y) && is_point(k))
}

pub proof fn lemma_paint_union(m: Cells, s: Set<(int, int)>, t: Set<(int, int)>, c: char)
    ensures
        paint(paint(m, s, c), t, c) == paint(m, s.union(t), c),
{
    assert(paint(paint(m, s, c), t, c) =~= paint(m, s.union(t), c));
}

pub proof fn lemma_paint_empty(m: Cells, c: char)
    ensures
        paint(m, Set::empty(), c) == m,
{
    assert(paint(m, Set::empty(), c) =~= m);
}

pub proof fn lemma_put_is_paint(m: Cells, x: int, y: int, c: char)
    requires
        is_point((x, y)),
    ensures
        put(m, (x, y), c) == paint(m, point_cell(x, y), c),
{
    assert(put(m, (x, y), c) =~= paint(m, point_cell(x, y), c));
}

} // verus!
