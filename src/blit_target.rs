use vstd::prelude::*;
use vstd::set_lib::{set_int_range, lemma_int_range, lemma_map_size, lemma_set_disjoint_lens};

use crate::circle::{ring_cells, disk_cells};
use crate::point::Point;
use crate::surface::{put, paint, is_point, point_cell, Cells, lemma_put_is_paint};

verus! {

/// The cells of the filled rectangle `[x, x + w) × [y, y + h)` that can be
/// written as points; empty where `w` or `h` is not positive.
pub open spec fn rect_cells(pos: Point, w: int, h: int) -> Set<(int, int)> {
    Set::new(|k: (int, int)|
        pos.x <= k.0 < pos.x + w && pos.y <= k.1 < pos.y + h && is_point(k))
}

/// The outline of the `w × h` rectangle at `pos`: its top row `y = pos.y` and
/// its bottom row `y = pos.y + h - 1` over `x ∈ [pos.x, pos.x + w)`, and its
/// left column `x = pos.x` and right column `x = pos.x + w - 1` over the rows
/// strictly between those two. Only cells that can be written as points.
/// Sizes are not checked: with `w <= 0` the two side columns are still
/// drawn over the interior rows, and with `h <= 0` the two rows still are.
pub open spec fn outline_cells(pos: Point, w: int, h: int) -> Set<(int, int)> {
    Set::new(|k: (int, int)| is_point(k) && (
        (pos.x <= k.0 < pos.x + w && (k.1 == pos.y || k.1 == pos.y + h - 1))
        || (pos.y + 1 <= k.1 < pos.y + h - 1 && (k.0 == pos.x || k.0 == pos.x + w - 1))))
}

/// The outline of a box at least two cells wide and tall is its rectangle
/// without the `(w - 2) × (h - 2)` interior: every cell of the perimeter, each
/// corner once, and no other.
pub proof fn outline_is_perimeter(pos: Point, w: int, h: int)
    requires
        w >= 2,
        h >= 2,
    ensures
        outline_cells(pos, w, h) == rect_cells(pos, w, h).difference(Set::new(|k: (int, int)|
            pos.x + 1 <= k.0 < pos.x + w - 1 && pos.y + 1 <= k.1 < pos.y + h - 1)),
{
    assert(outline_cells(pos, w, h) =~= rect_cells(pos, w, h).difference(Set::new(|k: (int, int)|
        pos.x + 1 <= k.0 < pos.x + w - 1 && pos.y + 1 <= k.1 < pos.y + h - 1)));
}

/// The cells of `[x0, x1) × [y0, y1)`.
spec fn block(x0: int, x1: int, y0: int, y1: int) -> Set<(int, int)> {
    Set::new(|k: (int, int)| x0 <= k.0 < x1 && y0 <= k.1 < y1)
}

proof fn lemma_block_len(x0: int, x1: int, y0: int, y1: int)
    requires
        x0 <= x1,
        y0 <= y1,
    ensures
        block(x0, x1, y0, y1).finite(),
        block(x0, x1, y0, y1).len() == (x1 - x0) * (y1 - y0),
    decreases y1 - y0,
{
    if y0 == y1 {
        assert(block(x0, x1, y0, y1) =~= Set::empty());
    } else {
        lemma_block_len(x0, x1, y0, y1 - 1);
        let f = |x: int| (x, y1 - 1);
        lemma_int_range(x0, x1);
        let row = set_int_range(x0, x1).map(f);
        assert forall|k: (int, int)| #[trigger] block(x0, x1, y1 - 1, y1).contains(k) implies row.contains(k) by {
            assert(set_int_range(x0, x1).contains(k.0) && f(k.0) == k);
        }
        assert(row =~= block(x0, x1, y1 - 1, y1));
        lemma_map_size(set_int_range(x0, x1), row, f);
        lemma_set_disjoint_lens(block(x0, x1, y0, y1 - 1), row);
        assert(block(x0, x1, y0, y1 - 1).disjoint(row));
        assert(block(x0, x1, y0, y1 - 1) + row =~= block(x0, x1, y0, y1));
        assert((x1 - x0) * (y1 - y0) == (x1 - x0) * (y1 - 1 - y0) + (x1 - x0)) by (nonlinear_arith);
    }
}

/// A filled `w × h` rectangle whose cells can all be written as points is
/// exactly `w · h` cells.
pub proof fn filled_square_count(pos: Point, w: int, h: int)
    requires
        0 <= w,
        0 <= h,
        pos.x + w <= i16::MAX + 1,
        pos.y + h <= i16::MAX + 1,
    ensures
        rect_cells(pos, w, h).finite(),
        rect_cells(pos, w, h).len() == w * h,
{
    assert(rect_cells(pos, w, h) =~= block(pos.x as int, pos.x + w, pos.y as int, pos.y + h));
    lemma_block_len(pos.x as int, pos.x + w, pos.y as int, pos.y + h);
}

/// The outline of a box at least two cells wide and tall, whose cells can all
/// be written as points, is `2w + 2(h - 2)` cells: each corner counted once.
pub proof fn outline_count(pos: Point, w: int, h: int)
    requires
        w >= 2,
        h >= 2,
        pos.x + w <= i16::MAX + 1,
        pos.y + h <= i16::MAX + 1,
    ensures
        outline_cells(pos, w, h).finite(),
        outline_cells(pos, w, h).len() == 2 * w + 2 * (h - 2),
{
    let rect = block(pos.x as int, pos.x + w, pos.y as int, pos.y + h);
    let inner = block(pos.x + 1, pos.x + w - 1, pos.y + 1, pos.y + h - 1);
    filled_square_count(pos, w, h);
    assert(rect_cells(pos, w, h) =~= rect);
    lemma_block_len(pos.x + 1, pos.x + w - 1, pos.y + 1, pos.y + h - 1);
    assert(outline_cells(pos, w, h) =~= rect.difference(inner));
    lemma_set_disjoint_lens(rect.difference(inner), inner);
    assert(rect.difference(inner).disjoint(inner));
    assert(rect.difference(inner) + inner =~= rect);
    assert(w * h == 2 * w + 2 * (h - 2) + (w - 2) * (h - 2)) by (nonlinear_arith);
}

/// A surface that primitives can be drawn on and that sources can be blitted to.
pub trait BlitTarget {
    /// The surface's current contents; its domain is the clip rectangle.
    spec fn cells(&self) -> Cells;

    /// Draw a single point with the provided brush; a point outside the clip
    /// rectangle is dropped.
    fn draw(&mut self, brush: char, pos: Point)
        ensures
            final(self).cells() == put(old(self).cells(), (pos.x as int, pos.y as int), brush),
    ;

    /// Draw a hollow rectangle with the provided brush.
    fn draw_square(&mut self, brush: char, pos: Point, width: i16, height: i16)
        ensures
            final(self).cells() == paint(old(self).cells(), outline_cells(pos, width as int, height as int), brush),
    ;

    /// Draw a filled rectangle with the provided brush.
    fn draw_filled_square(&mut self, brush: char, pos: Point, width: i16, height: i16)
        ensures
            final(self).cells() == paint(old(self).cells(), rect_cells(pos, width as int, height as int), brush),
    ;

    /// Draw a hollow circle centered at `pos` with the provided brush. At
    /// radius 0 the arc's second sample `(1, -1)` also marks the four diagonal
    /// neighbours of the center.
    fn draw_circle(&mut self, brush: char, pos: Point, radius: u16)
        ensures
            final(self).cells() == paint(old(self).cells(), ring_cells(pos, radius), brush),
    ;

    /// Draw a filled circle centered at `pos` with the provided brush.
    fn draw_filled_circle(&mut self, brush: char, pos: Point, radius: u16)
        ensures
            final(self).cells() == paint(old(self).cells(), disk_cells(pos, radius), brush),
    ;
}

/// Draw `brush` at `(x, y)` on `target` where those coordinates can be written
/// as a point; coordinates outside the signed 16-bit range are dropped, as they
/// lie outside every clip rectangle.
pub fn draw_clipped<T: BlitTarget>(target: &mut T, brush: char, x: i32, y: i32)
    ensures
        final(target).cells() == paint(old(target).cells(), point_cell(x as int, y as int), brush),
{
    if -32768 <= x && x <= 32767 && -32768 <= y && y <= 32767 {
        target.draw(brush, Point { x: x as i16, y: y as i16 });
        proof {
            lemma_put_is_paint(old(target).cells(), x as int, y as int, brush);
        }
    } else {
        assert(paint(old(target).cells(), point_cell(x as int, y as int), brush) =~= old(target).cells());
    }
}

} // verus!
