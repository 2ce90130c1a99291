use vstd::prelude::*;

use crate::blit_target::{BlitTarget, draw_clipped};
use crate::blitable::Blitable;
use crate::point::Point;
use crate::surface::{paint, is_point, point_cell, Cells, lemma_paint_union, lemma_paint_empty};

verus! {

/// The line style of a `Frame`.
#[derive(Clone, Copy, Debug, PartialEq, Eq, Structural)]
pub enum FrameType {
    Light,
    Double,
}

/// A decorative border of a declared size; it holds no storage and draws
/// itself through the target's primitives.
pub struct Frame {
    pub frame_type: FrameType,
    pub width: u16,
    pub height: u16,
}

const TOP_LEFT: usize = 0;
const TOP_RIGHT: usize = 1;
const BOTTOM_LEFT: usize = 2;
const BOTTOM_RIGHT: usize = 3;
const TOP_BOTTOM: usize = 4;
const LEFT_RIGHT: usize = 5;

/// The six glyphs of a style: the four corners (top left, top right, bottom
/// left, bottom right), the horizontal edge and the vertical edge.
pub open spec fn frame_glyphs(t: FrameType) -> Seq<char> {
    match t {
        FrameType::Light => seq!['┌', '┐', '└', '┘', '─', '│'],
        FrameType::Double => seq!['╔', '╗', '╚', '╝', '═', '║'],
    }
}

/// The top and bottom rows of a `w × h` box at `pos`, without the corner columns.
pub open spec fn frame_rows(pos: Point, w: int, h: int) -> Set<(int, int)> {
    Set::new(|k: (int, int)| is_point(k) && pos.x + 1 <= k.0 < pos.x + w - 1
        && (k.1 == pos.y || k.1 == pos.y + h - 1))
}

/// The left and right columns of a `w × h` box at `pos`, without the corner rows.
pub open spec fn frame_cols(pos: Point, w: int, h: int) -> Set<(int, int)> {
    Set::new(|k: (int, int)| is_point(k) && pos.y + 1 <= k.1 < pos.y + h - 1
        && (k.0 == pos.x || k.0 == pos.x + w - 1))
}

/// A surface holding `m` after a frame of style `t` and size `w × h` was drawn
/// at `pos`: the corners in the order top left, top right, bottom left, bottom
/// right (the last write wins where a small box makes them meet; with a width
/// or height of 0 the far corners fall one cell before `pos`), then the
/// horizontal edges, then the vertical edges.
pub open spec fn frame_paint(m: Cells, t: FrameType, w: int, h: int, pos: Point) -> Cells {
    let g = frame_glyphs(t);
    let m1 = paint(m, point_cell(pos.x as int, pos.y as int), g[0]);
    let m2 = paint(m1, point_cell(pos.x + w - 1, pos.y as int), g[1]);
    let m3 = paint(m2, point_cell(pos.x as int, pos.y + h - 1), g[2]);
    let m4 = paint(m3, point_cell(pos.x + w - 1, pos.y + h - 1), g[3]);
    let m5 = paint(m4, frame_rows(pos, w, h), g[4]);
    paint(m5, frame_cols(pos, w, h), g[5])
}

impl Frame {
    /// Construct a new `Frame`.
    pub fn new(frame_type: FrameType, width: u16, height: u16) -> (r: Frame)
        ensures
            r.frame_type == frame_type,
            r.width == width,
            r.height == height,
    {
        Frame { frame_type, width, height }
    }

    /// The glyphs of this frame's style.
    fn charset(&self) -> (r: [char; 6])
        ensures
            r@ == frame_glyphs(self.frame_type),
    {
        let r: [char; 6] = match self.frame_type {
            FrameType::Light => ['┌', '┐', '└', '┘', '─', '│'],
            FrameType::Double => ['╔', '╗', '╚', '╝', '═', '║'],
        };
        assert(r@ =~= frame_glyphs(self.frame_type));
        r
    }
}

impl Blitable for Frame {
    open spec fn blit_cells(&self, m: Cells, pos: Point) -> Cells {
        frame_paint(m, self.frame_type, self.width as int, self.height as int, pos)
    }

    fn blit<T: BlitTarget>(&self, target: &mut T, pos: Point) {
        let ghost m0 = target.cells();
        let charset = self.charset();
        let x0: i32 = pos.x as i32;
        let y0: i32 = pos.y as i32;
        let x_last: i32 = x0 + self.width as i32 - 1;
        let y_last: i32 = y0 + self.height as i32 - 1;
        draw_clipped(target, charset[TOP_LEFT], x0, y0);
        draw_clipped(target, charset[TOP_RIGHT], x_last, y0);
        draw_clipped(target, charset[BOTTOM_LEFT], x0, y_last);
        draw_clipped(target, charset[BOTTOM_RIGHT], x_last, y_last);
        let ghost m4 = target.cells();
        proof {
            lemma_paint_empty(m4, charset@[4]);
            assert(edge_rows(pos, x0 + 1, x_last as int, y_last as int) =~= Set::empty());
        }
        let mut x: i32 = x0 + 1;
        while x < x_last
            invariant
                x0 + 1 <= x,
                x <= x_last || x == x0 + 1,
                x0 == pos.x, y0 == pos.y,
                x_last == pos.x + self.width - 1, y_last == pos.y + self.height - 1,
                charset@ == frame_glyphs(self.frame_type),
                target.cells() == paint(m4, edge_rows(pos, x as int, x_last as int, y_last as int), charset@[4]),
            decreases x_last - x,
        {
            let ghost s = edge_rows(pos, x as int, x_last as int, y_last as int);
            draw_clipped(target, charset[TOP_BOTTOM], x, y0);
            draw_clipped(target, charset[TOP_BOTTOM], x, y_last);
            proof {
                lemma_paint_union(m4, s, point_cell(x as int, y0 as int), charset@[4]);
                lemma_paint_union(m4, s.union(point_cell(x as int, y0 as int)),
                    point_cell(x as int, y_last as int), charset@[4]);
                assert(s.union(point_cell(x as int, y0 as int)).union(point_cell(x as int, y_last as int))
                    =~= edge_rows(pos, x + 1, x_last as int, y_last as int));
            }
            x = x + 1;
        }
        proof {
            assert(edge_rows(pos, x as int, x_last as int, y_last as int)
                =~= frame_rows(pos, self.width as int, self.height as int));
        }
        let ghost m5 = target.cells();
        proof {
            lemma_paint_empty(m5, charset@[5]);
            assert(edge_cols(pos, y0 + 1, x_last as int, y_last as int) =~= Set::empty());
        }
        let mut y: i32 = y0 + 1;
        while y < y_last
            invariant
                y0 + 1 <= y,
                y <= y_last || y == y0 + 1,
                x0 == pos.x, y0 == pos.y,
                x_last == pos.x + self.width - 1, y_last == pos.y + self.height - 1,
                charset@ == frame_glyphs(self.frame_type),
                target.cells() == paint(m5, edge_cols(pos, y as int, x_last as int, y_last as int), charset@[5]),
            decreases y_last - y,
        {
            let ghost s = edge_cols(pos, y as int, x_last as int, y_last as int);
            draw_clipped(target, charset[LEFT_RIGHT], x0, y);
            draw_clipped(target, charset[LEFT_RIGHT], x_last, y);
            proof {
                lemma_paint_union(m5, s, point_cell(x0 as int, y as int), charset@[5]);
                lemma_paint_union(m5, s.union(point_cell(x0 as int, y as int)),
                    point_cell(x_last as int, y as int), charset@[5]);
                assert(s.union(point_cell(x0 as int, y as int)).union(point_cell(x_last as int, y as int))
                    =~= edge_cols(pos, y + 1, x_last as int, y_last as int));
            }
            y = y + 1;
        }
        proof {
            assert(edge_cols(pos, y as int, x_last as int, y_last as int)
                =~= frame_cols(pos, self.width as int, self.height as int));
        }
    }
}

/// The horizontal edges drawn so far: columns `[pos.x + 1, x)` of the top row
/// and of row `y_last`.
spec fn edge_rows(pos: Point, x: int, x_last: int, y_last: int) -> Set<(int, int)> {
    Set::new(|k: (int, int)| is_point(k) && pos.x + 1 <= k.0 < x && (k.1 == pos.y || k.1 == y_last))
}

/// The vertical edges drawn so far: rows `[pos.y + 1, y)` of the left column
/// and of column `x_last`.
spec fn edge_cols(pos: Point, y: int, x_last: int, y_last: int) -> Set<(int, int)> {
    Set::new(|k: (int, int)| is_point(k) && pos.y + 1 <= k.1 < y && (k.0 == pos.x || k.0 == x_last))
}

} // verus!
