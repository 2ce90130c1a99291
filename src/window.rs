use vstd::prelude::*;

use crate::blit_target::{BlitTarget, rect_cells, outline_cells, draw_clipped};
use crate::blitable::Blitable;
use crate::circle::{arc, ring_hit, disk_hit, ring_cells, disk_cells, eight_cells, trace_arc};
use crate::point::Point;
use crate::surface::{put, paint, is_point, point_cell, Cells, lemma_paint_union, lemma_paint_empty, lemma_put_is_paint};

verus! {

/// Why a `Window` could not be built.
#[derive(Clone, Copy, Debug, PartialEq, Eq, Structural)]
pub enum ConstructionError {
    /// The width does not fit in a signed 16-bit coordinate.
    TooWide,
    /// The height does not fit in a signed 16-bit coordinate.
    TooTall,
}

/// A render context and/or target: a `WIDTH × HEIGHT` array of characters, stored
/// row by row, with functions to manipulate the contents.
pub struct Window<const WIDTH: usize, const HEIGHT: usize> {
    data: [[char; WIDTH]; HEIGHT],
}

/// The dimensions can be spanned by signed 16-bit coordinates.
pub open spec fn dims_fit(width: usize, height: usize) -> bool {
    width <= i16::MAX && height <= i16::MAX
}

impl<const WIDTH: usize, const HEIGHT: usize> Window<WIDTH, HEIGHT> {
    #[verifier::type_invariant]
    spec fn inv(&self) -> bool {
        dims_fit(WIDTH, HEIGHT)
    }

    /// The character at column `x`, row `y`.
    pub closed spec fn at(&self, x: int, y: int) -> char {
        self.data@[y]@[x]
    }

    /// Construct a new `Window`, initialized to empty space.
    pub fn new() -> (r: Result<Self, ConstructionError>)
        ensures
            WIDTH > i16::MAX ==> r == Err::<Self, _>(ConstructionError::TooWide),
            WIDTH <= i16::MAX && HEIGHT > i16::MAX ==> r == Err::<Self, _>(ConstructionError::TooTall),
            dims_fit(WIDTH, HEIGHT) ==> r is Ok && r->Ok_0.cells() == Map::new(
                |k: (int, int)| 0 <= k.0 < WIDTH && 0 <= k.1 < HEIGHT, |k: (int, int)| ' '),
    {
        Self::new_with_fill(' ')
    }

    /// Construct a new `Window`, initialized to the provided character.
    pub fn new_with_fill(fill: char) -> (r: Result<Self, ConstructionError>)
        ensures
            WIDTH > i16::MAX ==> r == Err::<Self, _>(ConstructionError::TooWide),
            WIDTH <= i16::MAX && HEIGHT > i16::MAX ==> r == Err::<Self, _>(ConstructionError::TooTall),
            dims_fit(WIDTH, HEIGHT) ==> r is Ok && r->Ok_0.cells() == Map::new(
                |k: (int, int)| 0 <= k.0 < WIDTH && 0 <= k.1 < HEIGHT, |k: (int, int)| fill),
    {
        if WIDTH > 32767 {
            return Err(ConstructionError::TooWide);
        }
        if HEIGHT > 32767 {
            return Err(ConstructionError::TooTall);
        }
        let row: [char; WIDTH] = [fill; WIDTH];
        let data: [[char; WIDTH]; HEIGHT] = [row; HEIGHT];
        let w = Window { data };
        assert(w.cells() =~= Map::new(
            |k: (int, int)| 0 <= k.0 < WIDTH && 0 <= k.1 < HEIGHT, |k: (int, int)| fill));
        Ok(w)
    }

    /// The single place where storage is written: `pos` takes `brush` when it
    /// lies in `[0, WIDTH) × [0, HEIGHT)`, and nothing happens otherwise.
    fn write_cell(&mut self, brush: char, pos: Point)
        ensures
            final(self).cells() == put(old(self).cells(), (pos.x as int, pos.y as int), brush),
    {
        proof {
            use_type_invariant(&*self);
        }
        if pos.x >= 0 && pos.y >= 0 && (pos.x as usize) < WIDTH && (pos.y as usize) < HEIGHT {
            let x: usize = pos.x as usize;
            let y: usize = pos.y as usize;
            let mut row: [char; WIDTH] = self.data[y];
            row[x] = brush;
            self.data[y] = row;
        }
        assert(self.cells() =~= put(old(self).cells(), (pos.x as int, pos.y as int), brush));
    }

    /// `write_cell` on wide coordinates: those outside the signed 16-bit range
    /// lie outside the clip rectangle and are dropped.
    fn write_at(&mut self, brush: char, x: i32, y: i32)
        ensures
            final(self).cells() == paint(old(self).cells(), point_cell(x as int, y as int), brush),
    {
        if -32768 <= x && x <= 32767 && -32768 <= y && y <= 32767 {
            self.write_cell(brush, Point { x: x as i16, y: y as i16 });
            proof {
                lemma_put_is_paint(old(self).cells(), x as int, y as int, brush);
            }
        } else {
            assert(paint(old(self).cells(), point_cell(x as int, y as int), brush) =~= old(self).cells());
        }
    }

    /// Draw `brush` at the eight reflections of `(a, b)` around `(cx, cy)`.
    fn plot_eight(&mut self, brush: char, cx: i32, cy: i32, a: i32, b: i32)
        requires
            -40000 <= cx <= 40000, -40000 <= cy <= 40000,
            -40000 <= a <= 40000, -40000 <= b <= 40000,
        ensures
            final(self).cells() == paint(old(self).cells(), eight_cells(cx as int, cy as int, a as int, b as int), brush),
    {
        let ghost m0 = self.cells();
        self.write_at(brush, cx + a, cy + b);
        self.write_at(brush, cx - a, cy + b);
        self.write_at(brush, cx + a, cy - b);
        self.write_at(brush, cx - a, cy - b);
        self.write_at(brush, cx + b, cy + a);
        self.write_at(brush, cx - b, cy + a);
        self.write_at(brush, cx + b, cy - a);
        self.write_at(brush, cx - b, cy - a);
        proof {
            let c0 = point_cell(cx + a, cy + b);
            let c1 = point_cell(cx - a, cy + b);
            let c2 = point_cell(cx + a, cy - b);
            let c3 = point_cell(cx - a, cy - b);
            let c4 = point_cell(cx + b, cy + a);
            let c5 = point_cell(cx - b, cy + a);
            let c6 = point_cell(cx + b, cy - a);
            let c7 = point_cell(cx - b, cy - a);
            lemma_paint_union(m0, c0, c1, brush);
            lemma_paint_union(m0, c0.union(c1), c2, brush);
            lemma_paint_union(m0, c0.union(c1).union(c2), c3, brush);
            lemma_paint_union(m0, c0.union(c1).union(c2).union(c3), c4, brush);
            lemma_paint_union(m0, c0.union(c1).union(c2).union(c3).union(c4), c5, brush);
            lemma_paint_union(m0, c0.union(c1).union(c2).union(c3).union(c4).union(c5), c6, brush);
            lemma_paint_union(m0, c0.union(c1).union(c2).union(c3).union(c4).union(c5).union(c6), c7, brush);
            assert(c0.union(c1).union(c2).union(c3).union(c4).union(c5).union(c6).union(c7)
                =~= eight_cells(cx as int, cy as int, a as int, b as int));
        }
    }

    /// Render the `Window`'s current state: row `y` of the result is row `y`
    /// of the window.
    pub fn render(&self) -> (r: [[char; WIDTH]; HEIGHT])
        ensures
            forall|x: int, y: int| 0 <= x < WIDTH && 0 <= y < HEIGHT ==> r@[y]@[x] == self.at(x, y),
    {
        self.data
    }

    /// The width of the `Window`.
    pub fn width() -> (r: usize)
        ensures
            r == WIDTH,
    {
        WIDTH
    }

    /// The height of the `Window`.
    pub fn height() -> (r: usize)
        ensures
            r == HEIGHT,
    {
        HEIGHT
    }
}

/// The top and bottom rows of an outline, over the columns `[x0, x)`.
spec fn rows_drawn(x0: int, x: int, y_top: int, y_bottom: int) -> Set<(int, int)> {
    Set::new(|k: (int, int)| is_point(k) && x0 <= k.0 < x && (k.1 == y_top || k.1 == y_bottom))
}

/// The left and right columns of an outline, over the rows `[y0, y)`.
spec fn cols_drawn(x0: int, x1: int, y0: int, y: int) -> Set<(int, int)> {
    Set::new(|k: (int, int)| is_point(k) && y0 <= k.1 < y && (k.0 == x0 || k.0 == x1 - 1))
}

/// The cells marked by the first `n` samples of the hollow circle.
spec fn ring_part(pos: Point, radius: u16, n: int) -> Set<(int, int)> {
    Set::new(|k: (int, int)| is_point(k)
        && exists|j: int| j < n && #[trigger] ring_hit(radius, j, k.0 - pos.x, k.1 - pos.y))
}

/// The cells marked by the first `n` samples of the filled circle.
spec fn disk_part(pos: Point, radius: u16, n: int) -> Set<(int, int)> {
    Set::new(|k: (int, int)| is_point(k)
        && exists|j: int, s: int| j < n && #[trigger] disk_hit(radius, j, s, k.0 - pos.x, k.1 - pos.y))
}

/// The cells marked by sample `n` of the filled circle at heights below `t`.
spec fn disk_span(pos: Point, radius: u16, n: int, t: int) -> Set<(int, int)> {
    Set::new(|k: (int, int)| is_point(k)
        && exists|s: int| s < t && #[trigger] disk_hit(radius, n, s, k.0 - pos.x, k.1 - pos.y))
}

/// The rows `[y0, y)` of the rectangle over columns `[x0, x1)`, and the cells
/// `[x0, x)` of row `y`.
spec fn rect_part(x0: int, x1: int, y0: int, y: int, x: int) -> Set<(int, int)> {
    Set::new(|k: (int, int)| is_point(k) && (
        (y0 <= k.1 < y && x0 <= k.0 < x1) || (k.1 == y && x0 <= k.0 < x)))
}

impl<const WIDTH: usize, const HEIGHT: usize> BlitTarget for Window<WIDTH, HEIGHT> {
    open spec fn cells(&self) -> Cells {
        Map::new(|k: (int, int)| 0 <= k.0 < WIDTH && 0 <= k.1 < HEIGHT, |k: (int, int)| self.at(k.0, k.1))
    }

    fn draw(&mut self, brush: char, pos: Point) {
        self.write_cell(brush, pos);
    }

    fn draw_square(&mut self, brush: char, pos: Point, width: i16, height: i16) {
        let ghost m0 = self.cells();
        let x0: i32 = pos.x as i32;
        let y0: i32 = pos.y as i32;
        let x1: i32 = x0 + width as i32;
        let y_top: i32 = y0;
        let y_bottom: i32 = y0 + height as i32 - 1;
        proof {
            lemma_paint_empty(m0, brush);
            assert(rows_drawn(x0 as int, x0 as int, y_top as int, y_bottom as int) =~= Set::empty());
        }
        let mut x: i32 = x0;
        while x < x1
            invariant
                x0 <= x,
                x <= x1 || x == x0,
                x0 == pos.x, x1 == pos.x + width, y_top == pos.y, y_bottom == pos.y + height - 1,
                self.cells() == paint(m0, rows_drawn(x0 as int, x as int, y_top as int, y_bottom as int), brush),
            decreases x1 - x,
        {
            let ghost s = rows_drawn(x0 as int, x as int, y_top as int, y_bottom as int);
            self.write_at(brush, x, y_top);
            self.write_at(brush, x, y_bottom);
            proof {
                lemma_paint_union(m0, s, point_cell(x as int, y_top as int), brush);
                lemma_paint_union(m0, s.union(point_cell(x as int, y_top as int)),
                    point_cell(x as int, y_bottom as int), brush);
                assert(s.union(point_cell(x as int, y_top as int)).union(point_cell(x as int, y_bottom as int))
                    =~= rows_drawn(x0 as int, x + 1, y_top as int, y_bottom as int));
            }
            x = x + 1;
        }
        let ghost rows = rows_drawn(x0 as int, x1 as int, y_top as int, y_bottom as int);
        proof {
            assert(rows_drawn(x0 as int, x as int, y_top as int, y_bottom as int) =~= rows);
            assert(rows.union(cols_drawn(x0 as int, x1 as int, y_top + 1, y_top + 1)) =~= rows);
        }
        let mut y: i32 = y_top + 1;
        while y < y_bottom
            invariant
                y_top + 1 <= y,
                y <= y_bottom || y == y_top + 1,
                x0 == pos.x, x1 == pos.x + width, y_top == pos.y, y_bottom == pos.y + height - 1,
                rows == rows_drawn(x0 as int, x1 as int, y_top as int, y_bottom as int),
                self.cells() == paint(m0, rows.union(cols_drawn(x0 as int, x1 as int, y_top + 1, y as int)), brush),
            decreases y_bottom - y,
        {
            let ghost s = rows.union(cols_drawn(x0 as int, x1 as int, y_top + 1, y as int));
            self.write_at(brush, x0, y);
            self.write_at(brush, x1 - 1, y);
            proof {
                lemma_paint_union(m0, s, point_cell(x0 as int, y as int), brush);
                lemma_paint_union(m0, s.union(point_cell(x0 as int, y as int)),
                    point_cell(x1 - 1, y as int), brush);
                assert(s.union(point_cell(x0 as int, y as int)).union(point_cell(x1 - 1, y as int))
                    =~= rows.union(cols_drawn(x0 as int, x1 as int, y_top + 1, y + 1)));
            }
            y = y + 1;
        }
        proof {
            assert(rows.union(cols_drawn(x0 as int, x1 as int, y_top + 1, y as int))
                =~= outline_cells(pos, width as int, height as int));
        }
    }

    fn draw_filled_square(&mut self, brush: char, pos: Point, width: i16, height: i16) {
        let ghost m0 = self.cells();
        let x0: i32 = pos.x as i32;
        let y0: i32 = pos.y as i32;
        let x1: i32 = x0 + width as i32;
        let y1: i32 = y0 + height as i32;
        proof {
            lemma_paint_empty(m0, brush);
            assert(rect_part(x0 as int, x1 as int, y0 as int, y0 as int, x0 as int) =~= Set::empty());
        }
        let mut y: i32 = y0;
        while y < y1
            invariant
                y0 <= y,
                y <= y1 || y == y0,
                x0 == pos.x, x1 == pos.x + width, y0 == pos.y, y1 == pos.y + height,
                self.cells() == paint(m0, rect_part(x0 as int, x1 as int, y0 as int, y as int, x0 as int), brush),
            decreases y1 - y,
        {
            let mut x: i32 = x0;
            while x < x1
                invariant
                    x0 <= x,
                    x <= x1 || x == x0,
                    y0 <= y < y1,
                    x0 == pos.x, x1 == pos.x + width, y0 == pos.y, y1 == pos.y + height,
                    self.cells() == paint(m0, rect_part(x0 as int, x1 as int, y0 as int, y as int, x as int), brush),
                decreases x1 - x,
            {
                let ghost s = rect_part(x0 as int, x1 as int, y0 as int, y as int, x as int);
                self.write_at(brush, x, y);
                proof {
                    lemma_paint_union(m0, s, point_cell(x as int, y as int), brush);
                    assert(s.union(point_cell(x as int, y as int))
                        =~= rect_part(x0 as int, x1 as int, y0 as int, y as int, x + 1));
                }
                x = x + 1;
            }
            assert(rect_part(x0 as int, x1 as int, y0 as int, y as int, x as int)
                =~= rect_part(x0 as int, x1 as int, y0 as int, y + 1, x0 as int));
            y = y + 1;
        }
        assert(rect_part(x0 as int, x1 as int, y0 as int, y as int, x0 as int)
            =~= rect_cells(pos, width as int, height as int));
    }

    fn draw_circle(&mut self, brush: char, pos: Point, radius: u16) {
        let ghost m0 = self.cells();
        let samples = trace_arc(radius);
        proof {
            lemma_paint_empty(m0, brush);
            assert(ring_part(pos, radius, 0) =~= Set::empty());
        }
        let mut i: usize = 0;
        while i < samples.len()
            invariant
                i <= samples@.len(),
                samples@.len() == arc(radius).len(),
                forall|j: int| 0 <= j < samples@.len() ==> (samples@[j].0 as int, samples@[j].1 as int) == #[trigger] arc(radius)[j],
                forall|j: int| 0 <= j < samples@.len() ==> 0 <= #[trigger] samples@[j].0 <= 32768 && -2 <= samples@[j].1 <= 32767,
                self.cells() == paint(m0, ring_part(pos, radius, i as int), brush),
            decreases samples.len() - i,
        {
            let (a, b) = samples[i];
            assert(arc(radius)[i as int] == (a as int, b as int));
            self.plot_eight(brush, pos.x as i32, pos.y as i32, a, b);
            proof {
                let before = ring_part(pos, radius, i as int);
                let e = eight_cells(pos.x as int, pos.y as int, a as int, b as int);
                lemma_paint_union(m0, before, e, brush);
                assert forall|k: (int, int)| #[trigger] ring_part(pos, radius, i + 1).contains(k)
                    <==> before.union(e).contains(k) by {
                    if e.contains(k) {
                        assert(ring_hit(radius, i as int, k.0 - pos.x, k.1 - pos.y));
                    }
                }
                assert(before.union(e) =~= ring_part(pos, radius, i + 1));
            }
            i = i + 1;
        }
        proof {
            assert forall|k: (int, int)| #[trigger] ring_part(pos, radius, i as int).contains(k)
                <==> ring_cells(pos, radius).contains(k) by {}
            assert(ring_part(pos, radius, i as int) =~= ring_cells(pos, radius));
        }
    }

    fn draw_filled_circle(&mut self, brush: char, pos: Point, radius: u16) {
        let ghost m0 = self.cells();
        let samples = trace_arc(radius);
        proof {
            lemma_paint_empty(m0, brush);
            assert(disk_part(pos, radius, 0) =~= Set::empty());
        }
        let mut i: usize = 0;
        while i < samples.len()
            invariant
                i <= samples@.len(),
                samples@.len() == arc(radius).len(),
                forall|j: int| 0 <= j < samples@.len() ==> (samples@[j].0 as int, samples@[j].1 as int) == #[trigger] arc(radius)[j],
                forall|j: int| 0 <= j < samples@.len() ==> 0 <= #[trigger] samples@[j].0 <= 32768 && -2 <= samples@[j].1 <= 32767,
                self.cells() == paint(m0, disk_part(pos, radius, i as int), brush),
            decreases samples.len() - i,
        {
            let (a, b) = samples[i];
            assert(arc(radius)[i as int] == (a as int, b as int));
            let ghost done = disk_part(pos, radius, i as int);
            proof {
                assert(disk_span(pos, radius, i as int, a as int) =~= Set::empty());
                assert(done.union(disk_span(pos, radius, i as int, a as int)) =~= done);
            }
            let mut t: i32 = a;
            while t <= b
                invariant
                    a <= t,
                    t <= b + 1 || t == a,
                    0 <= a <= 32768, -2 <= b <= 32767,
                    i < samples@.len(),
                    samples@.len() == arc(radius).len(),
                    arc(radius)[i as int] == (a as int, b as int),
                    done == disk_part(pos, radius, i as int),
                    self.cells() == paint(m0, done.union(disk_span(pos, radius, i as int, t as int)), brush),
                decreases b + 1 - t,
            {
                self.plot_eight(brush, pos.x as i32, pos.y as i32, a, t);
                proof {
                    let before = done.union(disk_span(pos, radius, i as int, t as int));
                    let e = eight_cells(pos.x as int, pos.y as int, a as int, t as int);
                    lemma_paint_union(m0, before, e, brush);
                    assert forall|k: (int, int)| #[trigger] disk_span(pos, radius, i as int, t + 1).contains(k)
                        <==> disk_span(pos, radius, i as int, t as int).union(e).contains(k) by {
                        if e.contains(k) {
                            assert(disk_hit(radius, i as int, t as int, k.0 - pos.x, k.1 - pos.y));
                        }
                    }
                    assert(before.union(e) =~= done.union(disk_span(pos, radius, i as int, t + 1)));
                }
                t = t + 1;
            }
            proof {
                assert forall|k: (int, int)| #[trigger] disk_part(pos, radius, i + 1).contains(k)
                    <==> done.union(disk_span(pos, radius, i as int, t as int)).contains(k) by {
                    if disk_part(pos, radius, i + 1).contains(k) {
                        let (j, s) = choose|j: int, s: int| j < i + 1 && #[trigger] disk_hit(radius, j, s, k.0 - pos.x, k.1 - pos.y);
                        if j == i {
                            assert(disk_hit(radius, i as int, s, k.0 - pos.x, k.1 - pos.y));
                        } else {
                            assert(disk_hit(radius, j, s, k.0 - pos.x, k.1 - pos.y));
                        }
                    }
                    if disk_span(pos, radius, i as int, t as int).contains(k) {
                        let s = choose|s: int| s < t && #[trigger] disk_hit(radius, i as int, s, k.0 - pos.x, k.1 - pos.y);
                        assert(disk_hit(radius, i as int, s, k.0 - pos.x, k.1 - pos.y));
                    }
                }
                assert(done.union(disk_span(pos, radius, i as int, t as int)) =~= disk_part(pos, radius, i + 1));
            }
            i = i + 1;
        }
        proof {
            assert forall|k: (int, int)| #[trigger] disk_part(pos, radius, i as int).contains(k)
                <==> disk_cells(pos, radius).contains(k) by {}
            assert(disk_part(pos, radius, i as int) =~= disk_cells(pos, radius));
        }
    }
}

} // verus!

verus! {

impl<const WIDTH: usize, const HEIGHT: usize> Window<WIDTH, HEIGHT> {
    /// The target cell `k` receives source cell `k - pos`.
    pub open spec fn covers(pos: Point, k: (int, int)) -> bool {
        is_point(k) && 0 <= k.0 - pos.x < WIDTH && 0 <= k.1 - pos.y < HEIGHT
    }

    /// `m` after the source rows before `y`, and the cells before `x` of row
    /// `y`, were blitted at `pos`.
    spec fn blit_part(&self, m: Cells, pos: Point, y: int, x: int) -> Cells {
        Map::new(
            |k: (int, int)| m.dom().contains(k),
            |k: (int, int)|
                if Self::covers(pos, k) && (k.1 - pos.y < y || (k.1 - pos.y == y && k.0 - pos.x < x)) {
                    self.at(k.0 - pos.x, k.1 - pos.y)
                } else {
                    m[k]
                },
        )
    }
}

impl<const WIDTH: usize, const HEIGHT: usize> Blitable for Window<WIDTH, HEIGHT> {
    /// Each target cell in the clip rectangle that lies over the source takes
    /// the source's character there; every other cell keeps its own.
    open spec fn blit_cells(&self, m: Cells, pos: Point) -> Cells {
        Map::new(
            |k: (int, int)| m.dom().contains(k),
            |k: (int, int)| if Self::covers(pos, k) { self.at(k.0 - pos.x, k.1 - pos.y) } else { m[k] },
        )
    }

    fn blit<T: BlitTarget>(&self, target: &mut T, pos: Point) {
        proof {
            use_type_invariant(self);
        }
        let ghost m0 = target.cells();
        assert(self.blit_part(m0, pos, 0, 0) =~= m0);
        let mut y: usize = 0;
        while y < HEIGHT
            invariant
                y <= HEIGHT,
                dims_fit(WIDTH, HEIGHT),
                target.cells() == self.blit_part(m0, pos, y as int, 0),
            decreases HEIGHT - y,
        {
            let mut x: usize = 0;
            while x < WIDTH
                invariant
                    x <= WIDTH,
                    y < HEIGHT,
                    dims_fit(WIDTH, HEIGHT),
                    target.cells() == self.blit_part(m0, pos, y as int, x as int),
                decreases WIDTH - x,
            {
                let c: char = self.data[y][x];
                draw_clipped(target, c, x as i32 + pos.x as i32, y as i32 + pos.y as i32);
                assert(target.cells() =~= self.blit_part(m0, pos, y as int, x + 1));
                x = x + 1;
            }
            assert(self.blit_part(m0, pos, y as int, x as int) =~= self.blit_part(m0, pos, y + 1, 0));
            y = y + 1;
        }
        assert(self.blit_part(m0, pos, y as int, 0) =~= self.blit_cells(m0, pos));
    }
}

} // verus!

verus! {

/// A point outside `[0, WIDTH) × [0, HEIGHT)` is dropped: drawing it leaves
/// every cell as it was.
pub proof fn draw_outside_keeps<const WIDTH: usize, const HEIGHT: usize>(
    before: Window<WIDTH, HEIGHT>,
    after: Window<WIDTH, HEIGHT>,
    brush: char,
    pos: Point,
)
    requires
        !(0 <= pos.x < WIDTH && 0 <= pos.y < HEIGHT),
        after.cells() == put(before.cells(), (pos.x as int, pos.y as int), brush),
    ensures
        forall|x: int, y: int| 0 <= x < WIDTH && 0 <= y < HEIGHT ==> after.at(x, y) == before.at(x, y),
{
    assert forall|x: int, y: int| 0 <= x < WIDTH && 0 <= y < HEIGHT implies after.at(x, y) == before.at(x, y) by {
        assert(after.cells()[(x, y)] == before.cells()[(x, y)]);
    }
}

/// Drawing `brush` at a point inside the window sets that cell, and only it.
pub proof fn draw_then_read<const WIDTH: usize, const HEIGHT: usize>(
    before: Window<WIDTH, HEIGHT>,
    after: Window<WIDTH, HEIGHT>,
    brush: char,
    pos: Point,
)
    requires
        0 <= pos.x < WIDTH,
        0 <= pos.y < HEIGHT,
        after.cells() == put(before.cells(), (pos.x as int, pos.y as int), brush),
    ensures
        after.at(pos.x as int, pos.y as int) == brush,
        forall|x: int, y: int| 0 <= x < WIDTH && 0 <= y < HEIGHT && (x, y) != (pos.x as int, pos.y as int)
            ==> after.at(x, y) == before.at(x, y),
{
    assert(after.cells()[(pos.x as int, pos.y as int)] == brush);
    assert forall|x: int, y: int| 0 <= x < WIDTH && 0 <= y < HEIGHT && (x, y) != (pos.x as int, pos.y as int)
        implies after.at(x, y) == before.at(x, y) by {
        assert(after.cells()[(x, y)] == before.cells()[(x, y)]);
    }
}

/// Blitting the same window twice at the same offset, with nothing in between,
/// leaves the target as one blit does.
pub proof fn blit_is_idempotent<const SW: usize, const SH: usize>(source: Window<SW, SH>, m: Cells, pos: Point)
    ensures
        source.blit_cells(source.blit_cells(m, pos), pos) == source.blit_cells(m, pos),
{
    assert(source.blit_cells(source.blit_cells(m, pos), pos) =~= source.blit_cells(m, pos));
}

/// Blitting a `SW × SH` window at `pos` onto a window: each target cell over
/// the source takes the source's character there, every other cell keeps its
/// own; where the source lies wholly inside the target, all of it lands.
pub proof fn blit_places_source<const SW: usize, const SH: usize, const WIDTH: usize, const HEIGHT: usize>(
    source: Window<SW, SH>,
    before: Window<WIDTH, HEIGHT>,
    after: Window<WIDTH, HEIGHT>,
    pos: Point,
)
    requires
        dims_fit(WIDTH, HEIGHT),
        after.cells() == source.blit_cells(before.cells(), pos),
    ensures
        forall|x: int, y: int| 0 <= x < WIDTH && 0 <= y < HEIGHT ==>
            after.at(x, y) == if Window::<SW, SH>::covers(pos, (x, y)) {
                source.at(x - pos.x, y - pos.y)
            } else {
                before.at(x, y)
            },
        0 <= pos.x && pos.x + SW <= WIDTH && 0 <= pos.y && pos.y + SH <= HEIGHT ==>
            forall|i: int, j: int| 0 <= i < SW && 0 <= j < SH ==>
                after.at(pos.x + i, pos.y + j) == source.at(i, j),
{
    assert forall|x: int, y: int| 0 <= x < WIDTH && 0 <= y < HEIGHT implies
        after.at(x, y) == if Window::<SW, SH>::covers(pos, (x, y)) {
            source.at(x - pos.x, y - pos.y)
        } else {
            before.at(x, y)
        } by {
        assert(after.cells()[(x, y)] == after.at(x, y));
    }
    if 0 <= pos.x && pos.x + SW <= WIDTH && 0 <= pos.y && pos.y + SH <= HEIGHT {
        assert forall|i: int, j: int| 0 <= i < SW && 0 <= j < SH implies
            after.at(pos.x + i, pos.y + j) == source.at(i, j) by {
            assert(after.cells()[(pos.x + i, pos.y + j)] == after.at(pos.x + i, pos.y + j));
        }
    }
}

} // verus!
