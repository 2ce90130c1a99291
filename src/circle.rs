use vstd::prelude::*;

use crate::point::Point;
use crate::surface::is_point;

verus! {

/// The radius the rasterizer works with: a radius beyond the signed 16-bit
/// range is clamped to its maximum.
pub open spec fn clamped_radius(radius: u16) -> int {
    if radius > i16::MAX {
        i16::MAX as int
    } else {
        radius as int
    }
}

/// One step of the midpoint rasterizer from state `(x, y, d)`.
pub open spec fn arc_step(x: int, y: int, d: int) -> (int, int, int) {
    let x2 = x + 1;
    if d < 0 {
        (x2, y, d + 4 * x2 + 6)
    } else {
        (x2, y - 1, d + 4 * (x2 - y) + 10)
    }
}

/// The samples traced from state `(x, y, d)` while `x <= y`.
pub open spec fn arc_from(x: int, y: int, d: int) -> Seq<(int, int)>
    decreases y - x + 2,
{
    if x <= y {
        let n = arc_step(x, y, d);
        seq![(n.0, n.1)] + arc_from(n.0, n.1, n.2)
    } else {
        seq![]
    }
}

/// The samples `(x, y)` that trace one eighth of the circle of `radius`, in
/// the order the rasterizer visits them.
pub open spec fn arc(radius: u16) -> Seq<(int, int)> {
    let r = clamped_radius(radius);
    seq![(0, r)] + arc_from(0, r, 3 - 2 * r)
}

/// `(dx, dy)` is one of the eight reflections `(±a, ±b)`, `(±b, ±a)`.
pub open spec fn octants(a: int, b: int, dx: int, dy: int) -> bool {
    ((dx == a || dx == -a) && (dy == b || dy == -b)) || ((dx == b || dx == -b) && (dy == a || dy == -a))
}

/// Sample `i` of the arc of `radius` marks offset `(dx, dy)` of the hollow circle.
pub open spec fn ring_hit(radius: u16, i: int, dx: int, dy: int) -> bool {
    0 <= i < arc(radius).len() && octants(arc(radius)[i].0, arc(radius)[i].1, dx, dy)
}

/// Sample `(x, y)` number `i` of the arc of `radius`, at height `s` with
/// `x <= s <= y`, marks offset `(dx, dy)` of the filled circle: each span
/// reaches the arc, so radius 0 marks exactly the center.
pub open spec fn disk_hit(radius: u16, i: int, s: int, dx: int, dy: int) -> bool {
    0 <= i < arc(radius).len() && arc(radius)[i].0 <= s <= arc(radius)[i].1
        && octants(arc(radius)[i].0, s, dx, dy)
}

/// Offset `(dx, dy)` from the center is marked by the hollow circle of `radius`.
pub open spec fn on_ring(radius: u16, dx: int, dy: int) -> bool {
    exists|i: int| #[trigger] ring_hit(radius, i, dx, dy)
}

/// Offset `(dx, dy)` from the center is marked by the filled circle of `radius`.
pub open spec fn on_disk(radius: u16, dx: int, dy: int) -> bool {
    exists|i: int, s: int| #[trigger] disk_hit(radius, i, s, dx, dy)
}

/// The cells that the hollow circle of `radius` centered at `pos` draws.
pub open spec fn ring_cells(pos: Point, radius: u16) -> Set<(int, int)> {
    Set::new(|k: (int, int)| is_point(k) && on_ring(radius, k.0 - pos.x, k.1 - pos.y))
}

/// The cells that the filled circle of `radius` centered at `pos` draws.
pub open spec fn disk_cells(pos: Point, radius: u16) -> Set<(int, int)> {
    Set::new(|k: (int, int)| is_point(k) && on_disk(radius, k.0 - pos.x, k.1 - pos.y))
}

/// The cells `center + (dx, dy)` with `(dx, dy)` one of the eight reflections
/// of `(a, b)`.
pub open spec fn eight_cells(cx: int, cy: int, a: int, b: int) -> Set<(int, int)> {
    Set::new(|k: (int, int)| is_point(k) && octants(a, b, k.0 - cx, k.1 - cy))
}

/// The hollow circle is symmetric: with an offset `(dx, dy)` from the center it
/// marks the seven others obtained by reflecting across the horizontal, the
/// vertical and both diagonal axes.
pub proof fn ring_is_symmetric(radius: u16, dx: int, dy: int)
    requires
        on_ring(radius, dx, dy),
    ensures
        on_ring(radius, -dx, dy),
        on_ring(radius, dx, -dy),
        on_ring(radius, -dx, -dy),
        on_ring(radius, dy, dx),
        on_ring(radius, -dy, dx),
        on_ring(radius, dy, -dx),
        on_ring(radius, -dy, -dx),
{
    let i = choose|i: int| #[trigger] ring_hit(radius, i, dx, dy);
    assert(ring_hit(radius, i, -dx, dy));
    assert(ring_hit(radius, i, dx, -dy));
    assert(ring_hit(radius, i, -dx, -dy));
    assert(ring_hit(radius, i, dy, dx));
    assert(ring_hit(radius, i, -dy, dx));
    assert(ring_hit(radius, i, dy, -dx));
    assert(ring_hit(radius, i, -dy, -dx));
}

/// The filled circle is symmetric across the same four axes.
pub proof fn disk_is_symmetric(radius: u16, dx: int, dy: int)
    requires
        on_disk(radius, dx, dy),
    ensures
        on_disk(radius, -dx, dy),
        on_disk(radius, dx, -dy),
        on_disk(radius, -dx, -dy),
        on_disk(radius, dy, dx),
        on_disk(radius, -dy, dx),
        on_disk(radius, dy, -dx),
        on_disk(radius, -dy, -dx),
{
    let (i, s) = choose|i: int, s: int| #[trigger] disk_hit(radius, i, s, dx, dy);
    assert(disk_hit(radius, i, s, -dx, dy));
    assert(disk_hit(radius, i, s, dx, -dy));
    assert(disk_hit(radius, i, s, -dx, -dy));
    assert(disk_hit(radius, i, s, dy, dx));
    assert(disk_hit(radius, i, s, -dy, dx));
    assert(disk_hit(radius, i, s, dy, -dx));
    assert(disk_hit(radius, i, s, -dy, -dx));
}

spec fn wide(s: Seq<(i32, i32)>) -> Seq<(int, int)> {
    s.map_values(|p: (i32, i32)| (p.0 as int, p.1 as int))
}

/// The midpoint circle rasterizer, shared by the hollow and the filled circle:
/// the samples of one eighth of the arc, starting at `(0, r)`.
pub fn trace_arc(radius: u16) -> (r: Vec<(i32, i32)>)
    ensures
        r@.len() == arc(radius).len(),
        forall|i: int| 0 <= i < r@.len() ==> (r@[i].0 as int, r@[i].1 as int) == #[trigger] arc(radius)[i],
        forall|i: int| 0 <= i < r@.len() ==> 0 <= #[trigger] r@[i].0 <= 32768 && -2 <= r@[i].1 <= 32767,
{
    let rr: i32 = if radius > 32767 { 32767 } else { radius as i32 };
    let mut x: i32 = 0;
    let mut y: i32 = rr;
    let mut d: i32 = 3 - 2 * rr;
    let mut out: Vec<(i32, i32)> = Vec::new();
    out.push((x, y));
    assert(wide(out@) =~= seq![(0int, rr as int)]);
    while x <= y
        invariant
            rr == clamped_radius(radius),
            0 <= x <= rr + 1,
            x - 2 <= y <= rr,
            -8 * rr - 20 <= d <= 18 * x + 4 * rr + 20,
            wide(out@) + arc_from(x as int, y as int, d as int) == arc(radius),
            forall|i: int| 0 <= i < out@.len() ==> 0 <= #[trigger] out@[i].0 <= 32768 && -2 <= out@[i].1 <= 32767,
        decreases y - x + 2,
    {
        let ghost before = wide(out@);
        let ghost n = arc_step(x as int, y as int, d as int);
        assert(arc_from(x as int, y as int, d as int) == seq![(n.0, n.1)] + arc_from(n.0, n.1, n.2));
        x = x + 1;
        if d < 0 {
            d = d + 4 * x + 6;
        } else {
            d = d + 4 * (x - y) + 10;
            y = y - 1;
        }
        out.push((x, y));
        proof {
            assert(n == (x as int, y as int, d as int));
            assert(wide(out@) =~= before.push((x as int, y as int)));
            assert(wide(out@) + arc_from(x as int, y as int, d as int) =~= before + (seq![(n.0, n.1)] + arc_from(n.0, n.1, n.2)));
        }
    }
    assert(wide(out@) =~= arc(radius));
    proof {
        assert forall|i: int| 0 <= i < out@.len() implies (out@[i].0 as int, out@[i].1 as int) == #[trigger] arc(radius)[i] by {
            assert(wide(out@)[i] == (out@[i].0 as int, out@[i].1 as int));
        }
    }
    out
}

} // verus!
