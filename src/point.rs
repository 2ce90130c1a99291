use vstd::prelude::*;

verus! {

/// A two dimensional coordinate.
#[derive(Clone, Copy, PartialEq, Eq, Structural, Default)]
pub struct Point {
    pub x: i16,
    pub y: i16,
}

impl Point {
    /// Construct a new `Point`.
    pub fn new(x: i16, y: i16) -> (r: Point)
        ensures
            r.x == x,
            r.y == y,
    {
        Point { x, y }
    }
}

impl From<(i16, i16)> for Point {
    fn from(t: (i16, i16)) -> (r: Point) {
        Point { x: t.0, y: t.1 }
    }
}

impl vstd::std_specs::convert::FromSpecImpl<(i16, i16)> for Point {
    open spec fn obeys_from_spec() -> bool {
        true
    }

    open spec fn from_spec(t: (i16, i16)) -> Point {
        Point { x: t.0, y: t.1 }
    }
}

/// Fits `v` in the signed 16-bit coordinate range.
pub open spec fn fits_i16(v: int) -> bool {
    i16::MIN <= v <= i16::MAX
}

impl std::ops::Add<Point> for Point {
    type Output = Point;

    fn add(self, rhs: Point) -> (r: Point) {
        Point { x: self.x + rhs.x, y: self.y + rhs.y }
    }
}

impl vstd::std_specs::ops::AddSpecImpl<Point> for Point {
    open spec fn obeys_add_spec() -> bool {
        true
    }

    open spec fn add_req(self, rhs: Point) -> bool {
        fits_i16(self.x + rhs.x) && fits_i16(self.y + rhs.y)
    }

    open spec fn add_spec(self, rhs: Point) -> Point {
        Point { x: (self.x + rhs.x) as i16, y: (self.y + rhs.y) as i16 }
    }
}

impl std::ops::Add<(i16, i16)> for Point {
    type Output = Point;

    fn add(self, rhs: (i16, i16)) -> (r: Point) {
        Point { x: self.x + rhs.0, y: self.y + rhs.1 }
    }
}

impl vstd::std_specs::ops::AddSpecImpl<(i16, i16)> for Point {
    open spec fn obeys_add_spec() -> bool {
        true
    }

    open spec fn add_req(self, rhs: (i16, i16)) -> bool {
        fits_i16(self.x + rhs.0) && fits_i16(self.y + rhs.1)
    }

    open spec fn add_spec(self, rhs: (i16, i16)) -> Point {
        Point { x: (self.x + rhs.0) as i16, y: (self.y + rhs.1) as i16 }
    }
}

} // verus!
