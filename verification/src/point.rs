//! Screen-space points.

use vstd::prelude::*;

verus! {

/// A point in screen space: integer pixel coordinates `x` and `y`, and a
/// depth `z` that is carried along but never interpreted here.
#[derive(Clone, Copy, Debug, PartialEq, Eq, Structural)]
pub struct Point3 {
    pub x: i32,
    pub y: i32,
    pub z: i32,
}

impl Point3 {
    /// Builds a point from its coordinates.
    pub fn new(x: i32, y: i32, z: i32) -> (p: Self)
        ensures
            p == (Point3 { x, y, z }),
    {
        Point3 { x, y, z }
    }

    /// The pixel the point falls on.
    pub open spec fn pixel(self) -> (int, int) {
        (self.x as int, self.y as int)
    }
}

/// The pixels of a list of coordinate pairs, as mathematical integers.
pub open spec fn pixel_seq(v: Seq<(i32, i32)>) -> Seq<(int, int)> {
    Seq::new(v.len(), |i: int| (v[i].0 as int, v[i].1 as int))
}

} // verus!
