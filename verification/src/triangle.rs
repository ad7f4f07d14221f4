//! Screen-space triangles and the point-in-triangle test.
//!
//! A point is tested against the three edges in turn: for each edge the sign
//! of the cross product of the vector from the edge's first vertex to the
//! point with the edge itself says on which side the point lies. The point is
//! inside where it lies on the same side of all three, strictly; this holds
//! for either winding. Test points are given as fractions over a common
//! positive denominator, so that pixel centres and centroids are exact.

use crate::line::segment_pixels;
use crate::point::Point3;
use crate::rgb::Rgb;
use vstd::arithmetic::div_mod::lemma_fundamental_div_mod_converse;
use vstd::math::{max, min};
use vstd::prelude::*;

verus! {

/// A triangle in screen space: three vertices, each with a colour.
#[derive(Clone, Copy, Debug)]
pub struct Triangle {
    pub v: [Point3; 3],
    pub color: [Rgb; 3],
}

/// The z component of the cross product of the vector from `a` to the point
/// `(px / s, py / s)` with the edge from `a` to `b`, multiplied by `s`.
pub open spec fn edge_cross(a: Point3, b: Point3, px: int, py: int, s: int) -> int {
    (px - s * a.x) * (b.y - a.y) - (py - s * a.y) * (b.x - a.x)
}

/// Whether the point `(px / s, py / s)` lies strictly inside the triangle
/// `a`, `b`, `c`: on the same side of all three edges.
pub open spec fn inside(a: Point3, b: Point3, c: Point3, px: int, py: int, s: int) -> bool {
    let i = edge_cross(a, b, px, py, s);
    let j = edge_cross(b, c, px, py, s);
    let k = edge_cross(c, a, px, py, s);
    (i > 0 && j > 0 && k > 0) || (i < 0 && j < 0 && k < 0)
}

/// The pixels of the segment between two points.
pub open spec fn edge_pixels(a: Point3, b: Point3) -> Seq<(int, int)> {
    segment_pixels(a.x as int, a.y as int, b.x as int, b.y as int)
}

/// The pixels of a triangle's outline: those of its three edges, taken from
/// the first vertex round to the first.
pub open spec fn wireframe(t: Triangle) -> Seq<(int, int)> {
    edge_pixels(t.v[0], t.v[1]) + edge_pixels(t.v[1], t.v[2]) + edge_pixels(t.v[2], t.v[0])
}

/// The pixels of the outlines of several triangles, one triangle after the
/// other.
pub open spec fn wireframes(ts: Seq<Triangle>) -> Seq<(int, int)>
    decreases ts.len(),
{
    if ts.len() == 0 {
        Seq::empty()
    } else {
        wireframes(ts.drop_last()) + wireframe(ts.last())
    }
}

/// Twice the signed area of the triangle `a`, `b`, `c`; zero where the three
/// vertices lie on one line.
pub open spec fn doubled_area(a: Point3, b: Point3, c: Point3) -> int {
    (b.x - a.x) * (c.y - a.y) - (b.y - a.y) * (c.x - a.x)
}

impl Triangle {
    /// A triangle with all vertices at the origin and all colours black.
    pub fn new() -> (t: Self)
        ensures
            forall|k: int| 0 <= k < 3 ==> t.v[k] == (Point3 { x: 0, y: 0, z: 0 }),
            forall|k: int| 0 <= k < 3 ==> t.color[k] == Rgb(0, 0, 0),
    {
        let o = Point3 { x: 0, y: 0, z: 0 };
        let k = Rgb(0, 0, 0);
        Triangle { v: [o, o, o], color: [k, k, k] }
    }

    /// The first vertex.
    pub fn a(&self) -> (p: Point3)
        ensures
            p == self.v[0],
    {
        self.v[0]
    }

    /// The second vertex.
    pub fn b(&self) -> (p: Point3)
        ensures
            p == self.v[1],
    {
        self.v[1]
    }

    /// The third vertex.
    pub fn c(&self) -> (p: Point3)
        ensures
            p == self.v[2],
    {
        self.v[2]
    }

    /// Replaces vertex `ind`.
    pub fn set_vertex(&mut self, ind: usize, ver: Point3)
        requires
            ind < 3,
        ensures
            final(self).v@ == old(self).v@.update(ind as int, ver),
            final(self).color == old(self).color,
    {
        self.v[ind] = ver;
    }

    /// Replaces the colour of vertex `ind`.
    pub fn set_color(&mut self, ind: usize, color: Rgb)
        requires
            ind < 3,
        ensures
            final(self).color@ == old(self).color@.update(ind as int, color),
            final(self).v == old(self).v,
    {
        self.color[ind] = color;
    }

    /// Whether the point `(px / s, py / s)` lies strictly inside the
    /// triangle.
    pub open spec fn contains(self, px: int, py: int, s: int) -> bool {
        inside(self.v[0], self.v[1], self.v[2], px, py, s)
    }

    /// The smallest x of the three vertices.
    pub open spec fn min_x(self) -> int {
        min(min(self.v[0].x as int, self.v[1].x as int), self.v[2].x as int)
    }

    /// The largest x of the three vertices.
    pub open spec fn max_x(self) -> int {
        max(max(self.v[0].x as int, self.v[1].x as int), self.v[2].x as int)
    }

    /// The smallest y of the three vertices.
    pub open spec fn min_y(self) -> int {
        min(min(self.v[0].y as int, self.v[1].y as int), self.v[2].y as int)
    }

    /// The largest y of the three vertices.
    pub open spec fn max_y(self) -> int {
        max(max(self.v[0].y as int, self.v[1].y as int), self.v[2].y as int)
    }

    /// The number of pixels in a column of the bounding box.
    pub open spec fn box_height(self) -> int {
        self.max_y() - self.min_y() + 1
    }

    /// The number of pixels in the bounding box.
    pub open spec fn box_area(self) -> int {
        (self.max_x() - self.min_x() + 1) * self.box_height()
    }

    /// The pixels of the bounding box, both bounds included, column by
    /// column from the left and from the bottom up within a column.
    pub open spec fn box_pixels(self) -> Seq<(int, int)> {
        Seq::new(
            self.box_area() as nat,
            |i: int| (self.min_x() + i / self.box_height(), self.min_y() + i % self.box_height()),
        )
    }

    /// Whether the centre of pixel `p`, the point half a pixel up and right
    /// of its corner, lies strictly inside the triangle.
    pub open spec fn covers_center(self, p: (int, int)) -> bool {
        self.contains(2 * p.0 + 1, 2 * p.1 + 1, 2)
    }

    /// The test `covers_center` as a function of the pixel.
    pub open spec fn center_test(self) -> spec_fn((int, int)) -> bool {
        |p: (int, int)| self.covers_center(p)
    }

    /// The pixels of the bounding box whose centre lies strictly inside the
    /// triangle, in the order of `box_pixels`.
    pub open spec fn covered_pixels(self) -> Seq<(int, int)> {
        self.box_pixels().filter(self.center_test())
    }
}

/// Taking the vertices in turn from another first vertex, which keeps the
/// winding, does not change which points are inside.
pub proof fn lemma_inside_rotation(a: Point3, b: Point3, c: Point3, px: int, py: int, s: int)
    ensures
        inside(a, b, c, px, py, s) == inside(b, c, a, px, py, s),
        inside(a, b, c, px, py, s) == inside(c, a, b, px, py, s),
{
}

/// Walking an edge the other way flips the sign of its cross product.
pub proof fn lemma_edge_reversed(a: Point3, b: Point3, px: int, py: int, s: int)
    ensures
        edge_cross(b, a, px, py, s) == -edge_cross(a, b, px, py, s),
{
    let u = px - s * a.x;
    let v = py - s * a.y;
    let e = b.x - a.x;
    let f = b.y - a.y;
    assert(px - s * b.x == u - s * e) by (nonlinear_arith)
        requires
            u == px - s * a.x,
            e == b.x - a.x,
    ;
    assert(py - s * b.y == v - s * f) by (nonlinear_arith)
        requires
            v == py - s * a.y,
            f == b.y - a.y,
    ;
    let se = s * e;
    let sf = s * f;
    assert(se * f == sf * e) by (nonlinear_arith)
        requires
            se == s * e,
            sf == s * f,
    ;
    assert((u - se) * (-f) - (v - sf) * (-e) == -(u * f - v * e)) by (nonlinear_arith)
        requires
            se * f == sf * e,
    ;
}

/// Reversing the winding does not change which points are inside.
pub proof fn lemma_inside_reversal(a: Point3, b: Point3, c: Point3, px: int, py: int, s: int)
    ensures
        inside(a, b, c, px, py, s) == inside(a, c, b, px, py, s),
{
    lemma_edge_reversed(a, b, px, py, s);
    lemma_edge_reversed(b, c, px, py, s);
    lemma_edge_reversed(c, a, px, py, s);
}

/// The centroid of a triangle whose vertices do not lie on one line is
/// inside it. The centroid is the point `((ax + bx + cx) / 3, (ay + by + cy) / 3)`.
pub proof fn lemma_centroid_inside(a: Point3, b: Point3, c: Point3)
    requires
        doubled_area(a, b, c) != 0,
    ensures
        inside(a, b, c, a.x + b.x + c.x, a.y + b.y + c.y, 3),
{
    let ax = a.x as int;
    let ay = a.y as int;
    let bx = b.x as int;
    let by = b.y as int;
    let cx = c.x as int;
    let cy = c.y as int;
    let px = ax + bx + cx;
    let py = ay + by + cy;
    let d = (bx - ax) * (cy - ay) - (by - ay) * (cx - ax);
    assert((px - 3 * ax) * (by - ay) - (py - 3 * ay) * (bx - ax) == -d) by (nonlinear_arith)
        requires
            px == ax + bx + cx,
            py == ay + by + cy,
            d == (bx - ax) * (cy - ay) - (by - ay) * (cx - ax),
    ;
    assert((px - 3 * bx) * (cy - by) - (py - 3 * by) * (cx - bx) == -d) by (nonlinear_arith)
        requires
            px == ax + bx + cx,
            py == ay + by + cy,
            d == (bx - ax) * (cy - ay) - (by - ay) * (cx - ax),
    ;
    assert((px - 3 * cx) * (ay - cy) - (py - 3 * cy) * (ax - cx) == -d) by (nonlinear_arith)
        requires
            px == ax + bx + cx,
            py == ay + by + cy,
            d == (bx - ax) * (cy - ay) - (by - ay) * (cx - ax),
    ;
}

/// The cross product for an edge, multiplied by the denominator, written
/// over the offsets of the point from the edge's two vertices.
proof fn lemma_scaled_edge(a: Point3, b: Point3, px: int, py: int, s: int)
    ensures
        s * edge_cross(a, b, px, py, s) == (py - s * a.y) * (px - s * b.x) - (px - s * a.x) * (py
            - s * b.y),
{
    let u = px - s * a.x;
    let v = py - s * a.y;
    let e = b.x - a.x;
    let f = b.y - a.y;
    assert(px - s * b.x == u - s * e) by (nonlinear_arith)
        requires
            u == px - s * a.x,
            e == b.x - a.x,
    ;
    assert(py - s * b.y == v - s * f) by (nonlinear_arith)
        requires
            v == py - s * a.y,
            f == b.y - a.y,
    ;
    let se = s * e;
    let sf = s * f;
    let uf = u * f;
    let ve = v * e;
    assert(s * uf == u * sf) by (nonlinear_arith)
        requires
            uf == u * f,
            sf == s * f,
    ;
    assert(s * ve == v * se) by (nonlinear_arith)
        requires
            ve == v * e,
            se == s * e,
    ;
    assert(s * (uf - ve) == s * uf - s * ve) by (nonlinear_arith);
    assert(v * (u - se) - u * (v - sf) == u * sf - v * se) by (nonlinear_arith);
}

/// Weighted by the three cross products, the offsets of a point from the
/// three vertices cancel, along either axis. Here `(ua, va)`, `(ub, vb)` and
/// `(uc, vc)` are the offsets of the point from the three vertices, and `i`,
/// `j`, `k` the cross products for the edges that start at them.
proof fn lemma_weights_cancel(
    ua: int,
    va: int,
    ub: int,
    vb: int,
    uc: int,
    vc: int,
    s: int,
    i: int,
    j: int,
    k: int,
)
    requires
        s != 0,
        s * i == va * ub - ua * vb,
        s * j == vb * uc - ub * vc,
        s * k == vc * ua - uc * va,
    ensures
        j * ua + k * ub + i * uc == 0,
        j * va + k * vb + i * vc == 0,
{
    let si = s * i;
    let sj = s * j;
    let sk = s * k;
    let x = j * ua + k * ub + i * uc;
    let y = j * va + k * vb + i * vc;
    let (jua, kub, iuc) = (j * ua, k * ub, i * uc);
    let (jva, kvb, ivc) = (j * va, k * vb, i * vc);
    assert(s * jua == sj * ua) by (nonlinear_arith)
        requires
            jua == j * ua,
            sj == s * j,
    ;
    assert(s * kub == sk * ub) by (nonlinear_arith)
        requires
            kub == k * ub,
            sk == s * k,
    ;
    assert(s * iuc == si * uc) by (nonlinear_arith)
        requires
            iuc == i * uc,
            si == s * i,
    ;
    assert(s * jva == sj * va) by (nonlinear_arith)
        requires
            jva == j * va,
            sj == s * j,
    ;
    assert(s * kvb == sk * vb) by (nonlinear_arith)
        requires
            kvb == k * vb,
            sk == s * k,
    ;
    assert(s * ivc == si * vc) by (nonlinear_arith)
        requires
            ivc == i * vc,
            si == s * i,
    ;
    assert(s * (jua + kub + iuc) == s * jua + s * kub + s * iuc) by (nonlinear_arith);
    assert(s * (jva + kvb + ivc) == s * jva + s * kvb + s * ivc) by (nonlinear_arith);
    assert((vb * uc - ub * vc) * ua + (vc * ua - uc * va) * ub + (va * ub - ua * vb) * uc == 0)
        by (nonlinear_arith);
    assert((vb * uc - ub * vc) * va + (vc * ua - uc * va) * vb + (va * ub - ua * vb) * vc == 0)
        by (nonlinear_arith);
    assert(x == 0 && y == 0) by (nonlinear_arith)
        requires
            s != 0,
            s * x == 0,
            s * y == 0,
    ;
}

/// Three numbers of one strict sign, each multiplied by a positive number,
/// do not sum to zero.
proof fn lemma_same_sign_sum(i: int, j: int, k: int, u: int, v: int, w: int)
    requires
        (i > 0 && j > 0 && k > 0) || (i < 0 && j < 0 && k < 0),
        (u > 0 && v > 0 && w > 0) || (u < 0 && v < 0 && w < 0),
    ensures
        j * u + k * v + i * w != 0,
{
    assert(j * u + k * v + i * w != 0) by (nonlinear_arith)
        requires
            (i > 0 && j > 0 && k > 0) || (i < 0 && j < 0 && k < 0),
            (u > 0 && v > 0 && w > 0) || (u < 0 && v < 0 && w < 0),
    ;
}

/// A point that lies strictly to one side of all three vertices, along x or
/// along y, is not inside the triangle: no point outside the bounding box is.
pub proof fn lemma_outside_box(a: Point3, b: Point3, c: Point3, px: int, py: int, s: int)
    requires
        s > 0,
        (px < s * a.x && px < s * b.x && px < s * c.x) || (px > s * a.x && px > s * b.x && px > s
            * c.x) || (py < s * a.y && py < s * b.y && py < s * c.y) || (py > s * a.y && py > s
            * b.y && py > s * c.y),
    ensures
        !inside(a, b, c, px, py, s),
{
    let i = edge_cross(a, b, px, py, s);
    let j = edge_cross(b, c, px, py, s);
    let k = edge_cross(c, a, px, py, s);
    lemma_scaled_edge(a, b, px, py, s);
    lemma_scaled_edge(b, c, px, py, s);
    lemma_scaled_edge(c, a, px, py, s);
    lemma_weights_cancel(
        px - s * a.x,
        py - s * a.y,
        px - s * b.x,
        py - s * b.y,
        px - s * c.x,
        py - s * c.y,
        s,
        i,
        j,
        k,
    );
    if inside(a, b, c, px, py, s) {
        if (px < s * a.x && px < s * b.x && px < s * c.x) || (px > s * a.x && px > s * b.x && px > s
            * c.x) {
            lemma_same_sign_sum(i, j, k, px - s * a.x, px - s * b.x, px - s * c.x);
        } else {
            lemma_same_sign_sum(i, j, k, py - s * a.y, py - s * b.y, py - s * c.y);
        }
    }
}

/// The pixel at column `col` and row `row` of the bounding box stands at
/// position `col * box_height + row` of `box_pixels`.
pub proof fn lemma_box_pixel(t: Triangle, col: int, row: int)
    requires
        0 <= col <= t.max_x() - t.min_x(),
        0 <= row < t.box_height(),
    ensures
        0 <= col * t.box_height() + row < t.box_area(),
        t.box_pixels()[col * t.box_height() + row] == (t.min_x() + col, t.min_y() + row),
{
    let ht = t.box_height();
    let n = col * ht + row;
    assert(0 <= n < (t.max_x() - t.min_x() + 1) * ht) by (nonlinear_arith)
        requires
            n == col * ht + row,
            0 <= col <= t.max_x() - t.min_x(),
            0 <= row < ht,
    ;
    lemma_fundamental_div_mod_converse(n, ht, col, row);
}

/// Filtering one element more keeps what was kept, and the new element
/// where it passes the test.
pub proof fn lemma_filter_next(s: Seq<(int, int)>, test: spec_fn((int, int)) -> bool, n: int)
    requires
        0 <= n < s.len(),
    ensures
        s.take(n + 1).filter(test) == if test(s[n]) {
            s.take(n).filter(test).push(s[n])
        } else {
            s.take(n).filter(test)
        },
{
    reveal(Seq::filter);
    assert(s.take(n + 1).drop_last() =~= s.take(n));
}

} // verus!
