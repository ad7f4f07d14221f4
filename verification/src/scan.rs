//! Scan conversion: writing pixels, drawing lines, and finding the pixels
//! that a triangle covers.

use crate::canvas::{
    lemma_cell_in_frame, lemma_painted_concat, lemma_painted_nothing, lemma_painted_push,
    lemma_painted_same_pixels, painted, plot,
};
use crate::line::{lemma_line_ends, line_steps, segment_pixels, LineWalk};
use crate::point::{pixel_seq, Point3};
use crate::rasterizer::Rasterizer;
use crate::rgb::Rgb;
use crate::triangle::{
    edge_cross, edge_pixels, lemma_box_pixel, lemma_filter_next, wireframe, Triangle,
};
use vstd::prelude::*;

verus! {

/// The product of two bounded numbers is bounded by the product of the
/// bounds.
proof fn lemma_product_bound(a: int, b: int, m: int, n: int)
    requires
        -m <= a <= m,
        -n <= b <= n,
    ensures
        -(m * n) <= a * b <= m * n,
{
    assert(-(m * n) <= a * b <= m * n) by (nonlinear_arith)
        requires
            -m <= a <= m,
            -n <= b <= n,
    ;
}

/// The cross product that tells on which side of the edge from `a` to `b`
/// the point `(x / scale, y / scale)` lies.
fn edge_value(a: Point3, b: Point3, x: i64, y: i64, scale: u32) -> (z: i128)
    ensures
        z == edge_cross(a, b, x as int, y as int, scale as int),
{
    let s: i128 = scale as i128;
    proof {
        lemma_product_bound(s as int, a.x as int, 0x1_0000_0000, 0x8000_0000);
        lemma_product_bound(s as int, a.y as int, 0x1_0000_0000, 0x8000_0000);
    }
    let u: i128 = x as i128 - s * (a.x as i128);
    let v: i128 = y as i128 - s * (a.y as i128);
    let e: i128 = b.x as i128 - a.x as i128;
    let f: i128 = b.y as i128 - a.y as i128;
    proof {
        lemma_product_bound(u as int, f as int, 0x2_0000_0000_0000_0000, 0x1_0000_0000);
        lemma_product_bound(v as int, e as int, 0x2_0000_0000_0000_0000, 0x1_0000_0000);
    }
    u * f - v * e
}

impl<V> Rasterizer<V> {
    /// Writes `color` at the pixel of `point`, in a frame buffer of `width`
    /// by `height` cells.
    ///
    /// The buffer is row-major with its first row at the top of the canvas,
    /// while pixel `(0, 0)` is the bottom-left one. A point off the canvas
    /// is dropped without a word; so is one on the upper boundary,
    /// `x == width` or `y == height`, which has no cell.
    pub fn set_pixel(
        width: u32,
        height: u32,
        point: Point3,
        color: &Rgb,
        frame_buf: &mut Vec<Rgb>,
    )
        requires
            old(frame_buf).len() == width * height,
        ensures
            final(frame_buf)@ == plot(
                old(frame_buf)@,
                width as int,
                height as int,
                point.pixel(),
                *color,
            ),
    {
        if point.x < 0 || point.x as i64 >= width as i64 || point.y < 0 || point.y as i64
            >= height as i64 {
            return ;
        }
        proof {
            lemma_cell_in_frame(width as int, height as int, point.x as int, point.y as int);
            assert(0 <= (height - 1 - point.y) * width <= (height - 1 - point.y) * width
                + point.x) by (nonlinear_arith)
                requires
                    0 <= point.y < height,
                    0 <= point.x,
            ;
        }
        let row: u64 = (height - 1) as u64 - point.y as u64;
        let ind: u64 = row * (width as u64) + point.x as u64;
        frame_buf[ind as usize] = *color;
    }

    /// Draws the segment from `begin` to `end` in white.
    ///
    /// Both ends are written first; then the segment is walked along its
    /// longer axis, from the end with the smaller coordinate on it, and each
    /// pixel of the walk is written. Pixels off the canvas are dropped.
    pub fn draw_line(
        width: u32,
        height: u32,
        begin: &Point3,
        end: &Point3,
        frame_buf: &mut Vec<Rgb>,
    )
        requires
            old(frame_buf).len() == width * height,
        ensures
            final(frame_buf)@ == painted(
                old(frame_buf)@,
                width as int,
                height as int,
                segment_pixels(begin.x as int, begin.y as int, end.x as int, end.y as int),
                Rgb(255, 255, 255),
            ),
    {
        let line_color = Rgb(255, 255, 255);
        let ghost w = width as int;
        let ghost h = height as int;
        let ghost before = frame_buf@;
        let ghost all = segment_pixels(
            begin.x as int,
            begin.y as int,
            end.x as int,
            end.y as int,
        );
        let ghost mut done: Seq<(int, int)> = Seq::empty();
        proof {
            lemma_painted_nothing(before, w, h, line_color);
            lemma_line_ends(begin.x as int, begin.y as int, end.x as int, end.y as int);
            let n = line_steps(begin.x as int, begin.y as int, end.x as int, end.y as int) as int;
            assert(all[0] == begin.pixel() || all[0] == end.pixel());
            assert(all[n] == begin.pixel() || all[n] == end.pixel());
            assert(all.contains(begin.pixel()) && all.contains(end.pixel()));
        }
        Self::set_pixel(width, height, Point3::new(begin.x, begin.y, 1), &line_color, frame_buf);
        proof {
            lemma_painted_push(before, w, h, done, begin.pixel(), line_color);
            done = done.push(begin.pixel());
        }
        Self::set_pixel(width, height, Point3::new(end.x, end.y, 1), &line_color, frame_buf);
        proof {
            lemma_painted_push(before, w, h, done, end.pixel(), line_color);
            done = done.push(end.pixel());
            assert(done[0] == begin.pixel() && done[1] == end.pixel());
        }
        let mut walk = LineWalk::new(begin, end);
        while !walk.finished()
            invariant
                walk.wf(),
                walk.segment() == (begin.x as int, begin.y as int, end.x as int, end.y as int),
                all == segment_pixels(begin.x as int, begin.y as int, end.x as int, end.y as int),
                0 <= walk.index() <= walk.steps(),
                before.len() == width * height,
                w == width as int,
                h == height as int,
                line_color == Rgb(255, 255, 255),
                frame_buf@ == painted(before, w, h, done, line_color),
                done.contains(begin.pixel()),
                done.contains(end.pixel()),
                forall|p: (int, int)| done.contains(p) ==> all.contains(p),
                forall|k: int| 1 <= k <= walk.index() ==> done.contains(#[trigger] all[k]),
            decreases walk.steps() - walk.index(),
        {
            walk.advance();
            let p = walk.current();
            Self::set_pixel(width, height, Point3::new(p.0, p.1, 1), &line_color, frame_buf);
            proof {
                let q = (p.0 as int, p.1 as int);
                let n = walk.index();
                assert(all[n] == q);
                lemma_painted_push(before, w, h, done, q, line_color);
                let grown = done.push(q);
                assert(grown[done.len() as int] == q);
                assert forall|r: (int, int)| done.contains(r) implies grown.contains(r) by {
                    let i = choose|i: int| 0 <= i < done.len() && done[i] == r;
                    assert(grown[i] == r);
                }
                assert forall|r: (int, int)| grown.contains(r) implies all.contains(r) by {
                    let i = choose|i: int| 0 <= i < grown.len() && grown[i] == r;
                    if i < done.len() {
                        assert(done.contains(done[i]));
                    }
                }
                done = grown;
            }
        }
        proof {
            assert forall|p: (int, int)| all.contains(p) implies done.contains(p) by {
                let k = choose|k: int| 0 <= k < all.len() && all[k] == p;
                if k == 0 {
                } else {
                    assert(done.contains(all[k]));
                }
            }
            lemma_painted_same_pixels(before, w, h, done, all, line_color);
        }
    }

    /// Draws the outline of a triangle in white: its three edges, each as a
    /// line of its own.
    pub fn draw_wireframe(width: u32, height: u32, triangle: &Triangle, frame_buf: &mut Vec<Rgb>)
        requires
            old(frame_buf).len() == width * height,
        ensures
            final(frame_buf)@ == painted(
                old(frame_buf)@,
                width as int,
                height as int,
                wireframe(*triangle),
                Rgb(255, 255, 255),
            ),
    {
        let a = triangle.a();
        let b = triangle.b();
        let c = triangle.c();
        let ghost w = width as int;
        let ghost h = height as int;
        let ghost white = Rgb(255, 255, 255);
        let ghost before = frame_buf@;
        Self::draw_line(width, height, &a, &b, frame_buf);
        Self::draw_line(width, height, &b, &c, frame_buf);
        Self::draw_line(width, height, &c, &a, frame_buf);
        proof {
            lemma_painted_concat(before, w, h, edge_pixels(a, b), edge_pixels(b, c), white);
            lemma_painted_concat(
                before,
                w,
                h,
                edge_pixels(a, b) + edge_pixels(b, c),
                edge_pixels(c, a),
                white,
            );
        }
    }

    /// Whether the point `(x / scale, y / scale)` lies strictly inside the
    /// triangle: on the same side of all three edges, whatever the winding.
    /// The denominator `scale` is meant to be positive.
    pub fn inside_triangle(x: i64, y: i64, scale: u32, triangle: &Triangle) -> (inside: bool)
        ensures
            inside == triangle.contains(x as int, y as int, scale as int),
    {
        let i = edge_value(triangle.a(), triangle.b(), x, y, scale);
        let j = edge_value(triangle.b(), triangle.c(), x, y, scale);
        let k = edge_value(triangle.c(), triangle.a(), x, y, scale);
        (i > 0 && j > 0 && k > 0) || (i < 0 && j < 0 && k < 0)
    }

    /// The pixels that the triangle covers: those of its bounding box whose
    /// centre lies strictly inside it. The box runs from the smallest to the
    /// largest coordinate of the vertices, both included, and is scanned
    /// column by column.
    pub fn rasterize_triangle(triangle: &Triangle) -> (pixels: Vec<(i32, i32)>)
        ensures
            pixel_seq(pixels@) == triangle.covered_pixels(),
    {
        let a = triangle.a();
        let b = triangle.b();
        let c = triangle.c();
        let min_x: i32 = lowest(a.x, b.x, c.x);
        let min_y: i32 = lowest(a.y, b.y, c.y);
        let max_x: i32 = highest(a.x, b.x, c.x);
        let max_y: i32 = highest(a.y, b.y, c.y);
        let ghost grid = triangle.box_pixels();
        let ghost test = triangle.center_test();
        let ghost ht = triangle.box_height();
        let mut pixels: Vec<(i32, i32)> = Vec::new();
        let mut x: i64 = min_x as i64;
        proof {
            reveal(Seq::filter);
            assert(grid.take(0) =~= Seq::empty());
            assert(pixel_seq(pixels@) =~= grid.take(0).filter(test));
            assert((x - min_x) * ht == 0) by (nonlinear_arith)
                requires
                    x == min_x,
            ;
        }
        while x <= max_x as i64
            invariant
                min_x == triangle.min_x(),
                max_x == triangle.max_x(),
                min_y == triangle.min_y(),
                max_y == triangle.max_y(),
                grid == triangle.box_pixels(),
                test == triangle.center_test(),
                ht == triangle.box_height(),
                min_x <= x <= max_x + 1,
                pixel_seq(pixels@) == grid.take((x - min_x) * ht).filter(test),
            decreases max_x - x + 1,
        {
            let mut y: i64 = min_y as i64;
            while y <= max_y as i64
                invariant
                    min_x == triangle.min_x(),
                    max_x == triangle.max_x(),
                    min_y == triangle.min_y(),
                    max_y == triangle.max_y(),
                    grid == triangle.box_pixels(),
                    test == triangle.center_test(),
                    ht == triangle.box_height(),
                    min_x <= x <= max_x,
                    min_y <= y <= max_y + 1,
                    pixel_seq(pixels@) == grid.take((x - min_x) * ht + (y - min_y)).filter(test),
                decreases max_y - y + 1,
            {
                let ghost n = (x - min_x) * ht + (y - min_y);
                let ghost kept = pixels@;
                proof {
                    lemma_box_pixel(*triangle, x - min_x, y - min_y);
                    lemma_filter_next(grid, test, n);
                }
                if Self::inside_triangle(2 * x + 1, 2 * y + 1, 2, triangle) {
                    pixels.push((x as i32, y as i32));
                    assert(pixel_seq(pixels@) =~= pixel_seq(kept).push((x as int, y as int)));
                }
                y = y + 1;
            }
            proof {
                assert((x - min_x) * ht + ht == (x + 1 - min_x) * ht) by (nonlinear_arith);
            }
            x = x + 1;
        }
        proof {
            assert(grid.take((x - min_x) * ht) =~= grid);
        }
        pixels
    }
}

/// The smallest of three numbers.
fn lowest(a: i32, b: i32, c: i32) -> (m: i32)
    ensures
        m == vstd::math::min(vstd::math::min(a as int, b as int), c as int),
{
    let ab = if a <= b {
        a
    } else {
        b
    };
    if ab <= c {
        ab
    } else {
        c
    }
}

/// The largest of three numbers.
fn highest(a: i32, b: i32, c: i32) -> (m: i32)
    ensures
        m == vstd::math::max(vstd::math::max(a as int, b as int), c as int),
{
    let ab = if a >= b {
        a
    } else {
        b
    };
    if ab >= c {
        ab
    } else {
        c
    }
}

} // verus!
