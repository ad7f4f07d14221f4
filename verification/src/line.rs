//! Line scan conversion: which pixels a segment between two pixels covers.
//!
//! The segment is walked one pixel at a time along its longer axis (the
//! driving axis), always in the direction of increasing coordinate. The
//! `i`-th pixel of the walk lies `i` along the driving axis and
//! `round(i * minor / major)` along the other, halves rounded away from the
//! start. The executable walk never divides: it carries an integer error term
//! and is proved to visit exactly these pixels.

use crate::point::{pixel_seq, Point3};
use vstd::arithmetic::div_mod::{lemma_fundamental_div_mod, lemma_fundamental_div_mod_converse};
use vstd::math::{abs, max, min};
use vstd::prelude::*;

verus! {

/// Whether the walk is driven along x; it is driven along y where the
/// segment is strictly taller than wide.
pub open spec fn x_driven(x1: int, y1: int, x2: int, y2: int) -> bool {
    abs(y2 - y1) <= abs(x2 - x1)
}

/// The number of steps of the walk: the extent along the driving axis.
pub open spec fn line_steps(x1: int, y1: int, x2: int, y2: int) -> nat {
    if x_driven(x1, y1, x2, y2) {
        abs(x2 - x1)
    } else {
        abs(y2 - y1)
    }
}

/// Whether the walk starts at `(x1, y1)`; otherwise it starts at `(x2, y2)`.
/// It starts at the end with the smaller driving coordinate.
pub open spec fn starts_at_first(x1: int, y1: int, x2: int, y2: int) -> bool {
    if x_driven(x1, y1, x2, y2) {
        x2 - x1 >= 0
    } else {
        y2 - y1 >= 0
    }
}

/// The first pixel of the walk.
pub open spec fn line_start(x1: int, y1: int, x2: int, y2: int) -> (int, int) {
    if starts_at_first(x1, y1, x2, y2) {
        (x1, y1)
    } else {
        (x2, y2)
    }
}

/// The last pixel of the walk: the end that is not its start.
pub open spec fn line_stop(x1: int, y1: int, x2: int, y2: int) -> (int, int) {
    if starts_at_first(x1, y1, x2, y2) {
        (x2, y2)
    } else {
        (x1, y1)
    }
}

/// The direction of a step on the minor axis: `1` where the two extents have
/// the same strict sign, `-1` otherwise.
pub open spec fn minor_step(x1: int, y1: int, x2: int, y2: int) -> int {
    let dx = x2 - x1;
    let dy = y2 - y1;
    if (dy < 0 && dx < 0) || (dx > 0 && dy > 0) {
        1
    } else {
        -1
    }
}

/// How far the walk has moved on the minor axis after `i` steps, for a
/// segment of extent `major` along the driving axis and `minor` along the
/// other: `i * minor / major` rounded to the nearest integer, halves up.
pub open spec fn minor_offset(major: int, minor: int, i: int) -> int {
    if major == 0 {
        0
    } else {
        (2 * minor * i + major) / (2 * major)
    }
}

/// The `i`-th pixel of the walk over the segment from `(x1, y1)` to
/// `(x2, y2)`, for `0 <= i <= line_steps(..)`.
pub open spec fn line_point(x1: int, y1: int, x2: int, y2: int, i: int) -> (int, int) {
    let w = abs(x2 - x1) as int;
    let h = abs(y2 - y1) as int;
    let (sx, sy) = line_start(x1, y1, x2, y2);
    let s = minor_step(x1, y1, x2, y2);
    if x_driven(x1, y1, x2, y2) {
        (sx + i, sy + s * minor_offset(w, h, i))
    } else {
        (sx + s * minor_offset(h, w, i), sy + i)
    }
}

/// The pixels that the segment from `(x1, y1)` to `(x2, y2)` covers, in the
/// order of the walk.
pub open spec fn segment_pixels(x1: int, y1: int, x2: int, y2: int) -> Seq<(int, int)> {
    Seq::new(line_steps(x1, y1, x2, y2) + 1, |i: int| line_point(x1, y1, x2, y2, i))
}

/// The error term that the walk carries after `i` steps.
pub open spec fn error_term(major: int, minor: int, i: int) -> int {
    2 * minor * (i + 1) - major - 2 * major * minor_offset(major, minor, i)
}

/// The error term at the start of the walk.
pub proof fn lemma_error_start(major: int, minor: int)
    requires
        0 <= minor <= major,
    ensures
        error_term(major, minor, 0) == 2 * minor - major,
{
    lemma_offset_bounds(major, minor, 0);
    let k = minor_offset(major, minor, 0);
    assert(2 * minor * (0 + 1) - major - 2 * major * k == 2 * minor - major) by (nonlinear_arith)
        requires
            k == 0,
    ;
}

/// One step of the walk: the minor coordinate moves exactly when the error
/// term is not negative, and the error term stays within fixed bounds.
pub proof fn lemma_offset_step(major: int, minor: int, i: int)
    requires
        0 <= minor <= major,
        0 < major,
        0 <= i,
    ensures
        minor_offset(major, minor, i + 1) == minor_offset(major, minor, i) + (if error_term(
            major,
            minor,
            i,
        ) >= 0 {
            1int
        } else {
            0int
        }),
        -2 * major <= error_term(major, minor, i) < 2 * minor,
        error_term(major, minor, i + 1) == error_term(major, minor, i) + (if error_term(
            major,
            minor,
            i,
        ) >= 0 {
            2 * (minor - major)
        } else {
            2 * minor
        }),
{
    let d = 2 * major;
    let n = 2 * minor * i + major;
    let k = n / d;
    let r = n % d;
    lemma_fundamental_div_mod(n, d);
    assert(0 <= r < d);
    assert(n == d * k + r);
    let n1 = 2 * minor * (i + 1) + major;
    assert(n1 == n + 2 * minor) by (nonlinear_arith)
        requires
            n == 2 * minor * i + major,
            n1 == 2 * minor * (i + 1) + major,
    ;
    assert(2 * major * k == d * k);
    let e = error_term(major, minor, i);
    assert(e == r + 2 * minor - d) by (nonlinear_arith)
        requires
            e == 2 * minor * (i + 1) - major - 2 * major * k,
            n == 2 * minor * i + major,
            n == d * k + r,
            d == 2 * major,
    ;
    if e >= 0 {
        assert(n1 == (k + 1) * d + (r + 2 * minor - d)) by (nonlinear_arith)
            requires
                n1 == n + 2 * minor,
                n == d * k + r,
        ;
        lemma_fundamental_div_mod_converse(n1, d, k + 1, r + 2 * minor - d);
    } else {
        assert(n1 == k * d + (r + 2 * minor)) by (nonlinear_arith)
            requires
                n1 == n + 2 * minor,
                n == d * k + r,
        ;
        lemma_fundamental_div_mod_converse(n1, d, k, r + 2 * minor);
    }
    let k1 = minor_offset(major, minor, i + 1);
    assert(k1 == n1 / d);
    let e1 = error_term(major, minor, i + 1);
    assert(e1 == e + (if e >= 0 {
        2 * (minor - major)
    } else {
        2 * minor
    })) by (nonlinear_arith)
        requires
            e == 2 * minor * (i + 1) - major - 2 * major * k,
            e1 == 2 * minor * (i + 2) - major - 2 * major * k1,
            k1 == k + (if e >= 0 {
                1int
            } else {
                0int
            }),
    ;
}

/// The walk stays between its two ends on the minor axis, and ends exactly
/// on the far one.
pub proof fn lemma_offset_bounds(major: int, minor: int, i: int)
    requires
        0 <= minor <= major,
        0 <= i <= major,
    ensures
        0 <= minor_offset(major, minor, i) <= minor,
        minor_offset(major, minor, 0) == 0,
        minor_offset(major, minor, major) == minor,
{
    if major > 0 {
        let d = 2 * major;
        let n = 2 * minor * i + major;
        lemma_fundamental_div_mod(n, d);
        assert(0 <= n && n < (minor + 1) * d) by (nonlinear_arith)
            requires
                n == 2 * minor * i + major,
                d == 2 * major,
                0 <= minor <= major,
                0 <= i <= major,
                0 < major,
        ;
        let k = n / d;
        assert(0 <= k <= minor) by (nonlinear_arith)
            requires
                n == d * k + n % d,
                0 <= n % d < d,
                0 <= n,
                n < (minor + 1) * d,
                d > 0,
        ;
        lemma_fundamental_div_mod_converse(major, d, 0, major);
        assert(2 * minor * 0 + major == major);
        assert(2 * minor * major + major == minor * d + major) by (nonlinear_arith)
            requires
                d == 2 * major,
        ;
        lemma_fundamental_div_mod_converse(2 * minor * major + major, d, minor, major);
    }
}

/// The walk starts on one end of the segment and stops on the other.
pub proof fn lemma_line_ends(x1: int, y1: int, x2: int, y2: int)
    ensures
        line_point(x1, y1, x2, y2, 0) == line_start(x1, y1, x2, y2),
        line_point(x1, y1, x2, y2, line_steps(x1, y1, x2, y2) as int) == line_stop(x1, y1, x2, y2),
{
    let w = abs(x2 - x1) as int;
    let h = abs(y2 - y1) as int;
    let s = minor_step(x1, y1, x2, y2);
    assert(s * 0 == 0);
    if x_driven(x1, y1, x2, y2) {
        lemma_offset_bounds(w, h, w);
        assert(s * h == y2 - y1 || s * h == y1 - y2) by (nonlinear_arith)
            requires
                s == 1 || s == -1,
                h == y2 - y1 || h == y1 - y2,
        ;
    } else {
        lemma_offset_bounds(h, w, h);
        assert(s * w == x2 - x1 || s * w == x1 - x2) by (nonlinear_arith)
            requires
                s == 1 || s == -1,
                w == x2 - x1 || w == x1 - x2,
        ;
    }
}

/// No pixel of the walk leaves the box that the two ends span.
pub proof fn lemma_line_in_box(x1: int, y1: int, x2: int, y2: int, i: int)
    requires
        0 <= i <= line_steps(x1, y1, x2, y2),
    ensures
        min(x1, x2) <= line_point(x1, y1, x2, y2, i).0 <= max(x1, x2),
        min(y1, y2) <= line_point(x1, y1, x2, y2, i).1 <= max(y1, y2),
{
    let w = abs(x2 - x1) as int;
    let h = abs(y2 - y1) as int;
    let s = minor_step(x1, y1, x2, y2);
    if x_driven(x1, y1, x2, y2) {
        lemma_offset_bounds(w, h, i);
        let k = minor_offset(w, h, i);
        assert(s * k == if s == 1 {
            k
        } else {
            -k
        }) by (nonlinear_arith)
            requires
                s == 1 || s == -1,
        ;
    } else {
        lemma_offset_bounds(h, w, i);
        let k = minor_offset(h, w, i);
        assert(s * k == if s == 1 {
            k
        } else {
            -k
        }) by (nonlinear_arith)
            requires
                s == 1 || s == -1,
        ;
    }
}

/// Each step moves one pixel along the driving axis and at most one, in the
/// direction of `minor_step`, along the other: the walk skips no pixel.
pub proof fn lemma_line_connected(x1: int, y1: int, x2: int, y2: int, i: int)
    requires
        0 <= i < line_steps(x1, y1, x2, y2),
    ensures
        ({
            let p = line_point(x1, y1, x2, y2, i);
            let q = line_point(x1, y1, x2, y2, i + 1);
            let s = minor_step(x1, y1, x2, y2);
            if x_driven(x1, y1, x2, y2) {
                q.0 == p.0 + 1 && (q.1 == p.1 || q.1 == p.1 + s)
            } else {
                q.1 == p.1 + 1 && (q.0 == p.0 || q.0 == p.0 + s)
            }
        }),
{
    let w = abs(x2 - x1) as int;
    let h = abs(y2 - y1) as int;
    let s = minor_step(x1, y1, x2, y2);
    let (major, minor) = if x_driven(x1, y1, x2, y2) {
        (w, h)
    } else {
        (h, w)
    };
    lemma_offset_step(major, minor, i);
    let k = minor_offset(major, minor, i);
    assert(s * (k + 1) == s * k + s) by (nonlinear_arith);
}

/// No pixel occurs twice in the walk.
pub proof fn lemma_line_no_repeat(x1: int, y1: int, x2: int, y2: int, i: int, j: int)
    requires
        i != j,
    ensures
        line_point(x1, y1, x2, y2, i) != line_point(x1, y1, x2, y2, j),
{
}

/// Each pixel of the walk is the nearest to the ideal line on its row or
/// column: it lies at most half a pixel from it along the minor axis.
pub proof fn lemma_line_close(major: int, minor: int, i: int)
    requires
        0 <= minor <= major,
        0 < major,
        0 <= i,
    ensures
        -major <= 2 * (minor * i - major * minor_offset(major, minor, i)) < major,
{
    let d = 2 * major;
    let n = 2 * minor * i + major;
    lemma_fundamental_div_mod(n, d);
    let k = n / d;
    assert(-major <= 2 * (minor * i - major * k) < major) by (nonlinear_arith)
        requires
            n == 2 * minor * i + major,
            d == 2 * major,
            n == d * k + n % d,
            0 <= n % d < d,
    ;
}

/// A segment between a pixel and itself covers that pixel and no other.
pub proof fn lemma_line_of_one_point(x: int, y: int)
    ensures
        segment_pixels(x, y, x, y) == seq![(x, y)],
{
    assert(segment_pixels(x, y, x, y) =~= seq![(x, y)]);
}

/// A level segment covers the pixels of its row between its two ends, each
/// once, from the left.
pub proof fn lemma_line_level(x1: int, x2: int, y: int, i: int)
    requires
        0 <= i <= abs(x2 - x1),
    ensures
        segment_pixels(x1, y, x2, y).len() == abs(x2 - x1) + 1,
        segment_pixels(x1, y, x2, y)[i] == (min(x1, x2) + i, y),
{
    let w = abs(x2 - x1) as int;
    lemma_offset_bounds(w, 0, i);
    assert(minor_step(x1, y, x2, y) * 0 == 0);
}

/// A segment as wide as it is tall covers a strict diagonal: each step moves
/// one pixel along both axes.
pub proof fn lemma_line_diagonal(x1: int, y1: int, x2: int, y2: int, i: int)
    requires
        abs(x2 - x1) == abs(y2 - y1),
        0 <= i <= abs(x2 - x1),
    ensures
        segment_pixels(x1, y1, x2, y2).len() == abs(x2 - x1) + 1,
        segment_pixels(x1, y1, x2, y2)[i] == (
            line_start(x1, y1, x2, y2).0 + i,
            line_start(x1, y1, x2, y2).1 + minor_step(x1, y1, x2, y2) * i,
        ),
{
    let w = abs(x2 - x1) as int;
    if w > 0 {
        assert(2 * w * i + w == i * (2 * w) + w) by (nonlinear_arith);
        lemma_fundamental_div_mod_converse(2 * w * i + w, 2 * w, i, w);
    } else {
        assert(minor_step(x1, y1, x2, y2) * 0 == 0);
    }
}

/// A walk over a segment, stopped on one of its pixels.
pub struct LineWalk {
    x: i64,
    y: i64,
    err: i64,
    major: i64,
    minor: i64,
    step: i64,
    steep: bool,
    taken: i64,
    ends: Ghost<(int, int, int, int)>,
}

impl LineWalk {
    /// The segment that is walked, as `(x1, y1, x2, y2)`.
    pub closed spec fn segment(self) -> (int, int, int, int) {
        self.ends@
    }

    /// The number of steps taken so far.
    pub closed spec fn index(self) -> int {
        self.taken as int
    }

    /// The number of steps of the whole walk.
    pub open spec fn steps(self) -> int {
        let (x1, y1, x2, y2) = self.segment();
        line_steps(x1, y1, x2, y2) as int
    }

    /// The pixel at which the walk stands.
    pub open spec fn pixel(self) -> (int, int) {
        let (x1, y1, x2, y2) = self.segment();
        line_point(x1, y1, x2, y2, self.index())
    }

    /// The state agrees with the walk's definition: the current pixel is the
    /// `index()`-th of the segment and the error term is the one that
    /// belongs to it.
    pub closed spec fn wf(self) -> bool {
        let (x1, y1, x2, y2) = self.ends@;
        &&& i32::MIN <= x1 <= i32::MAX
        &&& i32::MIN <= y1 <= i32::MAX
        &&& i32::MIN <= x2 <= i32::MAX
        &&& i32::MIN <= y2 <= i32::MAX
        &&& self.steep == !x_driven(x1, y1, x2, y2)
        &&& self.major == line_steps(x1, y1, x2, y2)
        &&& self.minor == (if self.steep {
            abs(x2 - x1)
        } else {
            abs(y2 - y1)
        })
        &&& self.step == minor_step(x1, y1, x2, y2)
        &&& 0 <= self.taken <= self.major
        &&& (self.x as int, self.y as int) == line_point(x1, y1, x2, y2, self.taken as int)
        &&& self.err == error_term(self.major as int, self.minor as int, self.taken as int)
    }

    /// Starts a walk over the segment between two points, on its first
    /// pixel.
    pub fn new(begin: &Point3, end: &Point3) -> (walk: Self)
        ensures
            walk.wf(),
            walk.segment() == (begin.x as int, begin.y as int, end.x as int, end.y as int),
            walk.index() == 0,
    {
        let x1: i64 = begin.x as i64;
        let y1: i64 = begin.y as i64;
        let x2: i64 = end.x as i64;
        let y2: i64 = end.y as i64;
        let dx: i64 = x2 - x1;
        let dy: i64 = y2 - y1;
        let dx1: i64 = if dx < 0 {
            -dx
        } else {
            dx
        };
        let dy1: i64 = if dy < 0 {
            -dy
        } else {
            dy
        };
        let step: i64 = if (dy < 0 && dx < 0) || (dx > 0 && dy > 0) {
            1
        } else {
            -1
        };
        proof {
            lemma_line_ends(x1 as int, y1 as int, x2 as int, y2 as int);
        }
        if dy1 <= dx1 {
            proof {
                lemma_offset_bounds(dx1 as int, dy1 as int, 0);
                lemma_error_start(dx1 as int, dy1 as int);
            }
            let (x, y) = if dx >= 0 {
                (x1, y1)
            } else {
                (x2, y2)
            };
            LineWalk {
                x,
                y,
                err: 2 * dy1 - dx1,
                major: dx1,
                minor: dy1,
                step,
                steep: false,
                taken: 0,
                ends: Ghost((x1 as int, y1 as int, x2 as int, y2 as int)),
            }
        } else {
            proof {
                lemma_offset_bounds(dy1 as int, dx1 as int, 0);
                lemma_error_start(dy1 as int, dx1 as int);
            }
            let (x, y) = if dy >= 0 {
                (x1, y1)
            } else {
                (x2, y2)
            };
            LineWalk {
                x,
                y,
                err: 2 * dx1 - dy1,
                major: dy1,
                minor: dx1,
                step,
                steep: true,
                taken: 0,
                ends: Ghost((x1 as int, y1 as int, x2 as int, y2 as int)),
            }
        }
    }

    /// Whether the walk stands on its last pixel.
    pub fn finished(&self) -> (done: bool)
        requires
            self.wf(),
        ensures
            done == (self.index() == self.steps()),
            self.index() <= self.steps(),
    {
        self.taken >= self.major
    }

    /// The pixel at which the walk stands.
    pub fn current(&self) -> (p: (i32, i32))
        requires
            self.wf(),
        ensures
            (p.0 as int, p.1 as int) == self.pixel(),
    {
        proof {
            let (x1, y1, x2, y2) = self.ends@;
            lemma_line_in_box(x1, y1, x2, y2, self.taken as int);
        }
        (self.x as i32, self.y as i32)
    }

    /// Takes one step: one pixel along the driving axis, and one along the
    /// other where the error term has turned non-negative.
    pub fn advance(&mut self)
        requires
            old(self).wf(),
            old(self).index() < old(self).steps(),
        ensures
            final(self).wf(),
            final(self).segment() == old(self).segment(),
            final(self).index() == old(self).index() + 1,
    {
        proof {
            let (x1, y1, x2, y2) = self.ends@;
            lemma_offset_step(self.major as int, self.minor as int, self.taken as int);
            lemma_line_in_box(x1, y1, x2, y2, self.taken as int);
            lemma_line_connected(x1, y1, x2, y2, self.taken as int);
        }
        let moved: bool = self.err >= 0;
        if moved {
            self.err = self.err + 2 * (self.minor - self.major);
        } else {
            self.err = self.err + 2 * self.minor;
        }
        if self.steep {
            self.y = self.y + 1;
            if moved {
                self.x = self.x + self.step;
            }
        } else {
            self.x = self.x + 1;
            if moved {
                self.y = self.y + self.step;
            }
        }
        self.taken = self.taken + 1;
    }
}

/// The pixels of the segment between two points, in the order of the walk:
/// from the end with the smaller driving coordinate to the other.
pub fn line_pixels(begin: &Point3, end: &Point3) -> (pixels: Vec<(i32, i32)>)
    ensures
        pixel_seq(pixels@) == segment_pixels(
            begin.x as int,
            begin.y as int,
            end.x as int,
            end.y as int,
        ),
{
    let ghost all = segment_pixels(begin.x as int, begin.y as int, end.x as int, end.y as int);
    let mut walk = LineWalk::new(begin, end);
    let mut pixels: Vec<(i32, i32)> = Vec::new();
    pixels.push(walk.current());
    assert(pixel_seq(pixels@) =~= all.take(1));
    while !walk.finished()
        invariant
            walk.wf(),
            walk.segment() == (begin.x as int, begin.y as int, end.x as int, end.y as int),
            all == segment_pixels(begin.x as int, begin.y as int, end.x as int, end.y as int),
            0 <= walk.index() <= walk.steps(),
            pixels.len() == walk.index() + 1,
            pixel_seq(pixels@) == all.take(walk.index() + 1),
        decreases walk.steps() - walk.index(),
    {
        let ghost before = pixels@;
        walk.advance();
        pixels.push(walk.current());
        proof {
            let n = walk.index();
            assert(all[n] == walk.pixel());
            assert forall|i: int| 0 <= i <= n implies pixel_seq(pixels@)[i] == all.take(n + 1)[i] by {
                if i < n {
                    assert(pixel_seq(before)[i] == all.take(n)[i]);
                }
            }
            assert(pixel_seq(pixels@) =~= all.take(n + 1));
        }
    }
    assert(all.take(walk.index() + 1) =~= all);
    pixels
}

} // verus!
