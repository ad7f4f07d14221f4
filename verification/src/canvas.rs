//! The mathematical model of the frame buffer: a row-major grid of cells
//! whose origin is the bottom-left pixel, so that rows are stored top first.

use crate::rgb::Rgb;
use vstd::prelude::*;

verus! {

/// Whether pixel `(x, y)` has a cell on a canvas of the given size.
pub open spec fn in_canvas(width: int, height: int, x: int, y: int) -> bool {
    0 <= x < width && 0 <= y < height
}

/// The cell of pixel `(x, y)`: rows are counted from the top of the buffer,
/// pixels from the bottom of the canvas.
pub open spec fn cell_index(width: int, height: int, x: int, y: int) -> int {
    (height - 1 - y) * width + x
}

/// Whether pixel `p` has the cell `idx`.
pub open spec fn hits(p: (int, int), width: int, height: int, idx: int) -> bool {
    in_canvas(width, height, p.0, p.1) && cell_index(width, height, p.0, p.1) == idx
}

/// The frame after writing colour `c` at pixel `p`: one cell changes where
/// the pixel is on the canvas, nothing where it is not.
pub open spec fn plot(frame: Seq<Rgb>, width: int, height: int, p: (int, int), c: Rgb) -> Seq<
    Rgb,
> {
    if in_canvas(width, height, p.0, p.1) {
        frame.update(cell_index(width, height, p.0, p.1), c)
    } else {
        frame
    }
}

/// Whether one of the pixels `pts` has the cell `idx`.
pub open spec fn covers(pts: Seq<(int, int)>, width: int, height: int, idx: int) -> bool {
    exists|k: int| 0 <= k < pts.len() && #[trigger] hits(pts[k], width, height, idx)
}

/// The frame after writing colour `c` at every pixel of `pts`: a cell holds
/// `c` where one of the pixels has it, and what it held before otherwise.
pub open spec fn painted(
    frame: Seq<Rgb>,
    width: int,
    height: int,
    pts: Seq<(int, int)>,
    c: Rgb,
) -> Seq<Rgb> {
    Seq::new(
        frame.len(),
        |i: int|
            if covers(pts, width, height, i) {
                c
            } else {
                frame[i]
            },
    )
}

/// Every pixel of the canvas has a cell inside a buffer of `width * height`
/// cells.
pub proof fn lemma_cell_in_frame(width: int, height: int, x: int, y: int)
    requires
        in_canvas(width, height, x, y),
    ensures
        0 <= cell_index(width, height, x, y) < width * height,
{
    assert(0 <= (height - 1 - y) * width + x < width * height) by (nonlinear_arith)
        requires
            0 <= x < width,
            0 <= y < height,
    ;
}

/// Two pixels of the canvas that share a cell are the same pixel.
pub proof fn lemma_cell_injective(width: int, height: int, x: int, y: int, u: int, v: int)
    requires
        in_canvas(width, height, x, y),
        in_canvas(width, height, u, v),
        cell_index(width, height, x, y) == cell_index(width, height, u, v),
    ensures
        x == u,
        y == v,
{
    assert(y == v) by (nonlinear_arith)
        requires
            0 <= x < width,
            0 <= u < width,
            (height - 1 - y) * width + x == (height - 1 - v) * width + u,
    ;
    assert(x == u) by (nonlinear_arith)
        requires
            y == v,
            (height - 1 - y) * width + x == (height - 1 - v) * width + u,
    ;
}

/// Writing at a pixel off the canvas changes nothing, and writing at one on
/// it changes its cell and no other.
pub proof fn lemma_plot_cells(frame: Seq<Rgb>, width: int, height: int, p: (int, int), c: Rgb)
    requires
        frame.len() == width * height,
    ensures
        !in_canvas(width, height, p.0, p.1) ==> plot(frame, width, height, p, c) == frame,
        plot(frame, width, height, p, c).len() == frame.len(),
        forall|i: int|
            0 <= i < frame.len() ==> #[trigger] plot(frame, width, height, p, c)[i] == (if hits(
                p,
                width,
                height,
                i,
            ) {
                c
            } else {
                frame[i]
            }),
{
    if in_canvas(width, height, p.0, p.1) {
        lemma_cell_in_frame(width, height, p.0, p.1);
    }
}

/// Painting no pixel leaves the frame as it was.
pub proof fn lemma_painted_nothing(frame: Seq<Rgb>, width: int, height: int, c: Rgb)
    ensures
        painted(frame, width, height, Seq::empty(), c) == frame,
{
    assert(painted(frame, width, height, Seq::empty(), c) =~= frame);
}

/// Painting one pixel more is plotting it on what was painted so far.
pub proof fn lemma_painted_push(
    frame: Seq<Rgb>,
    width: int,
    height: int,
    pts: Seq<(int, int)>,
    p: (int, int),
    c: Rgb,
)
    requires
        frame.len() == width * height,
    ensures
        painted(frame, width, height, pts.push(p), c) == plot(
            painted(frame, width, height, pts, c),
            width,
            height,
            p,
            c,
        ),
{
    let more = pts.push(p);
    let before = painted(frame, width, height, pts, c);
    let after = painted(frame, width, height, more, c);
    let plotted = plot(before, width, height, p, c);
    if in_canvas(width, height, p.0, p.1) {
        lemma_cell_in_frame(width, height, p.0, p.1);
    }
    assert forall|i: int| 0 <= i < frame.len() implies after[i] == plotted[i] by {
        if covers(more, width, height, i) {
            let k = choose|k: int| 0 <= k < more.len() && #[trigger] hits(more[k], width, height, i);
            if k < pts.len() {
                assert(hits(pts[k], width, height, i));
            } else {
                assert(hits(p, width, height, i));
            }
        }
        if covers(pts, width, height, i) {
            let k = choose|k: int| 0 <= k < pts.len() && #[trigger] hits(pts[k], width, height, i);
            assert(hits(more[k], width, height, i));
        }
        if hits(p, width, height, i) {
            assert(hits(more[pts.len() as int], width, height, i));
        }
    }
    assert(after =~= plotted);
}

/// What a painting leaves depends only on which pixels were painted, not on
/// their order or on how often each occurs.
pub proof fn lemma_painted_same_pixels(
    frame: Seq<Rgb>,
    width: int,
    height: int,
    a: Seq<(int, int)>,
    b: Seq<(int, int)>,
    c: Rgb,
)
    requires
        forall|p: (int, int)| a.contains(p) <==> b.contains(p),
    ensures
        painted(frame, width, height, a, c) == painted(frame, width, height, b, c),
{
    assert forall|i: int| covers(a, width, height, i) == covers(b, width, height, i) by {
        if covers(a, width, height, i) {
            let k = choose|k: int| 0 <= k < a.len() && #[trigger] hits(a[k], width, height, i);
            assert(a.contains(a[k]));
            let j = choose|j: int| 0 <= j < b.len() && b[j] == a[k];
            assert(hits(b[j], width, height, i));
        }
        if covers(b, width, height, i) {
            let k = choose|k: int| 0 <= k < b.len() && #[trigger] hits(b[k], width, height, i);
            assert(b.contains(b[k]));
            let j = choose|j: int| 0 <= j < a.len() && a[j] == b[k];
            assert(hits(a[j], width, height, i));
        }
    }
    assert(painted(frame, width, height, a, c) =~= painted(frame, width, height, b, c));
}

/// Painting one list of pixels and then another is painting both at once.
pub proof fn lemma_painted_concat(
    frame: Seq<Rgb>,
    width: int,
    height: int,
    a: Seq<(int, int)>,
    b: Seq<(int, int)>,
    c: Rgb,
)
    ensures
        painted(painted(frame, width, height, a, c), width, height, b, c) == painted(
            frame,
            width,
            height,
            a + b,
            c,
        ),
{
    let both = a + b;
    assert forall|i: int| covers(both, width, height, i) == (covers(a, width, height, i) || covers(
        b,
        width,
        height,
        i,
    )) by {
        if covers(both, width, height, i) {
            let k = choose|k: int| 0 <= k < both.len() && #[trigger] hits(both[k], width, height, i);
            if k < a.len() {
                assert(hits(a[k], width, height, i));
            } else {
                assert(hits(b[k - a.len()], width, height, i));
            }
        }
        if covers(a, width, height, i) {
            let k = choose|k: int| 0 <= k < a.len() && #[trigger] hits(a[k], width, height, i);
            assert(hits(both[k], width, height, i));
        }
        if covers(b, width, height, i) {
            let k = choose|k: int| 0 <= k < b.len() && #[trigger] hits(b[k], width, height, i);
            assert(hits(both[a.len() + k], width, height, i));
        }
    }
    assert(painted(painted(frame, width, height, a, c), width, height, b, c) =~= painted(
        frame,
        width,
        height,
        both,
        c,
    ));
}

} // verus!
