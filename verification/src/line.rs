//! The pixels of a straight line between two points, and what holds of
//! them.
//!
//! A line is walked from its first point to its last in unit steps. An
//! error term says after each step which of the two axes falls behind: it
//! starts at `dx - dy`, loses `dy` with every step along x and gains `dx`
//! with every step along y, where `dx` and `dy` are the distances to cover.

use vstd::prelude::*;
use crate::frame::Frame;

verus! {

/// Distance between two coordinates.
pub open spec fn span(from: int, to: int) -> int {
    if to > from {
        to - from
    } else {
        from - to
    }
}

/// The coordinate that lies `steps` unit steps from `from` in the direction
/// of `to`.
pub open spec fn advance(from: int, to: int, steps: int) -> int {
    if to > from {
        from + steps
    } else {
        from - steps
    }
}

/// The error term after `i` steps along x and `j` steps along y.
pub open spec fn error_term(dx: int, dy: int, i: int, j: int) -> int {
    dx - dy - i * dy + j * dx
}

/// Whether the walk steps along x next.
pub open spec fn steps_x(dx: int, dy: int, i: int, j: int) -> bool {
    2 * error_term(dx, dy, i, j) > -dy
}

/// Whether the walk steps along y next.
pub open spec fn steps_y(dx: int, dy: int, i: int, j: int) -> bool {
    2 * error_term(dx, dy, i, j) < dx
}

/// The walk from `(i, j)` to `(dx, dy)`, both ends included, in steps taken
/// along each axis.
pub open spec fn walk(dx: int, dy: int, i: int, j: int) -> Seq<(int, int)>
    decreases dx - i + dy - j,
    when 0 <= i <= dx && 0 <= j <= dy
    via walk_decreases
{
    if i == dx && j == dy {
        seq![(i, j)]
    } else {
        seq![(i, j)] + walk(
            dx,
            dy,
            if steps_x(dx, dy, i, j) {
                i + 1
            } else {
                i
            },
            if steps_y(dx, dy, i, j) {
                j + 1
            } else {
                j
            },
        )
    }
}

#[via_fn]
proof fn walk_decreases(dx: int, dy: int, i: int, j: int) {
    if !(i == dx && j == dy) {
        lemma_step(dx, dy, i, j);
    }
}

/// Short of the last point the walk always moves, and never past the last
/// point on either axis.
pub proof fn lemma_step(dx: int, dy: int, i: int, j: int)
    requires
        0 <= i <= dx,
        0 <= j <= dy,
        !(i == dx && j == dy),
    ensures
        steps_x(dx, dy, i, j) || steps_y(dx, dy, i, j),
        steps_x(dx, dy, i, j) ==> i < dx,
        steps_y(dx, dy, i, j) ==> j < dy,
{
    if i == dx {
        assert(dx * (j + 1 - dy) <= 0) by (nonlinear_arith)
            requires
                0 <= dx,
                j + 1 - dy <= 0,
        ;
        assert(error_term(dx, dy, i, j) == dx * (j + 1 - dy) - dy) by (nonlinear_arith)
            requires
                i == dx,
        ;
    }
    if j == dy {
        assert(dy * (dx - i - 1) >= 0) by (nonlinear_arith)
            requires
                0 <= dy,
                dx - i - 1 >= 0,
        ;
        assert(error_term(dx, dy, i, j) == dx + dy * (dx - i - 1)) by (nonlinear_arith)
            requires
                j == dy,
        ;
    }
}

/// The point that lies `offset` steps from `p0` on the way to `p1`.
pub open spec fn place(p0: (int, int), p1: (int, int), offset: (int, int)) -> (int, int) {
    (advance(p0.0, p1.0, offset.0), advance(p0.1, p1.1, offset.1))
}

/// The pixels of the line from `p0` to `p1`, in the order in which they are
/// drawn.
pub open spec fn line_points(p0: (int, int), p1: (int, int)) -> Seq<(int, int)> {
    let steps = walk(span(p0.0, p1.0), span(p0.1, p1.1), 0, 0);
    Seq::new(steps.len(), |n: int| place(p0, p1, steps[n]))
}

/// Whether `(x, y)` is a pixel of the line from `p0` to `p1`.
pub open spec fn on_line(p0: (int, int), p1: (int, int), x: int, y: int) -> bool {
    line_points(p0, p1).contains((x, y))
}

/// Whether `b` is one of the eight neighbours of `a`.
pub open spec fn adjacent(a: (int, int), b: (int, int)) -> bool {
    &&& -1 <= b.0 - a.0 <= 1
    &&& -1 <= b.1 - a.1 <= 1
    &&& a != b
}

/// Whether `p` lies in the rectangle that `p0` and `p1` span.
pub open spec fn between(p0: (int, int), p1: (int, int), p: (int, int)) -> bool {
    &&& (p0.0 <= p.0 <= p1.0 || p1.0 <= p.0 <= p0.0)
    &&& (p0.1 <= p.1 <= p1.1 || p1.1 <= p.1 <= p0.1)
}

/// The walk starts where it is, ends at `(dx, dy)`, never leaves the
/// rectangle between the two, and moves by one step along x, along y or
/// along both each time.
pub proof fn lemma_walk(dx: int, dy: int, i: int, j: int)
    requires
        0 <= i <= dx,
        0 <= j <= dy,
    ensures
        walk(dx, dy, i, j).len() >= 1,
        walk(dx, dy, i, j).first() == (i, j),
        walk(dx, dy, i, j).last() == (dx, dy),
        forall|n: int|
            0 <= n < walk(dx, dy, i, j).len() ==> {
                let p = #[trigger] walk(dx, dy, i, j)[n];
                i <= p.0 <= dx && j <= p.1 <= dy
            },
        forall|n: int|
            0 <= n < walk(dx, dy, i, j).len() - 1 ==> {
                let a = #[trigger] walk(dx, dy, i, j)[n];
                let b = walk(dx, dy, i, j)[n + 1];
                0 <= b.0 - a.0 <= 1 && 0 <= b.1 - a.1 <= 1 && a != b
            },
    decreases dx - i + dy - j,
{
    if !(i == dx && j == dy) {
        lemma_step(dx, dy, i, j);
        let ni = if steps_x(dx, dy, i, j) {
            i + 1
        } else {
            i
        };
        let nj = if steps_y(dx, dy, i, j) {
            j + 1
        } else {
            j
        };
        lemma_walk(dx, dy, ni, nj);
        let rest = walk(dx, dy, ni, nj);
        let whole = walk(dx, dy, i, j);
        assert(whole == seq![(i, j)] + rest);
        assert forall|n: int| 0 <= n < whole.len() implies {
            let p = #[trigger] whole[n];
            i <= p.0 <= dx && j <= p.1 <= dy
        } by {
            if n > 0 {
                assert(whole[n] == rest[n - 1]);
            }
        }
        assert forall|n: int| 0 <= n < whole.len() - 1 implies {
            let a = #[trigger] whole[n];
            let b = whole[n + 1];
            0 <= b.0 - a.0 <= 1 && 0 <= b.1 - a.1 <= 1 && a != b
        } by {
            assert(whole[n + 1] == rest[n]);
            if n > 0 {
                assert(whole[n] == rest[n - 1]);
            } else {
                assert(rest[0] == rest.first());
            }
        }
        assert(whole.last() == rest.last());
    }
}

/// The line starts at `p0`, ends at `p1`, stays in the rectangle between
/// the two, and each of its pixels is a neighbour of the one before: a path
/// without gaps.
pub proof fn lemma_line_is_path(p0: (int, int), p1: (int, int))
    ensures
        line_points(p0, p1).len() >= 1,
        line_points(p0, p1).first() == p0,
        line_points(p0, p1).last() == p1,
        forall|n: int|
            0 <= n < line_points(p0, p1).len() ==> between(
                p0,
                p1,
                #[trigger] line_points(p0, p1)[n],
            ),
        forall|n: int|
            0 <= n < line_points(p0, p1).len() - 1 ==> adjacent(
                #[trigger] line_points(p0, p1)[n],
                line_points(p0, p1)[n + 1],
            ),
{
    let dx = span(p0.0, p1.0);
    let dy = span(p0.1, p1.1);
    let steps = walk(dx, dy, 0, 0);
    let points = line_points(p0, p1);
    lemma_walk(dx, dy, 0, 0);
    assert(points.first() == place(p0, p1, steps.first()));
    assert(points.last() == place(p0, p1, steps.last()));
    assert forall|n: int| 0 <= n < points.len() implies between(p0, p1, #[trigger] points[n]) by {
        let p = steps[n];
        assert(0 <= p.0 <= dx && 0 <= p.1 <= dy);
    }
    assert forall|n: int| 0 <= n < points.len() - 1 implies adjacent(
        #[trigger] points[n],
        points[n + 1],
    ) by {
        let a = steps[n];
        let b = steps[n + 1];
        assert(0 <= b.0 - a.0 <= 1 && 0 <= b.1 - a.1 <= 1 && a != b);
        assert(points[n] == place(p0, p1, a));
        assert(points[n + 1] == place(p0, p1, b));
    }
}

/// Where the walk is after one more step from `(i, j)`.
pub open spec fn after_step(dx: int, dy: int, i: int, j: int) -> (int, int) {
    (
        if steps_x(dx, dy, i, j) {
            i + 1
        } else {
            i
        },
        if steps_y(dx, dy, i, j) {
            j + 1
        } else {
            j
        },
    )
}

/// What one more pixel of the line means while the line is being drawn:
/// when `drawn` pixels are done and the walk stands at `(i, j)`, short of
/// the last point, the next pixel is the one at `(i, j)`, and the walk goes
/// on from the step after it.
pub proof fn lemma_next_pixel(p0: (int, int), p1: (int, int), i: int, j: int, drawn: int)
    requires
        0 <= i <= span(p0.0, p1.0),
        0 <= j <= span(p0.1, p1.1),
        !(i == span(p0.0, p1.0) && j == span(p0.1, p1.1)),
        0 <= drawn < line_points(p0, p1).len(),
        walk(span(p0.0, p1.0), span(p0.1, p1.1), 0, 0).skip(drawn) == walk(
            span(p0.0, p1.0),
            span(p0.1, p1.1),
            i,
            j,
        ),
    ensures
        ({
            let dx = span(p0.0, p1.0);
            let dy = span(p0.1, p1.1);
            let (ni, nj) = after_step(dx, dy, i, j);
            &&& line_points(p0, p1)[drawn] == place(p0, p1, (i, j))
            &&& line_points(p0, p1).take(drawn).push(place(p0, p1, (i, j))) == line_points(
                p0,
                p1,
            ).take(drawn + 1)
            &&& drawn + 1 < line_points(p0, p1).len()
            &&& walk(dx, dy, 0, 0).skip(drawn + 1) == walk(dx, dy, ni, nj)
            &&& i <= ni <= dx
            &&& j <= nj <= dy
            &&& ni + nj > i + j
            &&& error_term(dx, dy, i + 1, j) == error_term(dx, dy, i, j) - dy
            &&& error_term(dx, dy, ni, j + 1) == error_term(dx, dy, ni, j) + dx
            &&& between(p0, p1, place(p0, p1, (i, j)))
        }),
{
    let dx = span(p0.0, p1.0);
    let dy = span(p0.1, p1.1);
    let (ni, nj) = after_step(dx, dy, i, j);
    let steps = walk(dx, dy, 0, 0);
    let points = line_points(p0, p1);
    lemma_step(dx, dy, i, j);
    lemma_walk(dx, dy, ni, nj);
    assert(walk(dx, dy, i, j) == seq![(i, j)] + walk(dx, dy, ni, nj));
    assert(steps[drawn] == steps.skip(drawn)[0]);
    assert(steps.skip(drawn + 1) =~= steps.skip(drawn).skip(1));
    assert(steps.skip(drawn).skip(1) =~= walk(dx, dy, ni, nj));
    assert(steps.skip(drawn + 1).len() >= 1);
    assert(points.take(drawn).push(place(p0, p1, (i, j))) =~= points.take(drawn + 1));
    assert(error_term(dx, dy, i + 1, j) == error_term(dx, dy, i, j) - dy) by (nonlinear_arith);
    assert(error_term(dx, dy, ni, j + 1) == error_term(dx, dy, ni, j) + dx) by (nonlinear_arith);
}

/// When the walk has reached the last point, the pixel there is all that is
/// left to draw.
pub proof fn lemma_last_pixel(p0: (int, int), p1: (int, int), drawn: int)
    requires
        0 <= drawn < line_points(p0, p1).len(),
        walk(span(p0.0, p1.0), span(p0.1, p1.1), 0, 0).skip(drawn) == walk(
            span(p0.0, p1.0),
            span(p0.1, p1.1),
            span(p0.0, p1.0),
            span(p0.1, p1.1),
        ),
    ensures
        line_points(p0, p1).take(drawn).push(p1) == line_points(p0, p1),
{
    let dx = span(p0.0, p1.0);
    let dy = span(p0.1, p1.1);
    let steps = walk(dx, dy, 0, 0);
    let points = line_points(p0, p1);
    assert(steps.skip(drawn).len() == 1);
    assert(steps[drawn] == steps.skip(drawn)[0]);
    assert(points[drawn] == p1);
    assert(points.take(drawn).push(p1) =~= points);
}

/// The cells of `frame` with the cell of every pixel among `points` set to
/// `0xFF`.
#[verifier::opaque]
pub open spec fn plotted_cells(frame: Frame, points: Seq<(int, int)>) -> Seq<u8> {
    Seq::new(
        frame.cells.len(),
        |k: int|
            if points.contains((k % (frame.width as int), k / (frame.width as int))) {
                0xFFu8
            } else {
                frame.cells[k]
            },
    )
}

/// The frame with the cell of every pixel among `points` set to `0xFF`.
pub open spec fn plotted(frame: Frame, points: Seq<(int, int)>) -> Frame {
    Frame { cells: plotted_cells(frame, points), ..frame }
}

/// The frame with the line from `p0` to `p1` drawn into it. Where either end
/// lies outside the frame, nothing of the line is drawn.
pub open spec fn stroke(frame: Frame, p0: (int, int), p1: (int, int)) -> Frame {
    if frame.contains(p0.0, p0.1) && frame.contains(p1.0, p1.1) {
        plotted(frame, line_points(p0, p1))
    } else {
        frame
    }
}

/// What a line leaves in each cell: `0xFF` where the pixel is on the line,
/// and what was there before where it is not.
pub proof fn lemma_stroke_cell(frame: Frame, p0: (int, int), p1: (int, int), x: int, y: int)
    requires
        frame.wf(),
        frame.contains(p0.0, p0.1),
        frame.contains(p1.0, p1.1),
        frame.contains(x, y),
    ensures
        stroke(frame, p0, p1).wf(),
        stroke(frame, p0, p1).width == frame.width,
        stroke(frame, p0, p1).height == frame.height,
        stroke(frame, p0, p1).cell(x, y) == (if on_line(p0, p1, x, y) {
            0xFFu8
        } else {
            frame.cell(x, y)
        }),
{
    reveal(plotted_cells);
    crate::frame::lemma_offset_in_range(frame, x, y);
}

/// A line sets both of its ends.
pub proof fn lemma_stroke_sets_ends(frame: Frame, p0: (int, int), p1: (int, int))
    requires
        frame.wf(),
        frame.contains(p0.0, p0.1),
        frame.contains(p1.0, p1.1),
    ensures
        on_line(p0, p1, p0.0, p0.1),
        on_line(p0, p1, p1.0, p1.1),
        stroke(frame, p0, p1).cell(p0.0, p0.1) == 0xFF,
        stroke(frame, p0, p1).cell(p1.0, p1.1) == 0xFF,
{
    lemma_line_is_path(p0, p1);
    let points = line_points(p0, p1);
    assert(points[0] == p0);
    assert(points[points.len() - 1] == p1);
    lemma_stroke_cell(frame, p0, p1, p0.0, p0.1);
    lemma_stroke_cell(frame, p0, p1, p1.0, p1.1);
}

/// Every pixel of a line between two pixels of a frame is a pixel of that
/// frame.
pub proof fn lemma_line_in_frame(frame: Frame, p0: (int, int), p1: (int, int), x: int, y: int)
    requires
        frame.contains(p0.0, p0.1),
        frame.contains(p1.0, p1.1),
        on_line(p0, p1, x, y),
    ensures
        frame.contains(x, y),
{
    lemma_line_is_path(p0, p1);
    let points = line_points(p0, p1);
    let n = choose|n: int| 0 <= n < points.len() && points[n] == (x, y);
    assert(between(p0, p1, points[n]));
}

/// Drawing no pixel changes nothing.
pub proof fn lemma_plotted_none(frame: Frame)
    ensures
        plotted(frame, Seq::empty()) == frame,
{
    reveal(plotted_cells);
    assert(plotted(frame, Seq::empty()).cells =~= frame.cells);
}

/// Drawing one more pixel of the frame sets its cell and no other.
pub proof fn lemma_plotted_push(frame: Frame, points: Seq<(int, int)>, x: int, y: int)
    requires
        frame.wf(),
        frame.contains(x, y),
    ensures
        plotted(frame, points.push((x, y))) == plotted(frame, points).plot(x, y, 0xFF),
{
    reveal(plotted_cells);
    let w = frame.width as int;
    let more = plotted(frame, points.push((x, y)));
    let step = plotted(frame, points).plot(x, y, 0xFF);
    crate::frame::lemma_offset_in_range(frame, x, y);
    assert forall|k: int| 0 <= k < more.cells.len() implies more.cells[k] == step.cells[k] by {
        let q = (k % w, k / w);
        if k == frame.offset(x, y) {
            assert(points.push((x, y)).last() == (x, y));
            assert(points.push((x, y)).contains(q));
        } else {
            assert(q != (x, y)) by {
                vstd::arithmetic::div_mod::lemma_fundamental_div_mod(k, w);
                assert(w * (k / w) == (k / w) * w) by (nonlinear_arith);
            }
            if points.contains(q) {
                let n = choose|n: int| 0 <= n < points.len() && points[n] == q;
                assert(points.push((x, y))[n] == q);
            }
            if points.push((x, y)).contains(q) {
                let n = choose|n: int|
                    0 <= n < points.push((x, y)).len() && points.push((x, y))[n] == q;
                assert(n < points.len());
                assert(points[n] == q);
            }
        }
    }
    assert(more.cells =~= step.cells);
}

} // verus!
