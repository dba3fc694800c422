//! The pixels of a line in closed form.
//!
//! Seen from its first point, a line of `dx` columns and `dy` rows is the
//! set of offsets `(i, j)` for which `i * dy - j * dx`, a measure of how far
//! the offset lies from the ideal line, stays within half a step of the
//! longer axis. On that axis the line has one pixel for each coordinate.
//! Where the ideal line passes exactly half way between two pixels, the one
//! nearer to the first point is taken: such a line differs from the line
//! drawn the other way round, and no other line does.

use vstd::prelude::*;
use crate::line::{
    after_step, between, error_term, lemma_step, lemma_walk, line_points, on_line, place, span,
    steps_x, steps_y, walk,
};

verus! {

/// How far `(i, j)` lies from the ideal line, in units that make it a whole
/// number: positive below the line, negative above.
pub open spec fn deviation(dx: int, dy: int, i: int, j: int) -> int {
    i * dy - j * dx
}

/// Whether `(i, j)` lies within half a step of the ideal line, measured
/// along the shorter axis. Where the two sides are equal the line is the
/// diagonal.
pub open spec fn in_band(dx: int, dy: int, i: int, j: int) -> bool {
    if dx > dy {
        -dx < 2 * deviation(dx, dy, i, j) <= dx
    } else if dx < dy {
        -dy <= 2 * deviation(dx, dy, i, j) < dy
    } else {
        i == j
    }
}

/// Whether the offset `(i, j)` belongs to the line of `dx` columns and `dy`
/// rows.
pub open spec fn covers(dx: int, dy: int, i: int, j: int) -> bool {
    &&& 0 <= i <= dx
    &&& 0 <= j <= dy
    &&& in_band(dx, dy, i, j)
}

/// Whether the ideal line passes exactly half way between two pixels
/// somewhere.
pub open spec fn has_tie(dx: int, dy: int) -> bool {
    dx != dy && exists|i: int, j: int|
        0 <= i <= dx && 0 <= j <= dy && 2 * #[trigger] deviation(dx, dy, i, j) == (if dx > dy {
            dx
        } else {
            dy
        })
}

/// A step along x adds `dy` to the deviation, a step along y takes `dx` off
/// it, and the error term is the deviation seen from `dx - dy`.
proof fn lemma_deviation(dx: int, dy: int, i: int, j: int)
    ensures
        deviation(dx, dy, i + 1, j) == deviation(dx, dy, i, j) + dy,
        deviation(dx, dy, i, j + 1) == deviation(dx, dy, i, j) - dx,
        deviation(dx, dy, i + 1, j + 1) == deviation(dx, dy, i, j) + dy - dx,
        error_term(dx, dy, i, j) == dx - dy - deviation(dx, dy, i, j),
        deviation(dx, dy, dx - i, dy - j) == -deviation(dx, dy, i, j),
{
    assert((i + 1) * dy == i * dy + dy) by (nonlinear_arith);
    assert((j + 1) * dx == j * dx + dx) by (nonlinear_arith);
    assert((dx - i) * dy - (dy - j) * dx == j * dx - i * dy) by (nonlinear_arith);
}

/// From within the band a step leads to within the band, and it is always a
/// step along the longer axis.
pub proof fn lemma_band_step(dx: int, dy: int, i: int, j: int)
    requires
        0 <= i <= dx,
        0 <= j <= dy,
        !(i == dx && j == dy),
        in_band(dx, dy, i, j),
    ensures
        in_band(dx, dy, after_step(dx, dy, i, j).0, after_step(dx, dy, i, j).1),
        dx >= dy ==> steps_x(dx, dy, i, j),
        dx < dy ==> steps_y(dx, dy, i, j),
{
    lemma_deviation(dx, dy, i, j);
    lemma_step(dx, dy, i, j);
    if dx == dy {
        assert(deviation(dx, dy, i, j) == 0) by (nonlinear_arith)
            requires
                dx == dy,
                i == j,
        ;
    }
}

/// The walk from within the band stays within the band, and takes one step
/// along the longer axis each time.
pub proof fn lemma_walk_band(dx: int, dy: int, i: int, j: int)
    requires
        0 <= i <= dx,
        0 <= j <= dy,
        in_band(dx, dy, i, j),
    ensures
        dx >= dy ==> walk(dx, dy, i, j).len() == dx - i + 1,
        dx < dy ==> walk(dx, dy, i, j).len() == dy - j + 1,
        forall|n: int|
            0 <= n < walk(dx, dy, i, j).len() ==> {
                let p = #[trigger] walk(dx, dy, i, j)[n];
                &&& covers(dx, dy, p.0, p.1)
                &&& dx >= dy ==> p.0 == i + n
                &&& dx < dy ==> p.1 == j + n
            },
    decreases dx - i + dy - j,
{
    if !(i == dx && j == dy) {
        lemma_step(dx, dy, i, j);
        lemma_band_step(dx, dy, i, j);
        let (ni, nj) = after_step(dx, dy, i, j);
        lemma_walk_band(dx, dy, ni, nj);
        let rest = walk(dx, dy, ni, nj);
        let whole = walk(dx, dy, i, j);
        assert(whole == seq![(i, j)] + rest);
        assert forall|n: int| 0 <= n < whole.len() implies {
            let p = #[trigger] whole[n];
            &&& covers(dx, dy, p.0, p.1)
            &&& dx >= dy ==> p.0 == i + n
            &&& dx < dy ==> p.1 == j + n
        } by {
            if n > 0 {
                assert(whole[n] == rest[n - 1]);
            }
        }
    }
}

/// Within the band there is one offset for each coordinate on the longer
/// axis.
pub proof fn lemma_band_unique(dx: int, dy: int, i: int, j: int, k: int, l: int)
    requires
        covers(dx, dy, i, j),
        covers(dx, dy, k, l),
        dx >= dy ==> i == k,
        dx < dy ==> j == l,
    ensures
        i == k,
        j == l,
{
    if dx > dy {
        assert(deviation(dx, dy, i, l) - deviation(dx, dy, i, j) == dx * (j - l))
            by (nonlinear_arith);
        assert(j - l == 0) by (nonlinear_arith)
            requires
                dx > 0,
                -2 * dx < 2 * (dx * (j - l)) < 2 * dx,
        ;
    } else if dx < dy {
        assert(deviation(dx, dy, i, j) - deviation(dx, dy, k, j) == dy * (i - k))
            by (nonlinear_arith);
        assert(i - k == 0) by (nonlinear_arith)
            requires
                dy > 0,
                -2 * dy < 2 * (dy * (i - k)) < 2 * dy,
        ;
    }
}

/// The walk from the first point visits the offsets that the closed form
/// names, and no others.
pub proof fn lemma_walk_covers(dx: int, dy: int, i: int, j: int)
    requires
        0 <= dx,
        0 <= dy,
    ensures
        walk(dx, dy, 0, 0).contains((i, j)) <==> covers(dx, dy, i, j),
{
    let steps = walk(dx, dy, 0, 0);
    assert(deviation(dx, dy, 0, 0) == 0) by (nonlinear_arith);
    lemma_walk(dx, dy, 0, 0);
    lemma_walk_band(dx, dy, 0, 0);
    if steps.contains((i, j)) {
        let n = choose|n: int| 0 <= n < steps.len() && steps[n] == (i, j);
        assert(covers(dx, dy, steps[n].0, steps[n].1));
    }
    if covers(dx, dy, i, j) {
        let n = if dx >= dy {
            i
        } else {
            j
        };
        let p = steps[n];
        assert(covers(dx, dy, p.0, p.1));
        lemma_band_unique(dx, dy, i, j, p.0, p.1);
        assert(steps[n] == (i, j));
    }
}

/// A line has one pixel more than the longer of its two sides has steps, and
/// draws no pixel twice.
pub proof fn lemma_line_length(p0: (int, int), p1: (int, int))
    ensures
        line_points(p0, p1).len() == (if span(p0.0, p1.0) >= span(p0.1, p1.1) {
            span(p0.0, p1.0)
        } else {
            span(p0.1, p1.1)
        }) + 1,
        line_points(p0, p1).no_duplicates(),
{
    let dx = span(p0.0, p1.0);
    let dy = span(p0.1, p1.1);
    let steps = walk(dx, dy, 0, 0);
    let points = line_points(p0, p1);
    assert(deviation(dx, dy, 0, 0) == 0) by (nonlinear_arith);
    lemma_walk(dx, dy, 0, 0);
    lemma_walk_band(dx, dy, 0, 0);
    assert forall|m: int, n: int| 0 <= m < points.len() && 0 <= n < points.len() && m != n implies points[m]
        != points[n] by {
        let a = steps[m];
        let b = steps[n];
        assert(covers(dx, dy, a.0, a.1));
        assert(covers(dx, dy, b.0, b.1));
        assert(points[m] == place(p0, p1, a));
        assert(points[n] == place(p0, p1, b));
    }
}

/// Whether `(x, y)` is a pixel of the line from `p0` to `p1`, in closed
/// form: it lies in the rectangle between the two, within half a step of
/// the ideal line.
pub open spec fn on_ideal_line(p0: (int, int), p1: (int, int), x: int, y: int) -> bool {
    &&& between(p0, p1, (x, y))
    &&& in_band(span(p0.0, p1.0), span(p0.1, p1.1), span(p0.0, x), span(p0.1, y))
}

/// The pixels that are drawn are those of the closed form.
pub proof fn lemma_on_line(p0: (int, int), p1: (int, int), x: int, y: int)
    ensures
        on_line(p0, p1, x, y) <==> on_ideal_line(p0, p1, x, y),
{
    let dx = span(p0.0, p1.0);
    let dy = span(p0.1, p1.1);
    let steps = walk(dx, dy, 0, 0);
    let points = line_points(p0, p1);
    lemma_walk(dx, dy, 0, 0);
    if on_line(p0, p1, x, y) {
        let n = choose|n: int| 0 <= n < points.len() && points[n] == (x, y);
        let offset = steps[n];
        assert(points[n] == place(p0, p1, offset));
        assert(steps.contains(offset));
        lemma_walk_covers(dx, dy, offset.0, offset.1);
        assert(span(p0.0, x) == offset.0);
        assert(span(p0.1, y) == offset.1);
    }
    if on_ideal_line(p0, p1, x, y) {
        let i = span(p0.0, x);
        let j = span(p0.1, y);
        lemma_walk_covers(dx, dy, i, j);
        let n = choose|n: int| 0 <= n < steps.len() && steps[n] == (i, j);
        assert(points[n] == place(p0, p1, (i, j)));
        assert(place(p0, p1, (i, j)) == (x, y));
    }
}

/// A line drawn from its last point to its first has the pixels of the line
/// drawn from the first to the last if, and only if, the ideal line nowhere
/// passes exactly half way between two pixels.
pub proof fn lemma_line_symmetry(p0: (int, int), p1: (int, int))
    ensures
        (forall|x: int, y: int| on_line(p0, p1, x, y) == on_line(p1, p0, x, y)) <==> !has_tie(
            span(p0.0, p1.0),
            span(p0.1, p1.1),
        ),
{
    let dx = span(p0.0, p1.0);
    let dy = span(p0.1, p1.1);
    let longer = if dx > dy {
        dx
    } else {
        dy
    };
    assert(span(p1.0, p0.0) == dx && span(p1.1, p0.1) == dy);
    if has_tie(dx, dy) {
        let (i, j) = choose|i: int, j: int|
            0 <= i <= dx && 0 <= j <= dy && 2 * #[trigger] deviation(dx, dy, i, j) == longer;
        // Of the tie and its mirror image, one belongs to the line drawn
        // from `p0` and not to the line drawn from `p1`.
        let (fi, fj) = if dx > dy {
            (i, j)
        } else {
            (dx - i, dy - j)
        };
        lemma_deviation(dx, dy, i, j);
        lemma_deviation(dx, dy, fi, fj);
        let (x, y) = place(p0, p1, (fi, fj));
        lemma_on_line(p0, p1, x, y);
        lemma_on_line(p1, p0, x, y);
        assert(between(p0, p1, (x, y)));
        assert(span(p0.0, x) == fi && span(p0.1, y) == fj);
        assert(span(p1.0, x) == dx - fi && span(p1.1, y) == dy - fj);
        assert(in_band(dx, dy, fi, fj));
        assert(!in_band(dx, dy, dx - fi, dy - fj));
        assert(on_line(p0, p1, x, y));
        assert(!on_line(p1, p0, x, y));
    } else {
        assert forall|x: int, y: int| on_line(p0, p1, x, y) == on_line(p1, p0, x, y) by {
            lemma_on_line(p0, p1, x, y);
            lemma_on_line(p1, p0, x, y);
            if between(p0, p1, (x, y)) {
                let i = span(p0.0, x);
                let j = span(p0.1, y);
                assert(span(p1.0, x) == dx - i && span(p1.1, y) == dy - j);
                lemma_deviation(dx, dy, i, j);
                // Neither the offset nor its mirror image is a tie.
                if dx != dy {
                    assert(2 * deviation(dx, dy, i, j) != longer);
                    assert(2 * deviation(dx, dy, dx - i, dy - j) != longer);
                }
            }
        }
    }
}

} // verus!
