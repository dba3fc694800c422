//! Drawing into the frame of a display.

use vstd::prelude::*;
use crate::display::Display;
use crate::error::DisplayError;
use crate::band::{lemma_on_line, on_ideal_line};
use crate::line::{
    after_step, error_term, lemma_last_pixel, lemma_next_pixel, lemma_plotted_none,
    lemma_plotted_push, lemma_stroke_cell, lemma_walk, line_points, place, plotted, span, stroke,
    walk,
};

verus! {

/// A pixel by its column and its row. The origin is the top left corner.
pub type Point = (isize, isize);

/// Sets every cell of the frame to `value`: `0x00` leaves no pixel lit,
/// `0xFF` lights them all.
pub fn fill(display: &mut Display, value: u8)
    ensures
        final(display)@ == old(display)@.filled(value),
        forall|k: int| 0 <= k < final(display)@.cells.len() ==> final(display)@.cells[k] == value,
        final(display).spec_protocol() == old(display).spec_protocol(),
{
    proof {
        use_type_invariant(&*display);
    }
    let cells: usize = display.memory.len();
    let mut done: usize = 0;
    while done < cells
        invariant
            done <= cells,
            cells == display.memory@.len(),
            display.inv(),
            display.width == old(display).width,
            display.height == old(display).height,
            display.protocol == old(display).protocol,
            display.memory@.len() == old(display).memory@.len(),
            forall|k: int| 0 <= k < done ==> display.memory@[k] == value,
        decreases cells - done,
    {
        display.memory[done] = value;
        done = done + 1;
    }
    assert(display@.cells =~= old(display)@.filled(value).cells);
}

/// Sets the cell of `point` to `color`. A point outside the frame, to any
/// side of it, is passed over in silence.
pub fn draw_point(display: &mut Display, point: Point, color: u8)
    ensures
        final(display)@ == old(display)@.plot(point.0 as int, point.1 as int, color),
        !old(display)@.contains(point.0 as int, point.1 as int) ==> final(display)@ == old(
            display,
        )@,
        final(display).spec_protocol() == old(display).spec_protocol(),
{
    proof {
        use_type_invariant(&*display);
    }
    let (x, y) = point;
    if 0 <= x && x < display.width as isize && 0 <= y && y < display.height as isize {
        proof {
            crate::frame::lemma_offset_in_range(display@, x as int, y as int);
            assert(y * display.width <= 255 * 255) by (nonlinear_arith)
                requires
                    0 <= y < 255,
                    0 <= display.width <= 255,
            ;
        }
        let offset: usize = x as usize + y as usize * display.width as usize;
        display.memory[offset] = color;
    }
}

/// The column and the row of `point`.
pub open spec fn at(point: Point) -> (int, int) {
    (point.0 as int, point.1 as int)
}

/// Draws the straight line from `p0` to `p1`, both ends included, by setting
/// the cell of each of its pixels to `0xFF`. Where either end lies outside
/// the frame the whole line is left out.
pub fn draw_line(display: &mut Display, p0: Point, p1: Point)
    ensures
        final(display)@ == stroke(old(display)@, at(p0), at(p1)),
        !(old(display)@.contains(p0.0 as int, p0.1 as int) && old(display)@.contains(
            p1.0 as int,
            p1.1 as int,
        )) ==> final(display)@ == old(display)@,
        old(display)@.contains(p0.0 as int, p0.1 as int) && old(display)@.contains(
            p1.0 as int,
            p1.1 as int,
        ) ==> forall|x: int, y: int|
            old(display)@.contains(x, y) ==> #[trigger] final(display)@.cell(x, y) == (
            if on_ideal_line(at(p0), at(p1), x, y) {
                0xFFu8
            } else {
                old(display)@.cell(x, y)
            }),
        final(display).spec_protocol() == old(display).spec_protocol(),
{
    proof {
        use_type_invariant(&*display);
    }
    let (x1, y1) = p0;
    let (x2, y2) = p1;
    let width: isize = display.width as isize;
    let height: isize = display.height as isize;
    if !(0 <= x1 && x1 < width && 0 <= y1 && y1 < height) {
        return ;
    }
    if !(0 <= x2 && x2 < width && 0 <= y2 && y2 < height) {
        return ;
    }
    let dx: isize = if x2 > x1 {
        x2 - x1
    } else {
        x1 - x2
    };
    let dy: isize = if y2 > y1 {
        y2 - y1
    } else {
        y1 - y2
    };

    let mut x: isize = x1;
    let mut y: isize = y1;

    let x_inc: isize = if x2 > x1 {
        1
    } else {
        -1
    };
    let y_inc: isize = if y2 > y1 {
        1
    } else {
        -1
    };

    let mut error: isize = dx - dy;

    let ghost a = at(p0);
    let ghost b = at(p1);
    let ghost mut i: int = 0;
    let ghost mut j: int = 0;
    let ghost mut drawn: int = 0;
    proof {
        lemma_walk(dx as int, dy as int, 0, 0);
        lemma_plotted_none(display@);
        assert(line_points(a, b).take(0) =~= Seq::empty());
        assert(walk(dx as int, dy as int, 0, 0).skip(0) =~= walk(dx as int, dy as int, 0, 0));
    }
    while x != x2 || y != y2
        invariant
            display.inv(),
            display.protocol == old(display).protocol,
            old(display)@.wf(),
            old(display)@.contains(a.0, a.1),
            old(display)@.contains(b.0, b.1),
            a == (x1 as int, y1 as int),
            b == (x2 as int, y2 as int),
            dx == span(a.0, b.0),
            dy == span(a.1, b.1),
            dx <= 255,
            dy <= 255,
            x_inc == (if x2 > x1 { 1int } else { -1int }),
            y_inc == (if y2 > y1 { 1int } else { -1int }),
            0 <= i <= dx,
            0 <= j <= dy,
            (x as int, y as int) == place(a, b, (i, j)),
            error == error_term(dx as int, dy as int, i, j),
            0 <= drawn < line_points(a, b).len(),
            walk(dx as int, dy as int, 0, 0).skip(drawn) == walk(dx as int, dy as int, i, j),
            display@ == plotted(old(display)@, line_points(a, b).take(drawn)),
        decreases dx - i + dy - j,
    {
        let ghost next = after_step(dx as int, dy as int, i, j);
        proof {
            lemma_next_pixel(a, b, i, j, drawn);
            lemma_plotted_push(old(display)@, line_points(a, b).take(drawn), x as int, y as int);
            lemma_error_bound(dx as int, dy as int, i, j);
            lemma_error_bound(dx as int, dy as int, next.0, j);
        }
        draw_point(display, (x, y), 0xFF);

        let double_error: isize = error * 2;

        if double_error > -dy {
            error -= dy;
            x += x_inc;
        }
        if double_error < dx {
            error += dx;
            y += y_inc;
        }
        proof {
            use_type_invariant(&*display);
            i = next.0;
            j = next.1;
            drawn = drawn + 1;
        }
    }

    proof {
        lemma_last_pixel(a, b, drawn);
        lemma_plotted_push(old(display)@, line_points(a, b).take(drawn), x2 as int, y2 as int);
    }
    draw_point(display, (x2, y2), 0xFF);
    proof {
        assert forall|x: int, y: int| old(display)@.contains(x, y) implies #[trigger] display@.cell(
            x,
            y,
        ) == (if on_ideal_line(a, b, x, y) {
            0xFFu8
        } else {
            old(display)@.cell(x, y)
        }) by {
            lemma_stroke_cell(old(display)@, a, b, x, y);
            lemma_on_line(a, b, x, y);
        }
    }
}

/// The error term stays small enough to be doubled in machine arithmetic.
proof fn lemma_error_bound(dx: int, dy: int, i: int, j: int)
    requires
        0 <= i <= dx <= 255,
        0 <= j <= dy <= 255,
    ensures
        -65280 <= error_term(dx, dy, i, j) <= 65280,
{
    assert(0 <= i * dy <= 255 * 255) by (nonlinear_arith)
        requires
            0 <= i <= 255,
            0 <= dy <= 255,
    ;
    assert(0 <= j * dx <= 255 * 255) by (nonlinear_arith)
        requires
            0 <= j <= 255,
            0 <= dx <= 255,
    ;
}

/// Sets every cell of the frame to zero.
pub fn clear(display: &mut Display) -> (result: Result<(), DisplayError>)
    ensures
        result is Ok,
        final(display)@ == old(display)@.cleared(),
        final(display).spec_protocol() == old(display).spec_protocol(),
{
    fill(display, 0x00);
    Ok(())
}

} // verus!
