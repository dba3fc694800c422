//! The frame as a mathematical value: a grid of cells, one byte for each
//! pixel, stored row by row.

use vstd::prelude::*;

verus! {

pub struct Frame {
    pub width: nat,
    pub height: nat,
    /// The cell of pixel `(x, y)` is `cells[x + y * width]`. A pixel is lit
    /// when its cell is not zero.
    pub cells: Seq<u8>,
}

impl Frame {
    pub open spec fn wf(self) -> bool {
        self.cells.len() == self.width * self.height
    }

    /// Whether `(x, y)` is a pixel of the frame.
    pub open spec fn contains(self, x: int, y: int) -> bool {
        0 <= x < self.width && 0 <= y < self.height
    }

    pub open spec fn offset(self, x: int, y: int) -> int {
        x + y * self.width
    }

    pub open spec fn cell(self, x: int, y: int) -> u8 {
        self.cells[self.offset(x, y)]
    }

    /// A pixel outside the frame is not lit.
    pub open spec fn lit(self, x: int, y: int) -> bool {
        self.contains(x, y) && self.cell(x, y) != 0
    }

    /// The rows `y`, `y + 1`, ... of column `x`, `rows` of them, read as
    /// binary digits: a lit pixel is a one, and the topmost row is the least
    /// significant digit.
    pub open spec fn column(self, x: int, y: int, rows: nat) -> nat
        decreases rows,
    {
        if rows == 0 {
            0
        } else {
            (if self.lit(x, y) {
                1nat
            } else {
                0nat
            }) + 2 * self.column(x, y + 1, (rows - 1) as nat)
        }
    }

    /// The byte that the panel takes for column `x` of page `page`: bit `b`
    /// of it says whether the pixel in row `8 * page + b` is lit.
    pub open spec fn page_byte(self, page: int, x: int) -> u8 {
        self.column(x, 8 * page, 8) as u8
    }

    /// The frame as the panel takes it: page after page, eight of them, and
    /// within a page one byte for each column.
    pub open spec fn packed(self) -> Seq<u8> {
        Seq::new(
            8 * self.width,
            |k: int| self.page_byte(k / (self.width as int), k % (self.width as int)),
        )
    }

    /// The frame of the given size with every cell zero.
    pub open spec fn blank(width: nat, height: nat) -> Frame {
        Frame { width, height, cells: Seq::new(width * height, |i: int| 0u8) }
    }

    /// The frame with every cell set to `value`.
    pub open spec fn filled(self, value: u8) -> Frame {
        Frame { cells: Seq::new(self.cells.len(), |i: int| value), ..self }
    }

    /// The frame with every cell zero.
    pub open spec fn cleared(self) -> Frame {
        self.filled(0)
    }

    /// The frame with the cell of `(x, y)` set to `color`; the frame itself
    /// where `(x, y)` is not one of its pixels.
    pub open spec fn plot(self, x: int, y: int, color: u8) -> Frame {
        if self.contains(x, y) {
            Frame { cells: self.cells.update(self.offset(x, y), color), ..self }
        } else {
            self
        }
    }
}

/// Clearing a frame that has been cleared changes nothing more.
pub proof fn lemma_clear_idempotent(frame: Frame)
    ensures
        frame.cleared().cleared() == frame.cleared(),
{
    assert(frame.cleared().cleared().cells =~= frame.cleared().cells);
}

/// A filled frame holds the value in every cell, whatever it held before,
/// and as many cells as before.
pub proof fn lemma_filled(frame: Frame, value: u8)
    ensures
        frame.filled(value).cells.len() == frame.cells.len(),
        forall|k: int| 0 <= k < frame.cells.len() ==> frame.filled(value).cells[k] == value,
        frame.wf() ==> frame.filled(value).wf(),
        frame.wf() ==> forall|x: int, y: int|
            frame.contains(x, y) ==> #[trigger] frame.filled(value).cell(x, y) == value,
{
    if frame.wf() {
        assert forall|x: int, y: int| frame.contains(x, y) implies #[trigger] frame.filled(
            value,
        ).cell(x, y) == value by {
            lemma_offset_in_range(frame, x, y);
        }
    }
}

/// A pixel as a binary digit.
pub open spec fn digit(lit: bool) -> int {
    if lit {
        1
    } else {
        0
    }
}

/// The byte of a column holds the eight pixels of the column as its bits,
/// the top row of the page in the lowest.
pub proof fn lemma_page_byte_bits(frame: Frame, page: int, x: int)
    ensures
        frame.page_byte(page, x) == digit(frame.lit(x, 8 * page)) + 2 * digit(
            frame.lit(x, 8 * page + 1),
        ) + 4 * digit(frame.lit(x, 8 * page + 2)) + 8 * digit(frame.lit(x, 8 * page + 3)) + 16
            * digit(frame.lit(x, 8 * page + 4)) + 32 * digit(frame.lit(x, 8 * page + 5)) + 64
            * digit(frame.lit(x, 8 * page + 6)) + 128 * digit(frame.lit(x, 8 * page + 7)),
{
    reveal_with_fuel(Frame::column, 9);
}

/// In a frame of at least eight pages that is filled with anything but zero
/// every column of every page is the byte `0xFF`, and in a cleared frame
/// zero.
pub proof fn lemma_page_byte_filled(frame: Frame, value: u8, page: int, x: int)
    requires
        frame.wf(),
        0 <= page < 8,
        0 <= x < frame.width,
    ensures
        value != 0 && frame.height >= 64 ==> frame.filled(value).page_byte(page, x) == 0xFF,
        frame.filled(0).page_byte(page, x) == 0,
{
    lemma_filled(frame, value);
    lemma_filled(frame, 0);
    lemma_page_byte_bits(frame.filled(value), page, x);
    lemma_page_byte_bits(frame.filled(0), page, x);
    if value != 0 && frame.height >= 64 {
        assert(frame.filled(value).lit(x, 8 * page));
        assert(frame.filled(value).lit(x, 8 * page + 1));
        assert(frame.filled(value).lit(x, 8 * page + 2));
        assert(frame.filled(value).lit(x, 8 * page + 3));
        assert(frame.filled(value).lit(x, 8 * page + 4));
        assert(frame.filled(value).lit(x, 8 * page + 5));
        assert(frame.filled(value).lit(x, 8 * page + 6));
        assert(frame.filled(value).lit(x, 8 * page + 7));
    }
    assert forall|y: int| !#[trigger] frame.filled(0).lit(x, y) by {
        if frame.contains(x, y) {
            assert(frame.filled(0).cell(x, y) == 0);
        }
    }
}

/// A frame of at least eight pages that is filled with anything but zero
/// goes to the panel as `0xFF` throughout, and a cleared frame as zero
/// throughout.
pub proof fn lemma_packed_filled(frame: Frame, value: u8)
    requires
        frame.wf(),
    ensures
        value != 0 && frame.height >= 64 ==> frame.filled(value).packed() == Seq::new(
            8 * frame.width,
            |k: int| 0xFFu8,
        ),
        frame.filled(0).packed() == Seq::new(8 * frame.width, |k: int| 0x00u8),
{
    let w = frame.width as int;
    let lit = frame.filled(value).packed();
    let dark = frame.filled(0).packed();
    assert forall|k: int|
        0 <= k < 8 * w && value != 0 && frame.height >= 64 implies #[trigger] lit[k] == 0xFF by {
        lemma_packed_index(frame, k);
        lemma_page_byte_filled(frame, value, k / w, k % w);
    }
    assert forall|k: int| 0 <= k < 8 * w implies #[trigger] dark[k] == 0 by {
        lemma_packed_index(frame, k);
        lemma_page_byte_filled(frame, value, k / w, k % w);
    }
    if value != 0 && frame.height >= 64 {
        assert(lit =~= Seq::new(8 * frame.width, |k: int| 0xFFu8));
    }
    assert(dark =~= Seq::new(8 * frame.width, |k: int| 0x00u8));
}

/// The byte at `k` of what goes to the panel belongs to one of the eight
/// pages and to one column of the frame.
pub proof fn lemma_packed_index(frame: Frame, k: int)
    requires
        0 <= k < 8 * frame.width,
    ensures
        0 <= k / (frame.width as int) < 8,
        0 <= k % (frame.width as int) < frame.width,
{
    let w = frame.width as int;
    vstd::arithmetic::div_mod::lemma_fundamental_div_mod(k, w);
    vstd::arithmetic::div_mod::lemma_div_pos_is_pos(k, w);
    assert(k / w < 8) by (nonlinear_arith)
        requires
            k == w * (k / w) + k % w,
            0 <= k % w,
            k < 8 * w,
            w > 0,
    ;
}

/// So many rows make a number of so many binary digits.
pub proof fn lemma_column_bound(frame: Frame, x: int, y: int, rows: nat)
    ensures
        frame.column(x, y, rows) < vstd::arithmetic::power2::pow2(rows),
    decreases rows,
{
    vstd::arithmetic::power2::lemma_pow2(rows);
    vstd::arithmetic::power::lemma_pow0(2);
    if rows > 0 {
        lemma_column_bound(frame, x, y + 1, (rows - 1) as nat);
        vstd::arithmetic::power2::lemma_pow2_unfold(rows);
    }
}

/// The cell of every pixel has an index of its own within the cells.
pub proof fn lemma_offset_in_range(frame: Frame, x: int, y: int)
    requires
        frame.wf(),
        frame.contains(x, y),
    ensures
        0 <= frame.offset(x, y) < frame.cells.len(),
        frame.offset(x, y) % (frame.width as int) == x,
        frame.offset(x, y) / (frame.width as int) == y,
{
    let w = frame.width as int;
    let h = frame.height as int;
    assert(0 <= y * w <= (h - 1) * w) by (nonlinear_arith)
        requires
            0 <= y <= h - 1,
            0 <= w,
    ;
    assert((h - 1) * w == h * w - w) by (nonlinear_arith);
    vstd::arithmetic::div_mod::lemma_fundamental_div_mod_converse(x + y * w, w, y, x);
}

} // verus!
