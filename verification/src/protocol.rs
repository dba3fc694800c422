//! The panel's wire protocol as mathematics: which operations, in which
//! order, make up a command, a reset, the power-on sequence and the transfer
//! of an image.

use vstd::prelude::*;
use crate::hardware::{Level, Line, Op};

verus! {

/// Pause after each edge of the reset pulse and before the panel is switched
/// on, in milliseconds.
pub const RESET_PAUSE_MS: u64 = 100;

/// Pause between addressing a page and sending its data, in milliseconds.
pub const PAGE_PAUSE_MS: u64 = 10;

/// Number of pages, bands of eight pixel rows, that the panel is made of.
pub const PAGES: u8 = 8;

/// Selects page 0; the page number is added to it.
pub const PAGE_SELECT: u8 = 0xB0;

/// Sets the low nibble of the column address to 2.
pub const COLUMN_LOW: u8 = 0x02;

/// Sets the high nibble of the column address to 0.
pub const COLUMN_HIGH: u8 = 0x10;

/// Switches the panel on.
pub const DISPLAY_ON: u8 = 0xAF;

/// The commands that configure the panel while it is still switched off.
pub open spec fn setup_commands() -> Seq<u8> {
    seq![
        0xAEu8,  // panel off
        0x02,  // column address, low nibble
        0x10,  // column address, high nibble
        0x40,  // start line 0
        0x81,  // contrast control
        0xA0,  // segment remap
        0xC0,  // COM scan direction
        0xA6,  // normal, not inverted, display
        0xA8,  // multiplex ratio ...
        0x3F,  // ... 1/64 duty
        0xD3,  // display offset ...
        0x00,  // ... none
        0xD5,  // clock divide ratio and oscillator frequency ...
        0x80,  // ... the default
        0xD9,  // pre-charge period ...
        0xF1,  // ... 15 clocks, discharge 1 clock
        0xDA,  // COM pins hardware configuration ...
        0x12,  // ... alternative, no remap
        0xDB,  // VCOM deselect level ...
        0x40,  // ... 0x40
        0x20,  // addressing mode ...
        0x02,  // ... by page
        0xA4,  // show what is in display memory
        0xA6,  // normal, not inverted, display
    ]
}

/// `bytes` sent as a command: the data/command line goes low, then one write.
pub open spec fn command_ops(bytes: Seq<u8>) -> Seq<Op> {
    seq![Op::Drive(Line::DataCommand, Level::Low), Op::Write(bytes)]
}

/// `bytes` sent as pixel data: the data/command line goes high, then one
/// write.
pub open spec fn data_ops(bytes: Seq<u8>) -> Seq<Op> {
    seq![Op::Drive(Line::DataCommand, Level::High), Op::Write(bytes)]
}

/// Each byte of `commands` sent as a command of its own.
pub open spec fn each_command_ops(commands: Seq<u8>) -> Seq<Op> {
    Seq::new(
        2 * commands.len(),
        |k: int|
            if k % 2 == 0 {
                Op::Drive(Line::DataCommand, Level::Low)
            } else {
                Op::Write(seq![commands[k / 2]])
            },
    )
}

/// One more command adds its two operations at the end.
pub proof fn lemma_each_command_push(commands: Seq<u8>, command: u8)
    ensures
        each_command_ops(commands.push(command)) == each_command_ops(commands) + command_ops(
            seq![command],
        ),
{
    let longer = each_command_ops(commands.push(command));
    let joined = each_command_ops(commands) + command_ops(seq![command]);
    assert(longer.len() == joined.len());
    assert forall|k: int| 0 <= k < longer.len() implies longer[k] == joined[k] by {
        if k < 2 * commands.len() {
            assert(commands.push(command)[k / 2] == commands[k / 2]);
        } else {
            assert(commands.push(command)[k / 2] == command);
        }
    }
    assert(longer =~= joined);
}

/// The reset pulse: high, low, high, with a pause after each edge.
pub open spec fn reset_ops() -> Seq<Op> {
    seq![
        Op::Drive(Line::Reset, Level::High),
        Op::Sleep(RESET_PAUSE_MS),
        Op::Drive(Line::Reset, Level::Low),
        Op::Sleep(RESET_PAUSE_MS),
        Op::Drive(Line::Reset, Level::High),
        Op::Sleep(RESET_PAUSE_MS),
    ]
}

/// Levels of the chip-select, backlight and data/command lines once the
/// lines have been claimed.
pub open spec fn startup_ops() -> Seq<Op> {
    seq![
        Op::Drive(Line::ChipSelect, Level::Low),
        Op::Drive(Line::Backlight, Level::High),
        Op::Drive(Line::DataCommand, Level::Low),
    ]
}

/// One page of an image: the page is selected, the column address is set to
/// the panel's first visible column, and after a pause the bytes of `data`
/// go out as pixel data, each in a write of its own.
pub open spec fn page_ops(page: int, data: Seq<u8>) -> Seq<Op> {
    each_command_ops(seq![(PAGE_SELECT + page) as u8, COLUMN_LOW, COLUMN_HIGH]) + seq![
        Op::Sleep(PAGE_PAUSE_MS),
        Op::Drive(Line::DataCommand, Level::High),
    ] + Seq::new(data.len(), |k: int| Op::Write(seq![data[k]]))
}

/// The first `pages` pages of `image`, which holds `width` bytes for each
/// page.
pub open spec fn pages_ops(width: int, image: Seq<u8>, pages: nat) -> Seq<Op>
    decreases pages,
{
    if pages == 0 {
        Seq::empty()
    } else {
        pages_ops(width, image, (pages - 1) as nat) + page_ops(
            pages - 1,
            image.subrange((pages - 1) * width, pages * width),
        )
    }
}

/// All of `image` shown on the panel.
pub open spec fn image_ops(width: int, image: Seq<u8>) -> Seq<Op> {
    pages_ops(width, image, PAGES as nat)
}

/// Bringing the panel up: reset, the setup commands, a pause, panel on.
pub open spec fn initialize_ops() -> Seq<Op> {
    reset_ops() + each_command_ops(setup_commands()) + seq![Op::Sleep(RESET_PAUSE_MS)] + command_ops(
        seq![DISPLAY_ON],
    )
}

} // verus!
