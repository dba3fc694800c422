//! The display controller: the frame that the drawing functions work on, and
//! the sequences of hardware actions that bring the panel up and show the
//! frame on it.

use vstd::prelude::*;
use crate::error::DisplayError;
use crate::frame::Frame;
use crate::hardware::{lemma_ops_concat, lemma_ops_push, ops, Action, Level, Line, Op};
use crate::protocol::{
    command_ops, data_ops, each_command_ops, image_ops, initialize_ops, lemma_each_command_push,
    page_ops, pages_ops, reset_ops, setup_commands, startup_ops, COLUMN_HIGH, COLUMN_LOW,
    DISPLAY_ON, PAGES, PAGE_PAUSE_MS, PAGE_SELECT, RESET_PAUSE_MS,
};

verus! {

/// Width of the panel in pixels.
pub const WIDTH: u8 = 128;

/// Height of the panel in pixels.
pub const HEIGHT: u8 = 64;

/// Clock of the serial bus in hertz.
pub const BUS_CLOCK_SPEED: u32 = 8_000_000;

/// Protocol by which the panel is reached. Only SPI is implemented.
#[derive(Clone, Copy, Debug, PartialEq, Eq, Structural)]
pub enum Protocol {
    SPI,
    I2C,
}

#[derive(Debug)]
pub struct Display {
    pub(crate) width: u8,
    pub(crate) height: u8,
    pub(crate) protocol: Protocol,
    pub(crate) memory: Vec<u8>,
}

impl View for Display {
    type V = Frame;

    open(crate) spec fn view(&self) -> Frame {
        Frame { width: self.width as nat, height: self.height as nat, cells: self.memory@ }
    }
}

/// What a function that plans operations on the panel returns: `expected`
/// over SPI, and an error over the protocol that is not implemented.
pub open spec fn planned(
    protocol: Protocol,
    expected: Seq<Op>,
    result: Result<Vec<Action>, DisplayError>,
) -> bool {
    match protocol {
        Protocol::SPI => result matches Ok(actions) && ops(actions@) == expected,
        Protocol::I2C => result matches Err(error) && error == DisplayError::NotSupported,
    }
}

impl Display {
    #[verifier::type_invariant]
    pub(crate) open spec fn inv(self) -> bool {
        self@.wf()
    }

    pub open(crate) spec fn spec_protocol(&self) -> Protocol {
        self.protocol
    }

    /// Number of pixels in a row.
    pub fn width(&self) -> (width: u8)
        ensures
            width == self@.width,
    {
        self.width
    }

    /// Number of rows.
    pub fn height(&self) -> (height: u8)
        ensures
            height == self@.height,
    {
        self.height
    }

    #[verifier::when_used_as_spec(spec_protocol)]
    pub fn protocol(&self) -> (protocol: Protocol)
        ensures
            protocol == self.spec_protocol(),
    {
        self.protocol
    }

    /// The cells of the frame, row by row.
    pub fn memory(&self) -> (cells: &Vec<u8>)
        ensures
            cells@ == self@.cells,
            cells@.len() == self@.width * self@.height,
    {
        proof {
            use_type_invariant(self);
        }
        &self.memory
    }

    /// A display of the panel's own size, reached over SPI, with a blank
    /// frame.
    pub fn new() -> (display: Display)
        ensures
            display@ == Frame::blank(WIDTH as nat, HEIGHT as nat),
            display.spec_protocol() == Protocol::SPI,
    {
        Display::with_geometry(WIDTH, HEIGHT, Protocol::SPI)
    }

    /// A display of the given size and protocol with a blank frame.
    pub fn with_geometry(width: u8, height: u8, protocol: Protocol) -> (display: Display)
        ensures
            display@ == Frame::blank(width as nat, height as nat),
            display.spec_protocol() == protocol,
    {
        assert(width * height <= 255 * 255) by (nonlinear_arith)
            requires
                width <= 255,
                height <= 255,
        ;
        let cells: usize = width as usize * height as usize;
        let memory: Vec<u8> = vec![0u8; cells];
        assert(memory@ =~= Seq::new(width as nat * height as nat, |i: int| 0u8));
        Display { width, height, protocol, memory }
    }

    /// The levels to drive once the lines have been claimed: chip select
    /// low, backlight on, data/command low.
    pub fn startup(&self) -> (plan: Vec<Action>)
        ensures
            ops(plan@) == startup_ops(),
    {
        let mut plan: Vec<Action> = Vec::new();
        plan.push(Action::Drive(Line::ChipSelect, Level::Low));
        plan.push(Action::Drive(Line::Backlight, Level::High));
        plan.push(Action::Drive(Line::DataCommand, Level::Low));
        assert(ops(plan@) =~= startup_ops());
        plan
    }

    /// One write of `bytes` on the SPI bus, whatever the data/command line
    /// says. Prefer [`Display::write_command`] and [`Display::write_data`].
    pub fn spi_write_byte(&self, bytes: &[u8]) -> (plan: Vec<Action>)
        ensures
            ops(plan@) == seq![Op::Write(bytes@)],
    {
        let mut plan: Vec<Action> = Vec::new();
        plan.push(Action::Write(vstd::slice::slice_to_vec(bytes)));
        assert(ops(plan@) =~= seq![Op::Write(bytes@)]);
        plan
    }

    /// A write over I2C, which is not implemented.
    pub fn i2c_write_byte(&self, bytes: &[u8]) -> (plan: Result<Vec<Action>, DisplayError>)
        ensures
            plan matches Err(error) && error == DisplayError::NotSupported,
    {
        Err(DisplayError::NotSupported)
    }

    /// Sends `bytes` as a command.
    pub fn write_command(&self, bytes: &[u8]) -> (plan: Result<Vec<Action>, DisplayError>)
        ensures
            planned(self.spec_protocol(), command_ops(bytes@), plan),
    {
        match self.protocol {
            Protocol::SPI => {
                let mut plan: Vec<Action> = Vec::new();
                plan.push(Action::Drive(Line::DataCommand, Level::Low));
                let mut write = self.spi_write_byte(bytes);
                proof {
                    lemma_ops_concat(plan@, write@);
                }
                plan.append(&mut write);
                assert(ops(plan@) =~= command_ops(bytes@));
                Ok(plan)
            },
            Protocol::I2C => self.i2c_write_byte(bytes),
        }
    }

    /// Sends `bytes` as pixel data.
    pub fn write_data(&self, bytes: &[u8]) -> (plan: Result<Vec<Action>, DisplayError>)
        ensures
            planned(self.spec_protocol(), data_ops(bytes@), plan),
    {
        match self.protocol {
            Protocol::SPI => {
                let mut plan: Vec<Action> = Vec::new();
                plan.push(Action::Drive(Line::DataCommand, Level::High));
                let mut write = self.spi_write_byte(bytes);
                proof {
                    lemma_ops_concat(plan@, write@);
                }
                plan.append(&mut write);
                assert(ops(plan@) =~= data_ops(bytes@));
                Ok(plan)
            },
            Protocol::I2C => self.i2c_write_byte(bytes),
        }
    }

    /// Whether the pixel in column `x` and row `y` is lit.
    fn lit(&self, x: usize, y: usize) -> (lit: bool)
        requires
            x < self@.width,
        ensures
            lit == self@.lit(x as int, y as int),
    {
        proof {
            use_type_invariant(self);
            if y < self.height {
                crate::frame::lemma_offset_in_range(self@, x as int, y as int);
                assert(y * self.width <= 255 * 255) by (nonlinear_arith)
                    requires
                        0 <= y < 255,
                        0 <= self.width <= 255,
                ;
            }
        }
        y < self.height as usize && self.memory[x + y * self.width as usize] != 0
    }

    /// The byte that the panel takes for column `x` of page `page`.
    fn page_byte(&self, page: u8, x: u8) -> (byte: u8)
        requires
            page < PAGES,
            x < self@.width,
        ensures
            byte == self@.page_byte(page as int, x as int),
    {
        let top: usize = 8 * page as usize;
        let mut byte: u8 = 0;
        let mut row: usize = 8;
        while row > 0
            invariant
                row <= 8,
                top == 8 * page,
                page < PAGES,
                x < self@.width,
                byte == self@.column(x as int, top + row, (8 - row) as nat),
            decreases row,
        {
            proof {
                crate::frame::lemma_column_bound(self@, x as int, top + row, (8 - row) as nat);
                vstd::arithmetic::power2::lemma2_to64();
                if row < 8 {
                    vstd::arithmetic::power2::lemma_pow2_strictly_increases(
                        (8 - row) as nat,
                        8,
                    );
                }
            }
            row = row - 1;
            let digit: u8 = if self.lit(x as usize, top + row) {
                1
            } else {
                0
            };
            byte = digit + 2 * byte;
        }
        byte
    }

    /// The frame as the panel takes it: page after page, and within a page
    /// one byte for each column, whose bits are the eight pixels of that
    /// column from the top row of the page down.
    pub fn packed(&self) -> (image: Vec<u8>)
        ensures
            image@ == self@.packed(),
    {
        let mut image: Vec<u8> = Vec::new();
        let mut page: u8 = 0;
        while page < PAGES
            invariant
                page <= PAGES,
                image@.len() == page * self@.width,
                forall|k: int|
                    0 <= k < image@.len() ==> image@[k] == self@.page_byte(
                        k / (self@.width as int),
                        k % (self@.width as int),
                    ),
            decreases PAGES - page,
        {
            let mut x: u8 = 0;
            while x < self.width
                invariant
                    page < PAGES,
                    x <= self@.width,
                    image@.len() == page * self@.width + x,
                    forall|k: int|
                        0 <= k < image@.len() ==> image@[k] == self@.page_byte(
                            k / (self@.width as int),
                            k % (self@.width as int),
                        ),
                decreases self@.width - x,
            {
                let byte = self.page_byte(page, x);
                proof {
                    let w = self@.width as int;
                    vstd::arithmetic::div_mod::lemma_fundamental_div_mod_converse(
                        page * w + x,
                        w,
                        page as int,
                        x as int,
                    );
                }
                image.push(byte);
                x = x + 1;
            }
            assert((page + 1) * self@.width == page * self@.width + self@.width)
                by (nonlinear_arith);
            page = page + 1;
        }
        assert(image@ =~= self@.packed());
        image
    }

    /// Shows `buffer` on the panel. The buffer holds the image as the panel
    /// takes it, page after page and `width` bytes to a page; what it holds
    /// beyond eight pages is not sent.
    pub fn show_image(&self, buffer: &[u8]) -> (plan: Result<Vec<Action>, DisplayError>)
        requires
            buffer@.len() >= PAGES * self@.width,
        ensures
            planned(self.spec_protocol(), image_ops(self@.width as int, buffer@), plan),
    {
        let width: usize = self.width as usize;
        let mut plan: Vec<Action> = Vec::new();
        let mut page: u8 = 0;
        assert(ops(plan@) =~= pages_ops(width as int, buffer@, 0));
        while page < PAGES
            invariant
                page <= PAGES,
                width == self@.width,
                buffer@.len() >= PAGES * width,
                self.spec_protocol() == Protocol::SPI || page == 0,
                ops(plan@) == pages_ops(width as int, buffer@, page as nat),
            decreases PAGES - page,
        {
            let ghost before = ops(plan@);
            proof {
                assert(page * width + width == (page + 1) * width) by (nonlinear_arith);
                assert(0 <= page * width && (page + 1) * width <= PAGES * width)
                    by (nonlinear_arith)
                    requires
                        0 <= page,
                        page + 1 <= PAGES,
                        0 <= width,
                ;
            }
            let ghost data = buffer@.subrange(page * width, (page + 1) * width);
            let address: [u8; 3] = [PAGE_SELECT + page, COLUMN_LOW, COLUMN_HIGH];
            let mut sent: usize = 0;
            while sent < 3
                invariant
                    sent <= 3,
                    self.spec_protocol() == Protocol::SPI || (page == 0 && sent == 0),
                    ops(plan@) == before + each_command_ops(address@.take(sent as int)),
                decreases 3 - sent,
            {
                let command: [u8; 1] = [address[sent]];
                match self.write_command(command.as_slice()) {
                    Ok(mut actions) => {
                        proof {
                            lemma_ops_concat(plan@, actions@);
                            lemma_each_command_push(
                                address@.take(sent as int),
                                address[sent as int],
                            );
                            assert(address@.take(sent as int).push(address[sent as int])
                                =~= address@.take(sent + 1));
                            assert(command@ =~= seq![address[sent as int]]);
                        }
                        plan.append(&mut actions);
                    },
                    Err(error) => {
                        return Err(error);
                    },
                }
                sent = sent + 1;
            }
            proof {
                assert(address@.take(3) =~= seq![
                    (PAGE_SELECT + page) as u8,
                    COLUMN_LOW,
                    COLUMN_HIGH,
                ]);
                lemma_ops_push(plan@, Action::Sleep(PAGE_PAUSE_MS));
                lemma_ops_push(
                    plan@.push(Action::Sleep(PAGE_PAUSE_MS)),
                    Action::Drive(Line::DataCommand, Level::High),
                );
            }
            plan.push(Action::Sleep(PAGE_PAUSE_MS));
            plan.push(Action::Drive(Line::DataCommand, Level::High));
            let ghost addressed = ops(plan@);
            assert(width * page == page * width && page * width <= 8 * 255) by (nonlinear_arith)
                requires
                    0 <= page < 8,
                    0 <= width <= 255,
            ;
            let first: usize = width * page as usize;
            let mut index: usize = 0;
            while index < width
                invariant
                    index <= width,
                    page < PAGES,
                    width == self@.width,
                    page * width + width <= buffer@.len(),
                    data == buffer@.subrange(page * width, (page + 1) * width),
                    page * width + width == (page + 1) * width,
                    first == page * width,
                    first <= 8 * 255,
                    width <= 255,
                    ops(plan@) == addressed + Seq::new(
                        index as nat,
                        |k: int| Op::Write(seq![data[k]]),
                    ),
                decreases width - index,
            {
                let byte: [u8; 1] = [buffer[first + index]];
                let mut actions = self.spi_write_byte(byte.as_slice());
                proof {
                    lemma_ops_concat(plan@, actions@);
                    assert(byte@ =~= seq![data[index as int]]);
                    assert(Seq::new(index as nat, |k: int| Op::Write(seq![data[k]])) + seq![
                        Op::Write(seq![data[index as int]]),
                    ] =~= Seq::new((index + 1) as nat, |k: int| Op::Write(seq![data[k]])));
                }
                plan.append(&mut actions);
                index = index + 1;
            }
            assert(ops(plan@) =~= before + page_ops(page as int, data));
            page = page + 1;
        }
        Ok(plan)
    }

    /// Lights the whole panel: shows an image whose every byte is `0xFF`.
    pub fn clear(&self) -> (plan: Result<Vec<Action>, DisplayError>)
        ensures
            planned(
                self.spec_protocol(),
                image_ops(self@.width as int, Seq::new(8 * self@.width, |k: int| 0xFFu8)),
                plan,
            ),
    {
        assert(PAGES * self.width <= 8 * 255) by (nonlinear_arith)
            requires
                PAGES == 8,
                self.width <= 255,
        ;
        let image: Vec<u8> = vec![0xFFu8; PAGES as usize * self.width as usize];
        assert(image@ =~= Seq::new(8 * self@.width, |k: int| 0xFFu8));
        self.show_image(image.as_slice())
    }

    /// Shows the frame on the panel.
    pub fn render(&self) -> (plan: Result<Vec<Action>, DisplayError>)
        ensures
            planned(self.spec_protocol(), image_ops(self@.width as int, self@.packed()), plan),
    {
        let image = self.packed();
        self.show_image(image.as_slice())
    }

    /// Brings the panel up: pulses the reset line, configures the panel
    /// command by command, waits and switches the panel on.
    pub fn initialize(&self) -> (plan: Result<Vec<Action>, DisplayError>)
        ensures
            planned(self.spec_protocol(), initialize_ops(), plan),
    {
        let setup: [u8; 24] = [
            0xAE, 0x02, 0x10, 0x40, 0x81, 0xA0, 0xC0, 0xA6, 0xA8, 0x3F, 0xD3, 0x00,
            0xD5, 0x80, 0xD9, 0xF1, 0xDA, 0x12, 0xDB, 0x40, 0x20, 0x02, 0xA4, 0xA6,
        ];
        assert(setup@ =~= setup_commands());
        let mut plan = self.reset();
        let mut sent: usize = 0;
        while sent < 24
            invariant
                sent <= 24,
                setup@ == setup_commands(),
                ops(plan@) == reset_ops() + each_command_ops(setup@.take(sent as int)),
            decreases 24 - sent,
        {
            let command: [u8; 1] = [setup[sent]];
            match self.write_command(command.as_slice()) {
                Ok(mut actions) => {
                    proof {
                        lemma_ops_concat(plan@, actions@);
                        lemma_each_command_push(setup@.take(sent as int), setup[sent as int]);
                        assert(setup@.take(sent as int).push(setup[sent as int]) =~= setup@.take(
                            sent + 1,
                        ));
                        assert(command@ =~= seq![setup[sent as int]]);
                    }
                    plan.append(&mut actions);
                },
                Err(error) => {
                    return Err(error);
                },
            }
            sent = sent + 1;
        }
        assert(setup@.take(24) =~= setup@);
        proof {
            lemma_ops_push(plan@, Action::Sleep(RESET_PAUSE_MS));
        }
        plan.push(Action::Sleep(RESET_PAUSE_MS));
        let on: [u8; 1] = [DISPLAY_ON];
        match self.write_command(on.as_slice()) {
            Ok(mut actions) => {
                proof {
                    lemma_ops_concat(plan@, actions@);
                    assert(on@ =~= seq![DISPLAY_ON]);
                }
                plan.append(&mut actions);
                assert(ops(plan@) =~= initialize_ops());
                Ok(plan)
            },
            Err(error) => Err(error),
        }
    }

    /// Pulses the reset line.
    pub fn reset(&self) -> (plan: Vec<Action>)
        ensures
            ops(plan@) == reset_ops(),
    {
        let mut plan: Vec<Action> = Vec::new();
        plan.push(Action::Drive(Line::Reset, Level::High));
        plan.push(Action::Sleep(RESET_PAUSE_MS));
        plan.push(Action::Drive(Line::Reset, Level::Low));
        plan.push(Action::Sleep(RESET_PAUSE_MS));
        plan.push(Action::Drive(Line::Reset, Level::High));
        plan.push(Action::Sleep(RESET_PAUSE_MS));
        assert(ops(plan@) =~= reset_ops());
        plan
    }
}

} // verus!
