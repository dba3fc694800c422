//! What the driver asks of the host's hardware: lines to drive, pauses to
//! observe and bytes to put on the serial bus.

use vstd::prelude::*;

verus! {

/// Logic level of a digital line.
#[derive(Clone, Copy, Debug, PartialEq, Eq, Structural)]
pub enum Level {
    Low,
    High,
}

/// The output lines that run from the host to the panel.
#[derive(Clone, Copy, Debug, PartialEq, Eq, Structural)]
pub enum Line {
    /// Panel reset, active low.
    Reset,
    /// Low while a command is on the bus, high while pixel data is.
    DataCommand,
    ChipSelect,
    Backlight,
}

/// Pin of the reset line, by its BCM number.
pub const RST_PIN: u8 = 25;

/// Pin of the data/command line.
pub const DC_PIN: u8 = 24;

/// Pin of the chip-select line.
pub const CS_PIN: u8 = 8;

/// Pin of the backlight line.
pub const BL_PIN: u8 = 18;

impl Line {
    pub open spec fn spec_pin(self) -> u8 {
        match self {
            Line::Reset => RST_PIN,
            Line::DataCommand => DC_PIN,
            Line::ChipSelect => CS_PIN,
            Line::Backlight => BL_PIN,
        }
    }

    /// The pin that the line is wired to.
    #[verifier::when_used_as_spec(spec_pin)]
    pub fn pin(self) -> (pin: u8)
        ensures
            pin == self.spec_pin(),
    {
        match self {
            Line::Reset => RST_PIN,
            Line::DataCommand => DC_PIN,
            Line::ChipSelect => CS_PIN,
            Line::Backlight => BL_PIN,
        }
    }
}

/// One step for the host to carry out.
#[derive(Debug, PartialEq, Eq)]
pub enum Action {
    /// Drive the line to the level.
    Drive(Line, Level),
    /// Block the calling thread for at least so many milliseconds.
    Sleep(u64),
    /// Send the bytes, in order, in one write on the serial bus.
    Write(Vec<u8>),
}

/// An [`Action`] as a mathematical value.
pub enum Op {
    Drive(Line, Level),
    Sleep(u64),
    Write(Seq<u8>),
}

impl View for Action {
    type V = Op;

    open spec fn view(&self) -> Op {
        match *self {
            Action::Drive(line, level) => Op::Drive(line, level),
            Action::Sleep(millis) => Op::Sleep(millis),
            Action::Write(bytes) => Op::Write(bytes@),
        }
    }
}

/// The operations that a list of actions stands for.
pub open spec fn ops(actions: Seq<Action>) -> Seq<Op> {
    Seq::new(actions.len(), |i: int| actions[i]@)
}

/// The operations of two lists, one after the other, are those of the first
/// followed by those of the second.
pub proof fn lemma_ops_concat(first: Seq<Action>, second: Seq<Action>)
    ensures
        ops(first + second) == ops(first) + ops(second),
{
    assert(ops(first + second) =~= ops(first) + ops(second));
}

/// One more action adds its operation at the end.
pub proof fn lemma_ops_push(actions: Seq<Action>, action: Action)
    ensures
        ops(actions.push(action)) == ops(actions).push(action@),
{
    assert(ops(actions.push(action)) =~= ops(actions).push(action@));
}

} // verus!
