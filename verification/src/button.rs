//! The three push buttons beside the panel.

use vstd::prelude::*;
use crate::hardware::Level;

verus! {

/// Pin of the first button, by its BCM number.
pub const KEY1_PIN: u8 = 21;

/// Pin of the second button.
pub const KEY2_PIN: u8 = 20;

/// Pin of the third button.
pub const KEY3_PIN: u8 = 16;

/// The button that is held down.
#[derive(Clone, Copy, Debug, PartialEq, Eq, Structural)]
pub enum State {
    Key1,
    Key2,
    Key3,
}

/// The levels sampled on the lines of the three buttons.
#[derive(Clone, Copy, Debug, PartialEq, Eq, Structural)]
pub struct Keys {
    pub key1: Level,
    pub key2: Level,
    pub key3: Level,
}

/// The button that a reading of the three lines reports: the first line, in
/// the order of the buttons, that reads high.
pub open spec fn pressed(keys: Keys) -> Option<State> {
    if keys.key1 == Level::High {
        Some(State::Key1)
    } else if keys.key2 == Level::High {
        Some(State::Key2)
    } else if keys.key3 == Level::High {
        Some(State::Key3)
    } else {
        None
    }
}

/// The levels last sampled on the lines of the three buttons.
#[derive(Clone, Copy, Debug)]
pub struct ButtonController {
    pin1: Level,
    pin2: Level,
    pin3: Level,
}

impl View for ButtonController {
    type V = Keys;

    closed spec fn view(&self) -> Keys {
        Keys { key1: self.pin1, key2: self.pin2, key3: self.pin3 }
    }
}

impl ButtonController {
    /// A controller that holds the given levels of the three lines.
    pub fn new(keys: Keys) -> (controller: ButtonController)
        ensures
            controller@ == keys,
    {
        ButtonController { pin1: keys.key1, pin2: keys.key2, pin3: keys.key3 }
    }

    /// The button that is held down, if any. Where several are, the first of
    /// them counts.
    pub fn read(&self) -> (state: Option<State>)
        ensures
            state == pressed(self@),
    {
        if self.pin1 == Level::High {
            return Some(State::Key1);
        }
        if self.pin2 == Level::High {
            return Some(State::Key2);
        }
        if self.pin3 == Level::High {
            return Some(State::Key3);
        }
        None
    }
}

} // verus!
