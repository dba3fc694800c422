//! The five-way joystick beside the panel.

use vstd::prelude::*;
use crate::hardware::Level;

verus! {

/// Pin of the joystick's upward contact, by its BCM number.
pub const KEY_UP_PIN: u8 = 6;

/// Pin of the downward contact.
pub const KEY_DOWN_PIN: u8 = 19;

/// Pin of the leftward contact.
pub const KEY_LEFT_PIN: u8 = 5;

/// Pin of the rightward contact.
pub const KEY_RIGHT_PIN: u8 = 26;

/// Pin of the contact that closes when the stick is pressed in.
pub const KEY_PRESS_PIN: u8 = 13;

/// What the joystick is doing.
#[derive(Clone, Copy, Debug, PartialEq, Eq, Structural)]
pub enum State {
    /// The stick is pushed up.
    Up,
    /// The stick is pulled down.
    Down,
    /// The stick is pushed left.
    Left,
    /// The stick is pushed right.
    Right,
    /// The stick is pressed in.
    Click,
}

/// The levels sampled on the five lines of the joystick.
#[derive(Clone, Copy, Debug, PartialEq, Eq, Structural)]
pub struct Contacts {
    pub up: Level,
    pub down: Level,
    pub left: Level,
    pub right: Level,
    pub click: Level,
}

/// The state that a reading of the five lines reports: the first line, in
/// the order up, down, left, right, click, that reads low.
pub open spec fn deflected(contacts: Contacts) -> Option<State> {
    if contacts.up == Level::Low {
        Some(State::Up)
    } else if contacts.down == Level::Low {
        Some(State::Down)
    } else if contacts.left == Level::Low {
        Some(State::Left)
    } else if contacts.right == Level::Low {
        Some(State::Right)
    } else if contacts.click == Level::Low {
        Some(State::Click)
    } else {
        None
    }
}

/// The levels last sampled on the lines of the joystick.
#[derive(Clone, Copy, Debug)]
pub struct Joystick {
    up_pin: Level,
    down_pin: Level,
    left_pin: Level,
    right_pin: Level,
    click_pin: Level,
}

impl View for Joystick {
    type V = Contacts;

    closed spec fn view(&self) -> Contacts {
        Contacts {
            up: self.up_pin,
            down: self.down_pin,
            left: self.left_pin,
            right: self.right_pin,
            click: self.click_pin,
        }
    }
}

impl Joystick {
    /// A joystick that holds the given levels of its five lines.
    pub fn new(contacts: Contacts) -> (joystick: Joystick)
        ensures
            joystick@ == contacts,
    {
        Joystick {
            up_pin: contacts.up,
            down_pin: contacts.down,
            left_pin: contacts.left,
            right_pin: contacts.right,
            click_pin: contacts.click,
        }
    }

    /// What the joystick is doing, or `None` when it is at rest. Where
    /// several contacts are closed, the first of them counts.
    pub fn read(&self) -> (state: Option<State>)
        ensures
            state == deflected(self@),
    {
        if self.up_pin == Level::Low {
            return Some(State::Up);
        }
        if self.down_pin == Level::Low {
            return Some(State::Down);
        }
        if self.left_pin == Level::Low {
            return Some(State::Left);
        }
        if self.right_pin == Level::Low {
            return Some(State::Right);
        }
        if self.click_pin == Level::Low {
            return Some(State::Click);
        }
        None
    }
}

} // verus!
