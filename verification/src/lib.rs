//! Driver core for a 128x64 monochrome OLED panel with three push buttons
//! and a five-way joystick.
//!
//! The crate performs no input or output of its own. Drawing works on an
//! in-memory frame, and every operation that has to reach the panel is
//! returned as a sequence of [`hardware::Action`]s for the host program to
//! carry out on its pins and its serial bus.

pub mod band;
pub mod button;
pub mod display;
pub mod error;
pub mod frame;
pub mod gfx;
pub mod hardware;
pub mod joystick;
pub mod line;
pub mod protocol;
pub mod transfer;
