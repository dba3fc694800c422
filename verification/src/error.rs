//! The ways in which an operation on the panel can fail.

use vstd::prelude::*;

verus! {

#[derive(Clone, Copy, Debug, PartialEq, Eq, Structural)]
pub enum DisplayError {
    /// The display is set to a protocol that the driver does not implement.
    NotSupported,
    /// A write on the serial bus failed.
    BusIo,
}

} // verus!
