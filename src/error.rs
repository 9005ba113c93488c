use vstd::prelude::*;

verus! {

/// All possible errors in this crate
#[derive(Debug, PartialEq, Eq)]
pub enum Error<E> {
    /// I²C bus error, handed through unchanged from the bus
    I2C(E),
    /// More than sixteen bytes passed for an array write
    TooMuchData,
    /// Memory address is out of range (at least 512)
    InvalidAddr,
    /// The address could not be mapped onto a memory quadrant
    InvalidAddrConvert,
    /// An array write whose length is not 2, 4, 8 or 16
    InvalidDataArrayMultiple,
    /// A multi-byte access would run past the end of its memory quadrant half
    PageWindowOverflow,
}

} // verus!
