//! Mapping of the linear 9-bit address space onto the device's four memory
//! quadrants, and the bounds checks that go with it.
use vstd::prelude::*;

use crate::error::Error;

verus! {

/// Read/write function bits of the device's bus address (`1010 A2 A1 A0`).
pub const RW_FUNC_BITS: u8 = 0b1010000;

/// Page address function bits: writing to this bus address selects the lower
/// memory half (quadrants 0 and 1); with bit 0 set, the upper half (2 and 3).
pub const PA_FUNC_BITS: u8 = 0b0110110;

/// Number of bytes of the device.
pub const MEMORY_SIZE: u32 = 512;

/// A linear address names a byte of the device.
pub open spec fn address_valid(address: int) -> bool {
    0 <= address < MEMORY_SIZE
}

/// The page select bus address of the half that holds `address`.
pub open spec fn page_select(address: int) -> u8 {
    if address < 256 {
        PA_FUNC_BITS
    } else {
        PA_FUNC_BITS | 1
    }
}

/// The byte offset of `address` within its half.
pub open spec fn offset_in_page(address: int) -> u8 {
    (address % 256) as u8
}

/// A sequential access of `size` bytes from `address` stays within the
/// quadrant of `address`: up to offset 0x7F in an even quadrant, up to 0xFF in
/// an odd one.
pub open spec fn window_fits(address: int, size: int) -> bool {
    let offset = address % 256;
    if offset < 128 {
        offset + size <= 0x7F
    } else {
        offset + size <= 0xFF
    }
}

/// Check if the address requested is in bounds.
/// The maximum address is 0x1FF = 511 for this 512 byte EEPROM.
pub fn addr_in_bounds<E>(address: u32) -> (r: Result<(), Error<E>>)
    ensures
        address_valid(address as int) ==> r is Ok,
        !address_valid(address as int) ==> r == Err::<(), Error<E>>(Error::InvalidAddr),
{
    let val = address >> 9;
    assert(val == 0 <==> address < 512) by (bit_vector)
        requires
            val == address >> 9,
    ;
    if val == 0 {
        Ok(())
    } else {
        Err(Error::InvalidAddr)
    }
}

/// Converts a linear address to the pair (page select bus address, offset
/// within the page).
///
/// Lower memory (page select `PA_FUNC_BITS`):
/// quadrant 0 holds bytes 0 - 127, quadrant 1 bytes 128 - 255.
/// Upper memory (page select `PA_FUNC_BITS | 1`):
/// quadrant 2 holds bytes 0 - 127, quadrant 3 bytes 128 - 255 of that page.
pub fn addr_convert<E>(address: u32) -> (r: Result<(u8, u8), Error<E>>)
    ensures
        address_valid(address as int) ==> r == Ok::<(u8, u8), Error<E>>(
            (page_select(address as int), offset_in_page(address as int)),
        ),
        !address_valid(address as int) ==> r == Err::<(u8, u8), Error<E>>(
            Error::InvalidAddrConvert,
        ),
{
    assert((address >> 7) == 0 <==> address < 128) by (bit_vector);
    assert((address >> 8) == 0 <==> address < 256) by (bit_vector);
    assert((address >> 9) == 0 <==> address < 512) by (bit_vector);
    assert(address & 0xFF == address % 256) by (bit_vector);
    // Quadrant 0
    if (address >> 7) == 0 {
        return Ok((PA_FUNC_BITS, address as u8));
    }
    // Quadrant 1
    if (address >> 8) == 0 {
        return Ok((PA_FUNC_BITS, address as u8));
    }
    // Quadrants 2 and 3: mask off the top bit
    let new_addr = address & 0xFF;
    if (address >> 9) == 0 {
        return Ok((PA_FUNC_BITS | 1, new_addr as u8));
    }
    Err(Error::InvalidAddrConvert)
}

/// When doing multi byte reads and writes the access must stay within the
/// memory quadrant that it starts in.
pub fn addr_in_bounds_page_wr<E>(address: u32, data_size: u32) -> (r: Result<(), Error<E>>)
    ensures
        !address_valid(address as int) ==> r == Err::<(), Error<E>>(Error::InvalidAddrConvert),
        address_valid(address as int) && window_fits(address as int, data_size as int) ==> r is Ok,
        address_valid(address as int) && !window_fits(address as int, data_size as int) ==> r
            == Err::<(), Error<E>>(Error::PageWindowOverflow),
{
    let (_page_addr, mem_addr) = match addr_convert::<E>(address) {
        Ok(pair) => pair,
        Err(e) => return Err(e),
    };
    let end: u64 = mem_addr as u64 + data_size as u64;
    // Quadrant 0 or 2: the offset can reach 0x7F at most
    if mem_addr < 0x80 {
        if end <= 0x7F {
            return Ok(());
        } else {
            return Err(Error::PageWindowOverflow);
        }
    }
    // Quadrant 1 or 3: the offset can reach 0xFF at most
    if end <= 0xFF {
        Ok(())
    } else {
        Err(Error::PageWindowOverflow)
    }
}

} // verus!
