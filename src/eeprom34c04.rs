//! The 34c04 driver: owns the bus, sequences the exchanges of each access, and
//! keeps the last addresses read and written.
use vstd::prelude::*;

use crate::address::{
    addr_convert, addr_in_bounds, addr_in_bounds_page_wr, address_valid, offset_in_page,
    page_select, window_fits, RW_FUNC_BITS,
};
use crate::bus::{
    lemma_ran_ok_start, lemma_ran_step, ran_plan, succeeded, BusOp, Exchange, I2cBus,
};
use crate::error::Error;

verus! {

/// Possible slave addresses: the setting of the pins A2 A1 A0.
#[derive(Debug, Clone, Copy)]
pub enum SlaveAddr {
    /// The levels of A2, A1 and A0, in that order
    A2A1A0(bool, bool, bool),
}

/// An instance of the 34c04 EEPROM on its bus.
///
/// `rw_func_bits` is `1010 A2 A1 A0`, the bus address of read and write
/// operations; `last_addr_w` and `last_addr_r` are the last addresses written
/// and read.
pub struct Eeprom34c04<I2C> {
    i2c: I2C,
    rw_func_bits: u8,
    last_addr_w: u32,
    last_addr_r: u32,
}

/// The bus address of read and write operations for the pin setting `address`.
pub open spec fn rw_address(address: SlaveAddr) -> u8 {
    match address {
        SlaveAddr::A2A1A0(a2, a1, a0) => (RW_FUNC_BITS + (if a2 { 4u8 } else { 0u8 }) + (if a1 {
            2u8
        } else {
            0u8
        }) + (if a0 { 1u8 } else { 0u8 })) as u8,
    }
}

/// The page select exchange: two don't-care bytes to the page select address
/// of the half that holds `address`.
pub open spec fn select_op(address: int) -> BusOp {
    BusOp::Write { address: page_select(address), bytes: seq![0u8, 0u8] }
}

/// The result of an operation whose last exchange was `x`: `Ok(v)` where it
/// succeeded, else the bus's own error.
pub open spec fn outcome<T, E>(x: Exchange<E>, v: T) -> Result<T, Error<E>> {
    match x.result {
        Ok(_) => Ok(v),
        Err(e) => Err(Error::I2C(e)),
    }
}

/// The exchanges of a single byte write.
pub open spec fn write_byte_ops(rw: u8, address: int, data: u8) -> Seq<BusOp> {
    seq![select_op(address), BusOp::Write { address: rw, bytes: seq![offset_in_page(address), data] }]
}

/// The exchanges of a single byte read.
pub open spec fn read_byte_ops(rw: u8, address: int) -> Seq<BusOp> {
    seq![
        select_op(address),
        BusOp::WriteRead { address: rw, bytes: seq![offset_in_page(address)], read_len: 1 },
    ]
}

/// The exchanges of a sequential read of `len` bytes: a throwaway read of one
/// byte primes the address pointer, the second read returns the data.
pub open spec fn read_array_ops(rw: u8, address: int, len: nat) -> Seq<BusOp> {
    seq![
        select_op(address),
        BusOp::WriteRead { address: rw, bytes: seq![offset_in_page(address)], read_len: 1 },
        BusOp::WriteRead { address: rw, bytes: seq![offset_in_page(address)], read_len: len },
    ]
}

/// Lengths that an array write accepts.
pub open spec fn array_len_allowed(len: int) -> bool {
    len == 2 || len == 4 || len == 8 || len == 16
}

/// The exchanges of an array write of `data`; for a length that is not
/// accepted, only the page select goes out before the write is refused.
pub open spec fn write_array_ops(rw: u8, address: int, data: Seq<u8>) -> Seq<BusOp> {
    if array_len_allowed(data.len() as int) {
        seq![
            select_op(address),
            BusOp::Write { address: rw, bytes: seq![offset_in_page(address)] + data },
        ]
    } else {
        seq![select_op(address)]
    }
}

impl<I2C> Eeprom34c04<I2C> {
    /// The bus that the driver owns.
    pub closed spec fn bus(&self) -> I2C {
        self.i2c
    }

    /// The bus address of read and write operations.
    pub closed spec fn bus_address(&self) -> u8 {
        self.rw_func_bits
    }

    /// The last address written.
    pub closed spec fn last_write(&self) -> u32 {
        self.last_addr_w
    }

    /// The last address read.
    pub closed spec fn last_read(&self) -> u32 {
        self.last_addr_r
    }

    /// Create a new instance of a 34c04 device. No bus traffic.
    pub fn new_34c04(i2c: I2C, address: SlaveAddr) -> (r: Self)
        ensures
            r.bus() == i2c,
            r.bus_address() == rw_address(address),
            r.last_write() == 0,
            r.last_read() == 0,
    {
        // Converts the address bits and ors them to the read/write function bits
        let rw_func_bits = match address {
            SlaveAddr::A2A1A0(a2, a1, a0) => {
                let b2: u8 = if a2 { 1 } else { 0 };
                let b1: u8 = if a1 { 1 } else { 0 };
                let b0: u8 = if a0 { 1 } else { 0 };
                let bits = RW_FUNC_BITS | (b2 << 2) | (b1 << 1) | b0;
                assert(bits == RW_FUNC_BITS + b2 * 4 + b1 * 2 + b0) by (bit_vector)
                    requires
                        bits == RW_FUNC_BITS | (b2 << 2) | (b1 << 1) | b0,
                        b2 <= 1,
                        b1 <= 1,
                        b0 <= 1,
                        RW_FUNC_BITS == 0b1010000u8,
                ;
                bits
            },
        };
        Eeprom34c04 { i2c: i2c, rw_func_bits: rw_func_bits, last_addr_w: 0, last_addr_r: 0 }
    }

    /// Destroy driver instance, return I²C bus instance.
    pub fn destroy(self) -> (r: I2C)
        ensures
            r == self.bus(),
    {
        self.i2c
    }

    /// Previously read address
    pub fn previous_read_addr(&self) -> (r: u32)
        ensures
            r == self.last_read(),
    {
        self.last_addr_r
    }

    /// Previously written address
    pub fn previous_write_addr(&self) -> (r: u32)
        ensures
            r == self.last_write(),
    {
        self.last_addr_w
    }
}

impl<I2C: I2cBus> Eeprom34c04<I2C> {
    /// Selects the half of the memory whose page select bus address is
    /// `page_addr`, by a write of two don't-care bytes.
    fn select_page(&mut self, page_addr: u8) -> (r: Result<(), I2C::Error>)
        ensures
            final(self).bus().exchanges() == old(self).bus().exchanges().push(
                Exchange {
                    op: BusOp::Write { address: page_addr, bytes: seq![0u8, 0u8] },
                    read: Seq::empty(),
                    result: r,
                },
            ),
            final(self).bus_address() == old(self).bus_address(),
            final(self).last_write() == old(self).last_write(),
            final(self).last_read() == old(self).last_read(),
    {
        let spa_dont_care = [0u8; 2];
        assert(spa_dont_care@ =~= seq![0u8, 0u8]);
        self.i2c.write(page_addr, &spa_dont_care)
    }

    /// Write a single byte in an address.
    ///
    /// After writing a byte, the EEPROM enters an internally-timed write cycle
    /// to the nonvolatile memory. During this time all inputs are disabled and
    /// the EEPROM will not respond until the write is complete.
    pub fn write_byte(&mut self, address: u32, data: u8) -> (r: Result<(), Error<I2C::Error>>)
        ensures
            final(self).bus_address() == old(self).bus_address(),
            final(self).last_read() == old(self).last_read(),
            !address_valid(address as int) ==> r == Err::<(), Error<I2C::Error>>(Error::InvalidAddr)
                && *final(self) == *old(self),
            address_valid(address as int) ==> ran_plan(
                old(self).bus().exchanges(),
                final(self).bus().exchanges(),
                write_byte_ops(old(self).bus_address(), address as int, data),
            ) && r == outcome(final(self).bus().exchanges().last(), ()),
            r is Ok ==> final(self).last_write() == address,
            r is Err ==> final(self).last_write() == old(self).last_write(),
    {
        if let Err(e) = addr_in_bounds::<I2C::Error>(address) {
            return Err(e);
        }
        let (page_addr, mem_addr) = match addr_convert::<I2C::Error>(address) {
            Ok(pair) => pair,
            Err(e) => return Err(e),
        };
        let ghost plan = write_byte_ops(self.rw_func_bits, address as int, data);
        let ghost before = self.i2c.exchanges();
        proof {
            lemma_ran_ok_start(before, plan);
        }
        let r1 = self.select_page(page_addr);
        proof {
            lemma_ran_step(before, before, self.i2c.exchanges().last(), plan);
        }
        if let Err(e) = r1 {
            return Err(Error::I2C(e));
        }
        let ghost mid = self.i2c.exchanges();
        let array = [mem_addr, data];
        assert(array@ =~= seq![mem_addr, data]);
        let r2 = self.i2c.write(self.rw_func_bits, &array);
        proof {
            lemma_ran_step(before, mid, self.i2c.exchanges().last(), plan);
        }
        match r2 {
            Ok(()) => {
                self.last_addr_w = address;
                Ok(())
            },
            Err(e) => Err(Error::I2C(e)),
        }
    }

    /// Read a single byte from an address.
    pub fn read_byte(&mut self, address: u32) -> (r: Result<u8, Error<I2C::Error>>)
        ensures
            final(self).bus_address() == old(self).bus_address(),
            final(self).last_write() == old(self).last_write(),
            !address_valid(address as int) ==> r == Err::<u8, Error<I2C::Error>>(Error::InvalidAddr)
                && *final(self) == *old(self),
            address_valid(address as int) ==> ran_plan(
                old(self).bus().exchanges(),
                final(self).bus().exchanges(),
                read_byte_ops(old(self).bus_address(), address as int),
            ) && r == outcome(
                final(self).bus().exchanges().last(),
                final(self).bus().exchanges().last().read[0],
            ),
            r is Ok ==> final(self).last_read() == address,
            r is Err ==> final(self).last_read() == old(self).last_read(),
    {
        if let Err(e) = addr_in_bounds::<I2C::Error>(address) {
            return Err(e);
        }
        let (page_addr, mem_addr) = match addr_convert::<I2C::Error>(address) {
            Ok(pair) => pair,
            Err(e) => return Err(e),
        };
        let ghost plan = read_byte_ops(self.rw_func_bits, address as int);
        let ghost before = self.i2c.exchanges();
        proof {
            lemma_ran_ok_start(before, plan);
        }
        let r1 = self.select_page(page_addr);
        proof {
            lemma_ran_step(before, before, self.i2c.exchanges().last(), plan);
        }
        if let Err(e) = r1 {
            return Err(Error::I2C(e));
        }
        let ghost mid = self.i2c.exchanges();
        let memaddr = [mem_addr];
        assert(memaddr@ =~= seq![mem_addr]);
        let mut data = [0u8; 1];
        let r2 = self.i2c.write_read(self.rw_func_bits, &memaddr, &mut data);
        proof {
            lemma_ran_step(before, mid, self.i2c.exchanges().last(), plan);
        }
        match r2 {
            Ok(()) => {
                self.last_addr_r = address;
                Ok(data[0])
            },
            Err(e) => Err(Error::I2C(e)),
        }
    }

    /// Read multiple bytes from an address into `data`.
    ///
    /// The read must stay within the memory quadrant of `address`.
    pub fn read_byte_array(&mut self, address: u32, data: &mut [u8]) -> (r: Result<
        (),
        Error<I2C::Error>,
    >)
        ensures
            final(self).bus_address() == old(self).bus_address(),
            final(self).last_write() == old(self).last_write(),
            !address_valid(address as int) ==> r == Err::<(), Error<I2C::Error>>(Error::InvalidAddr)
                && *final(self) == *old(self) && final(data)@ == old(data)@,
            address_valid(address as int) && !window_fits(address as int, old(data)@.len() as int)
                ==> r == Err::<(), Error<I2C::Error>>(Error::PageWindowOverflow) && *final(self)
                == *old(self) && final(data)@ == old(data)@,
            address_valid(address as int) && window_fits(address as int, old(data)@.len() as int)
                ==> ran_plan(
                old(self).bus().exchanges(),
                final(self).bus().exchanges(),
                read_array_ops(old(self).bus_address(), address as int, old(data)@.len()),
            ) && r == outcome(final(self).bus().exchanges().last(), ()),
            final(self).bus().exchanges().len() < old(self).bus().exchanges().len() + 3
                ==> final(data)@ == old(data)@,
            r is Ok ==> final(data)@ == final(self).bus().exchanges().last().read
                && final(self).last_read() == address,
            r is Err ==> final(self).last_read() == old(self).last_read(),
    {
        if let Err(e) = addr_in_bounds::<I2C::Error>(address) {
            return Err(e);
        }
        // No quadrant window reaches past offset 0xFF
        if data.len() > 0xFF {
            return Err(Error::PageWindowOverflow);
        }
        if let Err(e) = addr_in_bounds_page_wr::<I2C::Error>(address, data.len() as u32) {
            return Err(e);
        }
        let (page_addr, mem_addr) = match addr_convert::<I2C::Error>(address) {
            Ok(pair) => pair,
            Err(e) => return Err(e),
        };
        let ghost plan = read_array_ops(self.rw_func_bits, address as int, data@.len());
        let ghost before = self.i2c.exchanges();
        proof {
            lemma_ran_ok_start(before, plan);
        }
        let r1 = self.select_page(page_addr);
        proof {
            lemma_ran_step(before, before, self.i2c.exchanges().last(), plan);
        }
        if let Err(e) = r1 {
            return Err(Error::I2C(e));
        }
        let ghost mid = self.i2c.exchanges();
        let memaddr = [mem_addr];
        assert(memaddr@ =~= seq![mem_addr]);
        // Dummy read, else the sequential read only reads the first value correctly
        let mut dummy_data = [0u8; 1];
        let r2 = self.i2c.write_read(self.rw_func_bits, &memaddr, &mut dummy_data);
        proof {
            lemma_ran_step(before, mid, self.i2c.exchanges().last(), plan);
        }
        if let Err(e) = r2 {
            return Err(Error::I2C(e));
        }
        let ghost mid2 = self.i2c.exchanges();
        let r3 = self.i2c.write_read(self.rw_func_bits, &memaddr, data);
        proof {
            lemma_ran_step(before, mid2, self.i2c.exchanges().last(), plan);
        }
        match r3 {
            Ok(()) => {
                self.last_addr_r = address;
                Ok(())
            },
            Err(e) => Err(Error::I2C(e)),
        }
    }

    /// Write multiple bytes to an address.
    ///
    /// At most 16 bytes are written in one go, and the accepted lengths are
    /// 2, 4, 8 and 16 bytes: any other length is refused with
    /// `InvalidDataArrayMultiple`, after the page select. The write must stay
    /// within the memory quadrant of `address`.
    pub fn write_byte_array(&mut self, address: u32, data_array: &[u8]) -> (r: Result<
        (),
        Error<I2C::Error>,
    >)
        ensures
            final(self).bus_address() == old(self).bus_address(),
            final(self).last_read() == old(self).last_read(),
            data_array@.len() > 16 ==> r == Err::<(), Error<I2C::Error>>(Error::TooMuchData)
                && *final(self) == *old(self),
            data_array@.len() <= 16 && !address_valid(address as int) ==> r == Err::<
                (),
                Error<I2C::Error>,
            >(Error::InvalidAddr) && *final(self) == *old(self),
            data_array@.len() <= 16 && address_valid(address as int) && !window_fits(
                address as int,
                data_array@.len() as int,
            ) ==> r == Err::<(), Error<I2C::Error>>(Error::PageWindowOverflow) && *final(self)
                == *old(self),
            data_array@.len() <= 16 && address_valid(address as int) && window_fits(
                address as int,
                data_array@.len() as int,
            ) ==> ran_plan(
                old(self).bus().exchanges(),
                final(self).bus().exchanges(),
                write_array_ops(old(self).bus_address(), address as int, data_array@),
            ),
            data_array@.len() <= 16 && address_valid(address as int) && window_fits(
                address as int,
                data_array@.len() as int,
            ) ==> r == if array_len_allowed(data_array@.len() as int) || !succeeded(
                final(self).bus().exchanges().last(),
            ) {
                outcome(final(self).bus().exchanges().last(), ())
            } else {
                Err(Error::InvalidDataArrayMultiple)
            },
            r is Ok ==> final(self).last_write() == address,
            r is Err ==> final(self).last_write() == old(self).last_write(),
    {
        // Only up to 16 bytes can be written
        if data_array.len() > 16 {
            return Err(Error::TooMuchData);
        }
        if let Err(e) = addr_in_bounds::<I2C::Error>(address) {
            return Err(e);
        }
        if let Err(e) = addr_in_bounds_page_wr::<I2C::Error>(address, data_array.len() as u32) {
            return Err(e);
        }
        let (page_addr, mem_addr) = match addr_convert::<I2C::Error>(address) {
            Ok(pair) => pair,
            Err(e) => return Err(e),
        };
        let ghost plan = write_array_ops(self.rw_func_bits, address as int, data_array@);
        let ghost before = self.i2c.exchanges();
        proof {
            lemma_ran_ok_start(before, plan);
        }
        let r1 = self.select_page(page_addr);
        proof {
            lemma_ran_step(before, before, self.i2c.exchanges().last(), plan);
        }
        if let Err(e) = r1 {
            return Err(Error::I2C(e));
        }
        let ghost mid = self.i2c.exchanges();
        let len = data_array.len();
        if !(len == 2 || len == 4 || len == 8 || len == 16) {
            return Err(Error::InvalidDataArrayMultiple);
        }
        // The memory address, then the data, in a buffer of the largest frame
        let mut frame = [0u8; 17];
        frame[0] = mem_addr;
        let mut i: usize = 0;
        while i < len
            invariant
                len == data_array@.len(),
                len <= 16,
                i <= len,
                frame@.len() == 17,
                frame@[0] == mem_addr,
                forall|k: int| 0 <= k < i ==> frame@[k + 1] == data_array@[k],
            decreases len - i,
        {
            frame[i + 1] = data_array[i];
            i = i + 1;
        }
        let whole = frame.as_slice();
        let bytes = &whole[0..len + 1];
        assert(bytes@ =~= seq![mem_addr] + data_array@);
        let r2 = self.i2c.write(self.rw_func_bits, bytes);
        proof {
            lemma_ran_step(before, mid, self.i2c.exchanges().last(), plan);
        }
        match r2 {
            Ok(()) => {
                self.last_addr_w = address;
                Ok(())
            },
            Err(e) => Err(Error::I2C(e)),
        }
    }
}

} // verus!
