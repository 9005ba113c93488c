//! A driver for the 34c04 serial EEPROM (512 bytes, two-wire bus).
mod address;
mod bus;
mod eeprom34c04;
mod error;
mod model;

pub use address::{
    addr_convert, addr_in_bounds, addr_in_bounds_page_wr, address_valid, offset_in_page,
    page_select, window_fits, MEMORY_SIZE, PA_FUNC_BITS, RW_FUNC_BITS,
};
pub use bus::{ran_plan, succeeded, BusOp, Exchange, I2cBus};
pub use eeprom34c04::{
    array_len_allowed, outcome, read_array_ops, read_byte_ops, rw_address, select_op, write_array_ops,
    write_byte_ops, Eeprom34c04, SlaveAddr,
};
pub use error::Error;
pub use model::{
    faithful, half_base, lemma_read_twice, lemma_write_then_read, read_result, run_log, step,
    DeviceModel,
};
