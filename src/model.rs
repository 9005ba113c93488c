//! An idealized 34c04 on the bus, to state what the driver's exchanges do to
//! the memory and what its reads return.
use vstd::prelude::*;

use crate::address::{address_valid, offset_in_page, page_select, PA_FUNC_BITS};
use crate::bus::{ran_plan, succeeded, BusOp, Exchange};
use crate::eeprom34c04::{read_byte_ops, rw_address, write_byte_ops, SlaveAddr};

verus! {

/// The state of an idealized device: which half of the memory is selected,
/// and the byte held at each linear address.
pub ghost struct DeviceModel {
    pub upper: bool,
    pub mem: Map<int, u8>,
}

/// The linear address of the first byte of the selected half.
pub open spec fn half_base(m: DeviceModel) -> int {
    if m.upper {
        256
    } else {
        0
    }
}

/// The effect of one exchange on an idealized device whose read/write bus
/// address is `rw`: a write to a page select address selects a half; a write
/// of an offset and data to `rw` stores the data from that offset on; a read
/// changes nothing.
pub open spec fn step(rw: u8, m: DeviceModel, op: BusOp) -> DeviceModel {
    match op {
        BusOp::Write { address, bytes } => {
            if address == PA_FUNC_BITS {
                DeviceModel { upper: false, mem: m.mem }
            } else if address == (PA_FUNC_BITS | 1) {
                DeviceModel { upper: true, mem: m.mem }
            } else if address == rw && bytes.len() >= 1 {
                let start = half_base(m) + bytes[0];
                DeviceModel {
                    upper: m.upper,
                    mem: m.mem.union_prefer_right(
                        Map::new(
                            |k: int| start <= k < start + bytes.len() - 1,
                            |k: int| bytes[k - start + 1],
                        ),
                    ),
                }
            } else {
                m
            }
        },
        BusOp::WriteRead { .. } => m,
    }
}

/// The bytes that a combined write and read `op` to `rw` returns: those from
/// the written offset on, in the selected half.
pub open spec fn read_result(rw: u8, m: DeviceModel, op: BusOp) -> Seq<u8> {
    match op {
        BusOp::WriteRead { address, bytes, read_len } => {
            if address == rw && bytes.len() == 1 {
                Seq::new(read_len, |i: int| m.mem[half_base(m) + bytes[0] + i])
            } else {
                Seq::empty()
            }
        },
        BusOp::Write { .. } => Seq::empty(),
    }
}

/// The state of an idealized device that started in `m`, after the
/// exchanges of `log` that succeeded.
pub open spec fn run_log<E>(rw: u8, m: DeviceModel, log: Seq<Exchange<E>>) -> DeviceModel
    decreases log.len(),
{
    if log.len() == 0 {
        m
    } else {
        let prev = run_log(rw, m, log.drop_last());
        if succeeded(log.last()) {
            step(rw, prev, log.last().op)
        } else {
            prev
        }
    }
}

/// The bus behaves as an idealized device that started in `m`: each
/// exchange that succeeded read the bytes that the device held at that time.
pub open spec fn faithful<E>(rw: u8, m: DeviceModel, log: Seq<Exchange<E>>) -> bool {
    forall|i: int|
        0 <= i < log.len() && succeeded(#[trigger] log[i]) ==> log[i].read == read_result(
            rw,
            run_log(rw, m, log.take(i)),
            log[i].op,
        )
}

proof fn lemma_run_log_take<E>(rw: u8, m: DeviceModel, log: Seq<Exchange<E>>, k: int)
    requires
        0 < k <= log.len(),
    ensures
        run_log(rw, m, log.take(k)) == (if succeeded(log[k - 1]) {
            step(rw, run_log(rw, m, log.take(k - 1)), log[k - 1].op)
        } else {
            run_log(rw, m, log.take(k - 1))
        }),
{
    assert(log.take(k).drop_last() =~= log.take(k - 1));
}

proof fn lemma_addresses_distinct(pins: SlaveAddr)
    ensures
        rw_address(pins) != PA_FUNC_BITS,
        rw_address(pins) != (PA_FUNC_BITS | 1),
        PA_FUNC_BITS != (PA_FUNC_BITS | 1),
{
    assert(PA_FUNC_BITS | 1 == 0b0110111u8) by (bit_vector)
        requires
            PA_FUNC_BITS == 0b0110110u8,
    ;
}

/// A plan that ran to its end with a last exchange that succeeded was made
/// whole, with every exchange a success.
proof fn lemma_ran_whole<E>(before: Seq<Exchange<E>>, after: Seq<Exchange<E>>, plan: Seq<BusOp>)
    requires
        ran_plan(before, after, plan),
        succeeded(after.last()),
    ensures
        after.len() == before.len() + plan.len(),
        forall|j: int| before.len() <= j < after.len() ==> succeeded(#[trigger] after[j]),
{
}

/// Round trip: where the bus is an idealized device, a byte write of `data`
/// at `address` that succeeded (from `s0` to `s1`), followed by a byte read
/// of `address` that succeeded (from `s1` to `s2`), reads back `data`.
pub proof fn lemma_write_then_read<E>(
    pins: SlaveAddr,
    m: DeviceModel,
    s0: Seq<Exchange<E>>,
    s1: Seq<Exchange<E>>,
    s2: Seq<Exchange<E>>,
    address: u32,
    data: u8,
)
    requires
        address_valid(address as int),
        ran_plan(s0, s1, write_byte_ops(rw_address(pins), address as int, data)),
        succeeded(s1.last()),
        ran_plan(s1, s2, read_byte_ops(rw_address(pins), address as int)),
        succeeded(s2.last()),
        faithful(rw_address(pins), m, s2),
    ensures
        s2.last().read == seq![data],
{
    let rw = rw_address(pins);
    let a = address as int;
    let n = s0.len() as int;
    lemma_addresses_distinct(pins);
    lemma_ran_whole(s0, s1, write_byte_ops(rw, a, data));
    lemma_ran_whole(s1, s2, read_byte_ops(rw, a));
    assert(s2[n] == s1[n]);
    assert(s2[n + 1] == s1[n + 1]);
    assert(succeeded(s2[n]) && succeeded(s2[n + 1]) && succeeded(s2[n + 2]));
    lemma_run_log_take(rw, m, s2, n + 1);
    lemma_run_log_take(rw, m, s2, n + 2);
    lemma_run_log_take(rw, m, s2, n + 3);
    let selected = run_log(rw, m, s2.take(n + 1));
    assert(selected.upper == (a >= 256));
    assert(half_base(selected) + offset_in_page(a) == a);
    let written = run_log(rw, m, s2.take(n + 2));
    assert(written.mem[a] == data);
    let reselected = run_log(rw, m, s2.take(n + 3));
    assert(reselected.mem == written.mem);
    assert(half_base(reselected) + offset_in_page(a) == a);
    assert(s2[n + 3].read =~= seq![data]);
}

/// Repeated read: where the bus is an idealized device, two byte reads of
/// `address` that succeeded, one after the other, read the same byte.
pub proof fn lemma_read_twice<E>(
    pins: SlaveAddr,
    m: DeviceModel,
    s0: Seq<Exchange<E>>,
    s1: Seq<Exchange<E>>,
    s2: Seq<Exchange<E>>,
    address: u32,
)
    requires
        address_valid(address as int),
        ran_plan(s0, s1, read_byte_ops(rw_address(pins), address as int)),
        succeeded(s1.last()),
        ran_plan(s1, s2, read_byte_ops(rw_address(pins), address as int)),
        succeeded(s2.last()),
        faithful(rw_address(pins), m, s2),
    ensures
        s2.last().read == s1.last().read,
{
    let rw = rw_address(pins);
    let a = address as int;
    let n = s0.len() as int;
    lemma_addresses_distinct(pins);
    lemma_ran_whole(s0, s1, read_byte_ops(rw, a));
    lemma_ran_whole(s1, s2, read_byte_ops(rw, a));
    assert(s2[n] == s1[n]);
    assert(s2[n + 1] == s1[n + 1]);
    assert(succeeded(s2[n]) && succeeded(s2[n + 1]) && succeeded(s2[n + 2]));
    lemma_run_log_take(rw, m, s2, n + 1);
    lemma_run_log_take(rw, m, s2, n + 2);
    lemma_run_log_take(rw, m, s2, n + 3);
    let first = run_log(rw, m, s2.take(n + 1));
    let second = run_log(rw, m, s2.take(n + 3));
    assert(first.upper == (a >= 256));
    assert(second == first);
}

} // verus!
