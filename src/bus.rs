//! The two-wire bus that the driver talks through, and the record of the
//! exchanges made on it.
use vstd::prelude::*;

verus! {

/// What one bus exchange asks for.
pub ghost enum BusOp {
    /// A write of `bytes` to bus address `address`.
    Write { address: u8, bytes: Seq<u8> },
    /// A write of `bytes` to bus address `address`, followed in the same
    /// transaction by a read of `read_len` bytes.
    WriteRead { address: u8, bytes: Seq<u8>, read_len: nat },
}

/// One exchange made on the bus: what it asked for, the bytes it read (none
/// for a write), and what the bus reported.
pub ghost struct Exchange<E> {
    pub op: BusOp,
    pub read: Seq<u8>,
    pub result: Result<(), E>,
}

/// A blocking I²C bus: what the driver needs of the transport it owns.
///
/// `exchanges` is the record of every exchange made on the bus, oldest first;
/// each method adds the one it makes.
pub trait I2cBus {
    /// The error that a failed exchange reports.
    type Error;

    /// Every exchange made on this bus, oldest first.
    ///
    /// The default lets an implementation written outside Verus, which cannot
    /// define spec functions, compile; a verified implementation overrides it,
    /// since the default meets no `ensures` below.
    open spec fn exchanges(&self) -> Seq<Exchange<Self::Error>> {
        Seq::empty()
    }

    /// Writes `bytes` to the device at bus address `address`.
    fn write(&mut self, address: u8, bytes: &[u8]) -> (r: Result<(), Self::Error>)
        ensures
            final(self).exchanges() == old(self).exchanges().push(
                Exchange {
                    op: BusOp::Write { address: address, bytes: bytes@ },
                    read: Seq::empty(),
                    result: r,
                },
            ),
    ;

    /// Writes `bytes` to the device at bus address `address`, then reads
    /// `buffer.len()` bytes from it into `buffer`, without releasing the bus in
    /// between.
    fn write_read(&mut self, address: u8, bytes: &[u8], buffer: &mut [u8]) -> (r: Result<
        (),
        Self::Error,
    >)
        ensures
            final(self).exchanges() == old(self).exchanges().push(
                Exchange {
                    op: BusOp::WriteRead {
                        address: address,
                        bytes: bytes@,
                        read_len: old(buffer)@.len(),
                    },
                    read: final(buffer)@,
                    result: r,
                },
            ),
    ;
}

/// The exchange succeeded.
pub open spec fn succeeded<E>(x: Exchange<E>) -> bool {
    x.result is Ok
}

/// `after` extends `before` by the exchanges of `plan`, in order, up to and
/// including the first that failed: each one but the last succeeded, and the
/// sequence stops short of `plan` only after a failure.
pub open spec fn ran_plan<E>(before: Seq<Exchange<E>>, after: Seq<Exchange<E>>, plan: Seq<BusOp>) -> bool {
    &&& before.len() < after.len() <= before.len() + plan.len()
    &&& after.subrange(0, before.len() as int) == before
    &&& forall|j: int|
        before.len() <= j < after.len() ==> (#[trigger] after[j]).op == plan[j - before.len()]
    &&& forall|j: int| before.len() <= j < after.len() - 1 ==> succeeded(#[trigger] after[j])
    &&& after.len() < before.len() + plan.len() ==> !succeeded(after.last())
}

/// `after` extends `before` by a prefix of `plan`, every exchange of which
/// succeeded.
pub open spec fn ran_ok<E>(before: Seq<Exchange<E>>, after: Seq<Exchange<E>>, plan: Seq<BusOp>) -> bool {
    &&& before.len() <= after.len() <= before.len() + plan.len()
    &&& after.subrange(0, before.len() as int) == before
    &&& forall|j: int|
        before.len() <= j < after.len() ==> (#[trigger] after[j]).op == plan[j - before.len()]
    &&& forall|j: int| before.len() <= j < after.len() ==> succeeded(#[trigger] after[j])
}

/// No exchange of a plan has been made yet.
pub(crate) proof fn lemma_ran_ok_start<E>(before: Seq<Exchange<E>>, plan: Seq<BusOp>)
    ensures
        ran_ok(before, before, plan),
{
    assert(before.subrange(0, before.len() as int) =~= before);
}

/// The next exchange `x` of `plan` is made: it continues the plan if it
/// succeeded, and ends it if it failed or was the last.
pub(crate) proof fn lemma_ran_step<E>(
    before: Seq<Exchange<E>>,
    mid: Seq<Exchange<E>>,
    x: Exchange<E>,
    plan: Seq<BusOp>,
)
    requires
        ran_ok(before, mid, plan),
        mid.len() < before.len() + plan.len(),
        x.op == plan[mid.len() - before.len()],
    ensures
        succeeded(x) ==> ran_ok(before, mid.push(x), plan),
        !succeeded(x) || mid.len() + 1 == before.len() + plan.len() ==> ran_plan(
            before,
            mid.push(x),
            plan,
        ),
{
    let after = mid.push(x);
    assert(after.subrange(0, before.len() as int) =~= mid.subrange(0, before.len() as int));
    assert forall|j: int| before.len() <= j < after.len() implies (#[trigger] after[j]).op
        == plan[j - before.len()] by {
        if j < mid.len() {
            assert(after[j] == mid[j]);
        }
    }
    assert forall|j: int| before.len() <= j < after.len() - 1 implies succeeded(
        #[trigger] after[j],
    ) by {
        assert(after[j] == mid[j]);
    }
    if succeeded(x) {
        assert forall|j: int| before.len() <= j < after.len() implies succeeded(
            #[trigger] after[j],
        ) by {
            if j < mid.len() {
                assert(after[j] == mid[j]);
            }
        }
    }
}

} // verus!
