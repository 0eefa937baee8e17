//! The cells of the shared region.
//!
//! A region is mapped into two processes and changed by both. The library holds
//! no slice over it: it reaches each header field through an atomic cell and each
//! payload byte through a byte-sized one, and every access goes through the
//! functions of this module. Each of them makes one atomic access and enters it
//! in a [`Trace`]; no other function can write to a trace.
//!
//! A trace belongs to one region: it names the cell at every offset, and an access is
//! entered only if it goes to the cell that the region has at that offset. Neither a
//! trace nor a cell can be copied, and a trace is made only together with the
//! [`mapping`] that takes over the cells of its region. So a handle has one trace, no
//! access through the handle can be entered elsewhere, and the contracts that speak of
//! the trace speak of all of them.
//!
//! Verus has no statement of what an atomic holds. That each accessor here (the
//! `load` and `store` functions of the cells, and [`fence_release`]) makes the access
//! that it enters is believed by reading its body, not proved. All that is built on the
//! accessors is proved from what they enter.

use crate::trace;
use crate::trace::{Access, MemOrder};
use core::sync::atomic::{fence, AtomicU32, AtomicU64, AtomicU8, Ordering};
use vstd::prelude::*;

pub mod mapping;

verus! {

/// `core::sync::atomic::fence`. It returns nothing; a relaxed fence does not
/// exist, and asking for one panics.
pub assume_specification[ core::sync::atomic::fence ](order: Ordering)
    requires
        order != Ordering::Relaxed,
;

/// Which cell something is. In a contract an atomic stands for its identity, not for
/// what it holds.
pub enum CellId {
    Wide(AtomicU64),
    Narrow(AtomicU32),
    Byte(AtomicU8),
}

/// The cells of a region, by byte offset.
pub type Region = Map<int, CellId>;

/// The record of the accesses that one handle made to the cells of one region, oldest
/// first.
pub struct Trace {
    log: Ghost<Seq<Access>>,
    region: Ghost<Region>,
}

impl View for Trace {
    type V = Seq<Access>;

    closed spec fn view(&self) -> Seq<Access> {
        self.log@
    }
}

impl Trace {
    /// The cells that the record is about.
    pub closed spec fn region(&self) -> Region {
        self.region@
    }

    /// A record of no access to the cells of `region`.
    fn new(Ghost(region): Ghost<Region>) -> (t: Self)
        ensures
            t@ == Seq::<Access>::empty(),
            t.region() == region,
    {
        Trace { log: Ghost(Seq::empty()), region: Ghost(region) }
    }
}

/// A 64-bit cell at a fixed byte offset of the region.
pub struct Cell64<'a> {
    cell: &'a AtomicU64,
    at: usize,
}

impl<'a> Cell64<'a> {
    /// The byte offset of the cell.
    pub closed spec fn at(&self) -> int {
        self.at as int
    }

    /// Which cell it is.
    pub closed spec fn id(&self) -> CellId {
        CellId::Wide(*self.cell)
    }

    /// It is the cell that `region` has at its offset.
    pub open spec fn lies_in(&self, region: Region) -> bool {
        region[self.at()] == self.id()
    }

    /// The cell that lies `at` bytes into the region.
    pub fn new(cell: &'a AtomicU64, at: usize) -> (c: Self)
        ensures
            c.at() == at,
            c.id() == CellId::Wide(*cell),
    {
        Cell64 { cell, at }
    }

    /// Loads the cell, without ordering.
    pub fn load_relaxed(&self, trace: &mut Trace) -> (v: u64)
        requires
            self.lies_in(old(trace).region()),
        ensures
            final(trace).region() == old(trace).region(),
            final(trace)@ == old(trace)@.push(trace::loaded64(self.at(), v, MemOrder::Relaxed)),
    {
        let v: u64 = self.cell.load(Ordering::Relaxed);
        proof {
            trace.log@ = trace.log@.push(trace::loaded64(self.at(), v, MemOrder::Relaxed));
        }
        v
    }

    /// Loads the cell; later accesses stay behind the load.
    pub fn load_acquire(&self, trace: &mut Trace) -> (v: u64)
        requires
            self.lies_in(old(trace).region()),
        ensures
            final(trace).region() == old(trace).region(),
            final(trace)@ == old(trace)@.push(trace::loaded64(self.at(), v, MemOrder::Acquire)),
    {
        let v: u64 = self.cell.load(Ordering::Acquire);
        proof {
            trace.log@ = trace.log@.push(trace::loaded64(self.at(), v, MemOrder::Acquire));
        }
        v
    }

    /// Stores to the cell, without ordering.
    pub fn store_relaxed(&self, v: u64, trace: &mut Trace)
        requires
            self.lies_in(old(trace).region()),
        ensures
            final(trace).region() == old(trace).region(),
            final(trace)@ == old(trace)@.push(trace::stored64(self.at(), v, MemOrder::Relaxed)),
    {
        self.cell.store(v, Ordering::Relaxed);
        proof {
            trace.log@ = trace.log@.push(trace::stored64(self.at(), v, MemOrder::Relaxed));
        }
    }

    /// Stores to the cell; earlier accesses stay before the store.
    pub fn store_release(&self, v: u64, trace: &mut Trace)
        requires
            self.lies_in(old(trace).region()),
        ensures
            final(trace).region() == old(trace).region(),
            final(trace)@ == old(trace)@.push(trace::stored64(self.at(), v, MemOrder::Release)),
    {
        self.cell.store(v, Ordering::Release);
        proof {
            trace.log@ = trace.log@.push(trace::stored64(self.at(), v, MemOrder::Release));
        }
    }
}

/// A 32-bit cell at a fixed byte offset of the region.
pub struct Cell32<'a> {
    cell: &'a AtomicU32,
    at: usize,
}

impl<'a> Cell32<'a> {
    /// The byte offset of the cell.
    pub closed spec fn at(&self) -> int {
        self.at as int
    }

    /// Which cell it is.
    pub closed spec fn id(&self) -> CellId {
        CellId::Narrow(*self.cell)
    }

    /// It is the cell that `region` has at its offset.
    pub open spec fn lies_in(&self, region: Region) -> bool {
        region[self.at()] == self.id()
    }

    /// The cell that lies `at` bytes into the region.
    pub fn new(cell: &'a AtomicU32, at: usize) -> (c: Self)
        ensures
            c.at() == at,
            c.id() == CellId::Narrow(*cell),
    {
        Cell32 { cell, at }
    }

    /// Loads the cell, without ordering.
    pub fn load_relaxed(&self, trace: &mut Trace) -> (v: u32)
        requires
            self.lies_in(old(trace).region()),
        ensures
            final(trace).region() == old(trace).region(),
            final(trace)@ == old(trace)@.push(trace::loaded32(self.at(), v, MemOrder::Relaxed)),
    {
        let v: u32 = self.cell.load(Ordering::Relaxed);
        proof {
            trace.log@ = trace.log@.push(trace::loaded32(self.at(), v, MemOrder::Relaxed));
        }
        v
    }

    /// Loads the cell; later accesses stay behind the load.
    pub fn load_acquire(&self, trace: &mut Trace) -> (v: u32)
        requires
            self.lies_in(old(trace).region()),
        ensures
            final(trace).region() == old(trace).region(),
            final(trace)@ == old(trace)@.push(trace::loaded32(self.at(), v, MemOrder::Acquire)),
    {
        let v: u32 = self.cell.load(Ordering::Acquire);
        proof {
            trace.log@ = trace.log@.push(trace::loaded32(self.at(), v, MemOrder::Acquire));
        }
        v
    }

    /// Stores to the cell, without ordering.
    pub fn store_relaxed(&self, v: u32, trace: &mut Trace)
        requires
            self.lies_in(old(trace).region()),
        ensures
            final(trace).region() == old(trace).region(),
            final(trace)@ == old(trace)@.push(trace::stored32(self.at(), v, MemOrder::Relaxed)),
    {
        self.cell.store(v, Ordering::Relaxed);
        proof {
            trace.log@ = trace.log@.push(trace::stored32(self.at(), v, MemOrder::Relaxed));
        }
    }

    /// Stores to the cell; earlier accesses stay before the store.
    pub fn store_release(&self, v: u32, trace: &mut Trace)
        requires
            self.lies_in(old(trace).region()),
        ensures
            final(trace).region() == old(trace).region(),
            final(trace)@ == old(trace)@.push(trace::stored32(self.at(), v, MemOrder::Release)),
    {
        self.cell.store(v, Ordering::Release);
        proof {
            trace.log@ = trace.log@.push(trace::stored32(self.at(), v, MemOrder::Release));
        }
    }
}

/// The payload: consecutive byte cells that start at a fixed byte offset of the
/// region.
pub struct ByteCells<'a> {
    cells: &'a [AtomicU8],
    at: usize,
}

/// The byte stores that put `bytes` into the cells from `at` on.
pub open spec fn byte_stores(at: int, bytes: Seq<u8>) -> Seq<Access> {
    Seq::new(bytes.len(), |k: int| trace::stored8(at + k, bytes[k]))
}

/// The byte loads that got `bytes` out of the cells from `at` on.
pub open spec fn byte_loads(at: int, bytes: Seq<u8>) -> Seq<Access> {
    Seq::new(bytes.len(), |k: int| trace::loaded8(at + k, bytes[k]))
}

impl<'a> ByteCells<'a> {
    /// The byte offset of the first cell.
    pub closed spec fn at(&self) -> int {
        self.at as int
    }

    /// How many cells there are.
    pub closed spec fn count(&self) -> nat {
        self.cells@.len()
    }

    /// Which cell the one with number `i` is.
    pub closed spec fn id(&self, i: int) -> CellId {
        CellId::Byte(self.cells@[i])
    }

    /// They are the cells that `region` has at their offsets.
    pub open spec fn lies_in(&self, region: Region) -> bool {
        forall|i: int| 0 <= i < self.count() ==> region[self.at() + i] == #[trigger] self.id(i)
    }

    /// The cells that lie `at` bytes into the region.
    pub fn new(cells: &'a [AtomicU8], at: usize) -> (c: Self)
        ensures
            c.at() == at,
            c.count() == cells@.len(),
            forall|i: int|
                0 <= i < cells@.len() ==> #[trigger] c.id(i) == CellId::Byte(cells@[i]),
    {
        ByteCells { cells, at }
    }

    /// How many cells there are.
    pub fn len(&self) -> (n: usize)
        ensures
            n == self.count(),
    {
        self.cells.len()
    }

    /// Loads one byte.
    fn load(&self, i: usize, trace: &mut Trace) -> (b: u8)
        requires
            self.lies_in(old(trace).region()),
            i < self.count(),
        ensures
            final(trace).region() == old(trace).region(),
            final(trace)@ == old(trace)@.push(trace::loaded8(self.at() + i, b)),
    {
        let b: u8 = self.cells[i].load(Ordering::Relaxed);
        proof {
            trace.log@ = trace.log@.push(trace::loaded8(self.at() + i, b));
        }
        b
    }

    /// Stores one byte.
    fn store(&self, i: usize, b: u8, trace: &mut Trace)
        requires
            self.lies_in(old(trace).region()),
            i < self.count(),
        ensures
            final(trace).region() == old(trace).region(),
            final(trace)@ == old(trace)@.push(trace::stored8(self.at() + i, b)),
    {
        self.cells[i].store(b, Ordering::Relaxed);
        proof {
            trace.log@ = trace.log@.push(trace::stored8(self.at() + i, b));
        }
    }

    /// Copies `src` into the cells from `off` on, one byte after the other.
    pub fn copy_in(&self, off: usize, src: &[u8], trace: &mut Trace)
        requires
            self.lies_in(old(trace).region()),
            off + src@.len() <= self.count(),
        ensures
            final(trace).region() == old(trace).region(),
            final(trace)@ == old(trace)@ + byte_stores(self.at() + off, src@),
    {
        let count: usize = self.len();
        let n: usize = src.len();
        let mut k: usize = 0;
        while k < n
            invariant
                self.lies_in(trace.region()),
                trace.region() == old(trace).region(),
                k <= n == src@.len(),
                off + n <= count == self.count(),
                trace@ =~= old(trace)@ + byte_stores(self.at() + off, src@.take(k as int)),
            decreases n - k,
        {
            self.store(off + k, src[k], trace);
            k = k + 1;
        }
        assert(src@.take(n as int) =~= src@);
    }

    /// Stores `n` zero bytes into the cells from `off` on.
    pub fn fill_zero(&self, off: usize, n: usize, trace: &mut Trace)
        requires
            self.lies_in(old(trace).region()),
            off + n <= self.count(),
        ensures
            final(trace).region() == old(trace).region(),
            final(trace)@ == old(trace)@ + byte_stores(
                self.at() + off,
                Seq::new(n as nat, |k: int| 0u8),
            ),
    {
        let count: usize = self.len();
        let mut k: usize = 0;
        while k < n
            invariant
                self.lies_in(trace.region()),
                trace.region() == old(trace).region(),
                k <= n,
                off + n <= count == self.count(),
                trace@ =~= old(trace)@ + byte_stores(
                    self.at() + off,
                    Seq::new(k as nat, |j: int| 0u8),
                ),
            decreases n - k,
        {
            self.store(off + k, 0, trace);
            k = k + 1;
        }
    }

    /// Copies the cells from `off` on into `out[from..to]`, one byte after the
    /// other.
    pub fn copy_out(&self, off: usize, out: &mut [u8], from: usize, to: usize, trace: &mut Trace)
        requires
            self.lies_in(old(trace).region()),
            from <= to <= old(out)@.len(),
            off + (to - from) <= self.count(),
        ensures
            final(trace).region() == old(trace).region(),
            final(out)@.len() == old(out)@.len(),
            forall|k: int|
                0 <= k < from || to <= k < old(out)@.len() ==> #[trigger] final(out)@[k] == old(
                    out,
                )@[k],
            final(trace)@ == old(trace)@ + byte_loads(
                self.at() + off,
                final(out)@.subrange(from as int, to as int),
            ),
    {
        let count: usize = self.len();
        let n: usize = to - from;
        let mut k: usize = 0;
        while k < n
            invariant
                self.lies_in(trace.region()),
                trace.region() == old(trace).region(),
                k <= n,
                n == to - from,
                from <= to <= out@.len(),
                off + n <= count == self.count(),
                out@.len() == old(out)@.len(),
                forall|j: int|
                    0 <= j < from || from + k <= j < old(out)@.len() ==> #[trigger] out@[j] == old(
                        out,
                    )@[j],
                trace@ =~= old(trace)@ + byte_loads(
                    self.at() + off,
                    out@.subrange(from as int, from + k),
                ),
            decreases n - k,
        {
            let b: u8 = self.load(off + k, trace);
            let ghost before = out@;
            out[from + k] = b;
            assert(before.subrange(from as int, from + k) =~= out@.subrange(
                from as int,
                from + k,
            ));
            assert(out@.subrange(from as int, from + k + 1) =~= out@.subrange(
                from as int,
                from + k,
            ).push(b));
            k = k + 1;
        }
    }
}

/// A fence: the stores after it stay behind the accesses before it.
pub fn fence_release(trace: &mut Trace)
    ensures
        final(trace).region() == old(trace).region(),
        final(trace)@ == old(trace)@.push((Access::Fence { order: MemOrder::Release })),
{
    fence(Ordering::Release);
    proof {
        trace.log@ = trace.log@.push(Access::Fence { order: MemOrder::Release });
    }
}

} // verus!
