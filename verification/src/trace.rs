//! What a process does to shared memory, as a mathematical object.
//!
//! The memory that the two sides of the bridge share is written by both of them
//! at any time, so no value that was read a moment ago describes it now. What can
//! be said exactly is which accesses a side made: each load with the value that
//! came back, each store with the value that went out, each fence, in program
//! order and with their memory orders. A sequence of [`Access`]es is such a
//! record. The rest of this module says what a record means for a memory: what
//! it leaves behind ([`after`]), and when every load in it returned what the
//! memory held at that moment ([`undisturbed`]).

use vstd::prelude::*;

verus! {

/// The strength of one access: how it is ordered against its neighbours.
#[derive(Clone, Copy, Debug, PartialEq, Eq, Structural)]
pub enum MemOrder {
    Relaxed,
    Acquire,
    Release,
}

/// One access to the shared memory. `at` is the byte offset of the cell inside
/// the region it belongs to.
pub enum Access {
    /// `value` came back from the cell at `at`.
    Load { at: int, value: int, order: MemOrder },
    /// `value` went out to the cell at `at`.
    Store { at: int, value: int, order: MemOrder },
    /// A fence between the accesses before it and those after it.
    Fence { order: MemOrder },
}

/// A memory: what each cell holds, by its byte offset.
pub type Memory = Map<int, int>;

/// A 64-bit load.
pub open spec fn loaded64(at: int, value: u64, order: MemOrder) -> Access {
    Access::Load { at, value: value as int, order }
}

/// A 32-bit load.
pub open spec fn loaded32(at: int, value: u32, order: MemOrder) -> Access {
    Access::Load { at, value: value as int, order }
}

/// A byte load.
pub open spec fn loaded8(at: int, value: u8) -> Access {
    Access::Load { at, value: value as int, order: MemOrder::Relaxed }
}

/// A 64-bit store.
pub open spec fn stored64(at: int, value: u64, order: MemOrder) -> Access {
    Access::Store { at, value: value as int, order }
}

/// A 32-bit store.
pub open spec fn stored32(at: int, value: u32, order: MemOrder) -> Access {
    Access::Store { at, value: value as int, order }
}

/// A byte store.
pub open spec fn stored8(at: int, value: u8) -> Access {
    Access::Store { at, value: value as int, order: MemOrder::Relaxed }
}

/// The memory that `a` leaves behind.
pub open spec fn apply(m: Memory, a: Access) -> Memory {
    match a {
        Access::Store { at, value, .. } => m.insert(at, value),
        _ => m,
    }
}

/// `a`, if it is a load, returned what `m` holds.
pub open spec fn agrees(m: Memory, a: Access) -> bool {
    match a {
        Access::Load { at, value, .. } => m[at] == value,
        _ => true,
    }
}

/// The memory that the accesses `t`, made one after the other, leave behind.
pub open spec fn after(m: Memory, t: Seq<Access>) -> Memory
    decreases t.len(),
{
    if t.len() == 0 {
        m
    } else {
        apply(after(m, t.drop_last()), t.last())
    }
}

/// Every load of `t` returned what the memory held at that moment, when `t`
/// starts from `m`: no other access came in between that mattered.
pub open spec fn undisturbed(m: Memory, t: Seq<Access>) -> bool
    decreases t.len(),
{
    t.len() == 0 || (undisturbed(m, t.drop_last()) && agrees(after(m, t.drop_last()), t.last()))
}

/// `t` stores nothing to the cell at `at`.
pub open spec fn leaves_alone(t: Seq<Access>, at: int) -> bool {
    forall|i: int| 0 <= i < t.len() ==> !is_store_to(#[trigger] t[i], at)
}

/// `a` stores to the cell at `at`.
pub open spec fn is_store_to(a: Access, at: int) -> bool {
    a matches Access::Store { at: b, .. } && b == at
}

/// Making `a` and then `b` leaves behind what making `a + b` does, and is
/// undisturbed exactly if both halves are.
pub proof fn lemma_concat(m: Memory, a: Seq<Access>, b: Seq<Access>)
    ensures
        after(m, a + b) == after(after(m, a), b),
        undisturbed(m, a + b) <==> undisturbed(m, a) && undisturbed(after(m, a), b),
    decreases b.len(),
{
    if b.len() == 0 {
        assert(a + b =~= a);
    } else {
        assert((a + b).drop_last() =~= a + b.drop_last());
        assert((a + b).last() == b.last());
        lemma_concat(m, a, b.drop_last());
    }
}

/// A cell that `t` does not store to keeps what it holds.
pub proof fn lemma_left_alone(m: Memory, t: Seq<Access>, at: int)
    requires
        leaves_alone(t, at),
    ensures
        after(m, t)[at] == m[at],
    decreases t.len(),
{
    if t.len() > 0 {
        assert(!is_store_to(t[t.len() - 1], at));
        assert forall|i: int| 0 <= i < t.drop_last().len() implies !is_store_to(
            #[trigger] t.drop_last()[i],
            at,
        ) by {
            assert(t.drop_last()[i] == t[i]);
        }
        lemma_left_alone(m, t.drop_last(), at);
    }
}

/// A cell whose only store in `t` is the `i`th access holds that access's value
/// afterwards.
pub proof fn lemma_stored_once(m: Memory, t: Seq<Access>, i: int, at: int, value: int)
    requires
        0 <= i < t.len(),
        t[i] matches Access::Store { at: a, value: v, .. } && a == at && v == value,
        forall|j: int| i < j < t.len() ==> !is_store_to(#[trigger] t[j], at),
    ensures
        after(m, t)[at] == value,
{
    let front = t.take(i + 1);
    let back = t.skip(i + 1);
    assert(t =~= front + back);
    lemma_concat(m, front, back);
    assert(front.last() == t[i]);
    assert(after(m, front)[at] == value);
    assert forall|j: int| 0 <= j < back.len() implies !is_store_to(#[trigger] back[j], at) by {
        assert(back[j] == t[j + i + 1]);
    }
    lemma_left_alone(after(m, front), back, at);
}

/// An undisturbed record's `i`th access, if it is a load, returned what the
/// accesses before it had left behind.
pub proof fn lemma_load_agrees(m: Memory, t: Seq<Access>, i: int)
    requires
        undisturbed(m, t),
        0 <= i < t.len(),
    ensures
        agrees(after(m, t.take(i)), t[i]),
        undisturbed(m, t.take(i)),
    decreases t.len(),
{
    if i == t.len() - 1 {
        assert(t.take(i) =~= t.drop_last());
    } else {
        assert(t.drop_last().take(i) =~= t.take(i));
        lemma_load_agrees(m, t.drop_last(), i);
    }
}

/// One more access.
pub proof fn lemma_step(m: Memory, t: Seq<Access>, i: int)
    requires
        0 <= i < t.len(),
    ensures
        after(m, t.take(i + 1)) == apply(after(m, t.take(i)), t[i]),
{
    assert(t.take(i + 1).drop_last() =~= t.take(i));
    assert(t.take(i + 1).last() == t[i]);
}

/// The loads of an undisturbed record that only loads found what the memory held.
pub proof fn lemma_looks(m: Memory, t: Seq<Access>, i: int)
    requires
        undisturbed(m, t),
        forall|k: int| 0 <= k < t.len() ==> #[trigger] t[k] is Load,
        0 <= i < t.len(),
    ensures
        agrees(m, t[i]),
{
    lemma_load_agrees(m, t, i);
    lemma_loads_store_nothing(m, t.take(i));
}

/// A record that only loads changes nothing.
pub proof fn lemma_loads_store_nothing(m: Memory, t: Seq<Access>)
    requires
        forall|k: int| 0 <= k < t.len() ==> #[trigger] t[k] is Load,
    ensures
        after(m, t) == m,
        forall|a: int| #[trigger] leaves_alone(t, a),
    decreases t.len(),
{
    if t.len() > 0 {
        assert(t[t.len() - 1] is Load);
        lemma_loads_store_nothing(m, t.drop_last());
    }
}

} // verus!
