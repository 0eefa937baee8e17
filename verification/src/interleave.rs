//! Two processes at work on one memory.
//!
//! The records of a producer and of a consumer are merged in some order, and each
//! access takes effect at once. What the consumer then sees is what the producer
//! alone would have left behind at some point of its work, and these points come
//! one after the other: that is all that the laws of the two rings need.
//!
//! This is sequential consistency. The records also hold the ordering of each access
//! and the fences; what these allow on a machine that reorders accesses is not
//! modelled here.

use crate::trace;
use crate::trace::{Access, Memory};
use vstd::prelude::*;

verus! {

/// How many of the first `i` turns were the producer's.
pub open spec fn taken(turns: Seq<bool>, i: int) -> int
    decreases i,
{
    if i <= 0 {
        0
    } else if turns[i - 1] {
        taken(turns, i - 1) + 1
    } else {
        taken(turns, i - 1)
    }
}

/// The accesses of both processes in the order in which they were made: where
/// `turns` is true the producer's next one, elsewhere the consumer's.
pub open spec fn merged(p: Seq<Access>, c: Seq<Access>, turns: Seq<bool>) -> Seq<Access> {
    Seq::new(
        turns.len(),
        |i: int|
            if turns[i] {
                p[taken(turns, i)]
            } else {
                c[i - taken(turns, i)]
            },
    )
}

/// `turns` lets the consumer make all of `c`, and the producer some of `p`,
/// wherever that leaves it.
pub open spec fn lets_finish(p: Seq<Access>, c: Seq<Access>, turns: Seq<bool>) -> bool {
    &&& taken(turns, turns.len() as int) <= p.len()
    &&& turns.len() - taken(turns, turns.len() as int) == c.len()
}

/// `c`, made while the producer makes `p`, saw the shared memory as it was: every
/// load, of either process, returned what had been stored last.
pub open spec fn observed(m: Memory, p: Seq<Access>, c: Seq<Access>, turns: Seq<bool>) -> bool {
    &&& lets_finish(p, c, turns)
    &&& trace::undisturbed(m, merged(p, c, turns))
}

/// The turn in which the consumer makes its access number `j`.
pub open spec fn turn_of(turns: Seq<bool>, j: int) -> int {
    choose|i: int| 0 <= i < turns.len() && !#[trigger] turns[i] && i - taken(turns, i) == j
}

/// How many accesses the producer has made when the consumer makes its access
/// number `j`.
pub open spec fn progress(turns: Seq<bool>, j: int) -> int {
    taken(turns, turn_of(turns, j))
}

proof fn lemma_taken(turns: Seq<bool>, i: int, j: int)
    requires
        0 <= i <= j <= turns.len(),
    ensures
        0 <= taken(turns, i) <= taken(turns, j),
        taken(turns, j) - taken(turns, i) <= j - i,
    decreases j,
{
    if i < j {
        lemma_taken(turns, i, j - 1);
    } else if i > 0 {
        lemma_taken(turns, i - 1, j - 1);
    }
}

proof fn lemma_turn_exists(turns: Seq<bool>, n: int, j: int)
    requires
        0 <= n <= turns.len(),
        0 <= j < n - taken(turns, n),
    ensures
        exists|i: int| 0 <= i < n && !#[trigger] turns[i] && i - taken(turns, i) == j,
    decreases n,
{
    if turns[n - 1] || n - 1 - taken(turns, n - 1) != j {
        lemma_turn_exists(turns, n - 1, j);
    }
}

/// The consumer's turns are in order, and so is the producer's progress at them.
pub proof fn lemma_progress(p: Seq<Access>, c: Seq<Access>, turns: Seq<bool>, i: int, j: int)
    requires
        lets_finish(p, c, turns),
        0 <= i <= j < c.len(),
    ensures
        0 <= progress(turns, i) <= progress(turns, j) <= p.len(),
        0 <= turn_of(turns, i) <= turn_of(turns, j) < turns.len(),
        !turns[turn_of(turns, i)],
        turn_of(turns, i) - progress(turns, i) == i,
{
    let n = turns.len() as int;
    lemma_turn_exists(turns, n, i);
    lemma_turn_exists(turns, n, j);
    let a = turn_of(turns, i);
    let b = turn_of(turns, j);
    if b < a {
        lemma_taken(turns, b, a);
        lemma_taken(turns, b + 1, a);
        assert(taken(turns, b + 1) == taken(turns, b));
    }
    lemma_taken(turns, a, b);
    lemma_taken(turns, b, n);
}

/// A cell that the consumer does not store to holds what the producer alone would
/// have left there.
pub proof fn lemma_producer_alone(
    m: Memory,
    p: Seq<Access>,
    c: Seq<Access>,
    turns: Seq<bool>,
    i: int,
    at: int,
)
    requires
        lets_finish(p, c, turns),
        0 <= i <= turns.len(),
        trace::leaves_alone(c, at),
    ensures
        trace::after(m, merged(p, c, turns).take(i))[at] == trace::after(
            m,
            p.take(taken(turns, i)),
        )[at],
    decreases i,
{
    let h = merged(p, c, turns);
    if i > 0 {
        lemma_producer_alone(m, p, c, turns, i - 1, at);
        trace::lemma_step(m, h, i - 1);
        lemma_taken(turns, i - 1, turns.len() as int);
        lemma_taken(turns, i, turns.len() as int);
        lemma_taken(turns, 0, i - 1);
        let q = taken(turns, i - 1);
        if turns[i - 1] {
            trace::lemma_step(m, p, q);
            assert(h[i - 1] == p[q]);
        } else {
            assert(h[i - 1] == c[i - 1 - q]);
            assert(!trace::is_store_to(c[i - 1 - q], at));
        }
    } else {
        assert(h.take(0) =~= p.take(0));
    }
}

/// A cell that the producer does not store to holds what the consumer alone would
/// have left there.
pub proof fn lemma_consumer_alone(
    m: Memory,
    p: Seq<Access>,
    c: Seq<Access>,
    turns: Seq<bool>,
    i: int,
    at: int,
)
    requires
        lets_finish(p, c, turns),
        0 <= i <= turns.len(),
        trace::leaves_alone(p, at),
    ensures
        trace::after(m, merged(p, c, turns).take(i))[at] == trace::after(
            m,
            c.take(i - taken(turns, i)),
        )[at],
    decreases i,
{
    let h = merged(p, c, turns);
    if i > 0 {
        lemma_consumer_alone(m, p, c, turns, i - 1, at);
        trace::lemma_step(m, h, i - 1);
        lemma_taken(turns, i - 1, turns.len() as int);
        lemma_taken(turns, i, turns.len() as int);
        lemma_taken(turns, 0, i - 1);
        let q = taken(turns, i - 1);
        if turns[i - 1] {
            assert(h[i - 1] == p[q]);
            assert(!trace::is_store_to(p[q], at));
        } else {
            trace::lemma_step(m, c, i - 1 - q);
            assert(h[i - 1] == c[i - 1 - q]);
        }
    } else {
        assert(h.take(0) =~= c.take(0));
    }
}

/// What the consumer's access number `j` loads from a cell that it never stores to
/// is what the producer alone would have left there after as many accesses as it
/// has made by then.
pub proof fn lemma_seen(
    m: Memory,
    p: Seq<Access>,
    c: Seq<Access>,
    turns: Seq<bool>,
    j: int,
    at: int,
    value: int,
)
    requires
        observed(m, p, c, turns),
        0 <= j < c.len(),
        c[j] matches Access::Load { at: a, value: v, .. } && a == at && v == value,
        trace::leaves_alone(c, at),
    ensures
        trace::after(m, p.take(progress(turns, j)))[at] == value,
{
    lemma_progress(p, c, turns, j, j);
    let i = turn_of(turns, j);
    let h = merged(p, c, turns);
    trace::lemma_load_agrees(m, h, i);
    assert(h[i] == c[j]);
    lemma_producer_alone(m, p, c, turns, i, at);
}

/// What the consumer's access number `j` loads from a cell that neither process
/// stores to before it is what the memory held all along.
pub proof fn lemma_seen_own(
    m: Memory,
    p: Seq<Access>,
    c: Seq<Access>,
    turns: Seq<bool>,
    j: int,
    at: int,
    value: int,
)
    requires
        observed(m, p, c, turns),
        0 <= j < c.len(),
        c[j] matches Access::Load { at: a, value: v, .. } && a == at && v == value,
        trace::leaves_alone(p, at),
        trace::leaves_alone(c.take(j), at),
    ensures
        m[at] == value,
{
    lemma_progress(p, c, turns, j, j);
    let i = turn_of(turns, j);
    let h = merged(p, c, turns);
    trace::lemma_load_agrees(m, h, i);
    assert(h[i] == c[j]);
    lemma_consumer_alone(m, p, c, turns, i, at);
    trace::lemma_left_alone(m, c.take(j), at);
}

/// Publication through a latch. The producer stores to the cell `latch` once, as its
/// last access; the consumer looks at the latch first and stores nothing. If it
/// finds the latch changed, everything it looks at afterwards is what the producer
/// published.
pub proof fn lemma_latch(
    m: Memory,
    p: Seq<Access>,
    c: Seq<Access>,
    turns: Seq<bool>,
    latch: int,
    value: int,
    j: int,
)
    requires
        observed(m, p, c, turns),
        p.len() > 0,
        trace::leaves_alone(p.drop_last(), latch),
        0 <= j < c.len(),
        c[0] matches Access::Load { at: a, value: v, .. } && a == latch && v == value,
        forall|at: int| #[trigger] trace::leaves_alone(c, at),
        value != m[latch],
    ensures
        trace::agrees(trace::after(m, p), c[j]),
{
    lemma_seen(m, p, c, turns, 0, latch, value);
    lemma_progress(p, c, turns, 0, j);
    let q0 = progress(turns, 0);
    let q = progress(turns, j);
    if q0 < p.len() {
        assert forall|i: int| 0 <= i < q0 implies !trace::is_store_to(
            #[trigger] p.take(q0)[i],
            latch,
        ) by {
            assert(p.take(q0)[i] == p.drop_last()[i]);
        }
        trace::lemma_left_alone(m, p.take(q0), latch);
    }
    assert(p.take(q) =~= p);
    if let Access::Load { at, value: v, .. } = c[j] {
        lemma_seen(m, p, c, turns, j, at, v);
    }
}

/// Leaving one consumer's turn out moves the turns behind it by one.
proof fn lemma_taken_without(turns: Seq<bool>, i: int, k: int)
    requires
        0 <= i < turns.len(),
        !turns[i],
        0 <= k < turns.len(),
    ensures
        taken(turns.take(i) + turns.skip(i + 1), k) == (if k <= i {
            taken(turns, k)
        } else {
            taken(turns, k + 1)
        }),
    decreases k,
{
    let rest = turns.take(i) + turns.skip(i + 1);
    if k > 0 {
        lemma_taken_without(turns, i, k - 1);
        if k - 1 < i {
            assert(rest[k - 1] == turns[k - 1]);
        } else {
            assert(rest[k - 1] == turns[k]);
        }
        if k == i + 1 {
            assert(taken(turns, i + 1) == taken(turns, i));
        }
    }
}

/// If the first `i` turns were all the producer's, each of them was.
proof fn lemma_all_taken(turns: Seq<bool>, i: int, k: int)
    requires
        0 <= k < i <= turns.len(),
        taken(turns, i) == i,
    ensures
        turns[k],
{
    lemma_taken(turns, 0, k);
    lemma_taken(turns, k + 1, i);
    lemma_taken(turns, k, k + 1);
}

/// What the consumer does behind a look at the memory, it does as if it had not
/// looked: the look can be taken out of the order.
proof fn lemma_without_first(
    m: Memory,
    p: Seq<Access>,
    c: Seq<Access>,
    turns: Seq<bool>,
) -> (rest: Seq<bool>)
    requires
        observed(m, p, c, turns),
        c.len() > 0,
        c[0] is Load,
    ensures
        observed(m, p, c.skip(1), rest),
{
    lemma_progress(p, c, turns, 0, 0);
    let i = turn_of(turns, 0);
    let n = turns.len() as int;
    let rest = turns.take(i) + turns.skip(i + 1);
    let h = merged(p, c, turns);
    let g = merged(p, c.skip(1), rest);
    lemma_taken_without(turns, i, n - 1);
    if i == n - 1 {
        assert(taken(turns, n) == taken(turns, n - 1));
    }
    assert(lets_finish(p, c.skip(1), rest));
    assert forall|k: int| 0 <= k < n - 1 implies g[k] == #[trigger] (h.take(i) + h.skip(
        i + 1,
    ))[k] by {
        lemma_taken_without(turns, i, k);
        if k < i {
            lemma_all_taken(turns, i, k);
            assert(rest[k] == turns[k]);
        } else {
            assert(rest[k] == turns[k + 1]);
            if k == i {
                assert(taken(turns, i + 1) == taken(turns, i));
            }
            lemma_taken(turns, i + 1, k + 1);
            lemma_taken(turns, k + 1, n);
            if !turns[k + 1] {
                lemma_taken_gap(turns, i, k + 1);
                lemma_taken(turns, k + 2, n);
            }
        }
    }
    assert(g =~= h.take(i) + h.skip(i + 1));
    assert(h =~= (h.take(i) + seq![h[i]]) + h.skip(i + 1));
    assert(h[i] == c[0]);
    trace::lemma_concat(m, h.take(i) + seq![h[i]], h.skip(i + 1));
    trace::lemma_concat(m, h.take(i), seq![h[i]]);
    trace::lemma_concat(m, h.take(i), h.skip(i + 1));
    let x = trace::after(m, h.take(i));
    trace::lemma_loads_store_nothing(x, seq![h[i]]);
    rest
}

/// Behind a turn of the consumer its accesses have moved on.
proof fn lemma_taken_gap(turns: Seq<bool>, i: int, j: int)
    requires
        0 <= i < j <= turns.len(),
        !turns[i],
    ensures
        j - taken(turns, j) >= i - taken(turns, i) + 1,
{
    assert(taken(turns, i + 1) == taken(turns, i));
    lemma_taken(turns, i + 1, j);
}

/// The same of several looks `a` before the accesses `b`.
pub proof fn lemma_without_looks(
    m: Memory,
    p: Seq<Access>,
    a: Seq<Access>,
    b: Seq<Access>,
    turns: Seq<bool>,
) -> (rest: Seq<bool>)
    requires
        observed(m, p, a + b, turns),
        forall|k: int| 0 <= k < a.len() ==> #[trigger] a[k] is Load,
    ensures
        observed(m, p, b, rest),
    decreases a.len(),
{
    if a.len() == 0 {
        assert(a + b =~= b);
        turns
    } else {
        assert((a + b)[0] == a[0]);
        let next = lemma_without_first(m, p, a + b, turns);
        assert((a + b).skip(1) =~= a.skip(1) + b);
        assert forall|k: int| 0 <= k < a.skip(1).len() implies #[trigger] a.skip(1)[k] is Load by {
            assert(a.skip(1)[k] == a[k + 1]);
        }
        lemma_without_looks(m, p, a.skip(1), b, next)
    }
}

} // verus!
