//! What holds of the audio ring as a whole.
//!
//! The functions of [`crate::audio`] say which accesses they make. The laws here
//! say what these accesses amount to when they meet in one memory: what a read
//! gives back of what was pushed, and why nothing that a producer does meanwhile
//! can spoil it.

use crate::audio;
use crate::audio::{ReadRequest, ReadSample};
use crate::bits;
use crate::format::AudioFormat;
use crate::interleave;
use crate::layout::{
    CAPACITY_OFFSET, CHANNELS_OFFSET, FORMAT_OFFSET, FRAME_BYTES_OFFSET, HEADER_SIZE_OFFSET,
    HEAD_OFFSET, MAGIC_OFFSET, SAMPLE_RATE_OFFSET, SEQ_OFFSET, SHM_HEADER_SIZE, SHM_MAGIC,
    SHM_VERSION, TAIL_OFFSET, VERSION_OFFSET,
};
use crate::trace;
use crate::trace::{Access, MemOrder, Memory};
use vstd::prelude::*;

verus! {

/// The ring in `m` holds the newest `cap` bytes of the stream `s`, and `tail`
/// counts all of them.
pub open spec fn holds(m: Memory, cap: int, s: Seq<u8>) -> bool {
    &&& s.len() <= u64::MAX
    &&& m[TAIL_OFFSET as int] == s.len()
    &&& forall|p: int|
        0 <= p < s.len() && s.len() - cap <= p ==> m[#[trigger] audio::ring_cell(cap, p)] == s[p]
}

/// The stream `s` with all that was pushed behind it: of each push what a ring of
/// `cap` bytes keeps.
pub open spec fn stream(cap: int, s: Seq<u8>, srcs: Seq<Seq<u8>>) -> Seq<u8>
    decreases srcs.len(),
{
    if srcs.len() == 0 {
        s
    } else {
        stream(cap, s, srcs.drop_last()) + audio::kept(srcs.last(), cap)
    }
}

/// The accesses of a producer that pushes `srcs`, one after the other, from `m`
/// on, with nobody else writing its counters.
pub open spec fn pushed(m: Memory, cap: int, srcs: Seq<Seq<u8>>) -> Seq<Access>
    decreases srcs.len(),
{
    if srcs.len() == 0 {
        Seq::empty()
    } else {
        let before = pushed(m, cap, srcs.drop_last());
        let now = trace::after(m, before);
        before + audio::push_trace(
            cap,
            now[TAIL_OFFSET as int] as u64,
            now[SEQ_OFFSET as int] as u64,
            srcs.last(),
        )
    }
}

/// Two positions less than a ring apart lie in different cells.
proof fn lemma_distinct_cells(cap: int, a: int, b: int)
    requires
        0 < cap,
        a < b < a + cap,
    ensures
        audio::ring_cell(cap, a) != audio::ring_cell(cap, b),
{
    audio::lemma_ring_index(a, cap, b - a);
    assert(a + (b - a) == b);
}

/// A ring of a positive size has no cell inside the header.
proof fn lemma_cell_behind_header(cap: int, p: int)
    requires
        0 < cap,
    ensures
        SHM_HEADER_SIZE <= audio::ring_cell(cap, p) < SHM_HEADER_SIZE + cap,
{
    vstd::arithmetic::div_mod::lemma_mod_bound(p, cap);
}

/// What the memory holds at every point of a push.
proof fn lemma_push_steps(m: Memory, cap: int, src: Seq<u8>, r: int)
    requires
        0 < cap,
        audio::kept(src, cap).len() > 0,
        0 <= m[SEQ_OFFSET as int],
        m[SEQ_OFFSET as int] + 2 <= u64::MAX,
        0 <= r <= audio::kept(src, cap).len() + 7,
    ensures
        ({
            let t = audio::push_trace(
                cap,
                m[TAIL_OFFSET as int] as u64,
                m[SEQ_OFFSET as int] as u64,
                src,
            );
            let n = audio::kept(src, cap).len() as int;
            let now = trace::after(m, t.take(r));
            &&& t.len() == n + 7
            &&& r <= 2 ==> now == m
            &&& 2 < r < n + 7 ==> now[SEQ_OFFSET as int] == m[SEQ_OFFSET as int] + 1
            &&& r == n + 7 ==> now[SEQ_OFFSET as int] == m[SEQ_OFFSET as int] + 2
            &&& r < n + 7 ==> match t[r] {
                Access::Store { at, .. } => {
                    &&& at == SEQ_OFFSET <==> r == 2 || r == n + 6
                    &&& at != HEAD_OFFSET
                    &&& at == SEQ_OFFSET || 2 < r < n + 7
                },
                _ => true,
            }
        }),
    decreases r,
{
    let t = audio::push_trace(cap, m[TAIL_OFFSET as int] as u64, m[SEQ_OFFSET as int] as u64, src);
    let n = audio::kept(src, cap).len() as int;
    if r < n + 7 {
        if 4 <= r < n + 4 {
            lemma_cell_behind_header(cap, m[TAIL_OFFSET as int] as u64 + (r - 4));
        }
    }
    if r > 0 {
        lemma_push_steps(m, cap, src, r - 1);
        trace::lemma_step(m, t, r - 1);
    } else {
        assert(t.take(0) =~= Seq::<Access>::empty());
    }
}

/// A push adds what the ring keeps of its bytes to the stream that the ring holds,
/// and leaves `seq` even and `head` alone.
pub proof fn push_extends_the_stream(m: Memory, cap: int, s: Seq<u8>, src: Seq<u8>)
    requires
        0 < cap,
        holds(m, cap, s),
        0 <= m[SEQ_OFFSET as int],
        m[SEQ_OFFSET as int] % 2 == 0,
        m[SEQ_OFFSET as int] + 2 <= u64::MAX,
        s.len() + audio::kept(src, cap).len() <= u64::MAX,
    ensures
        ({
            let t = audio::push_trace(
                cap,
                m[TAIL_OFFSET as int] as u64,
                m[SEQ_OFFSET as int] as u64,
                src,
            );
            let now = trace::after(m, t);
            &&& trace::undisturbed(m, t)
            &&& holds(now, cap, s + audio::kept(src, cap))
            &&& now[SEQ_OFFSET as int] % 2 == 0
            &&& m[SEQ_OFFSET as int] <= now[SEQ_OFFSET as int] <= m[SEQ_OFFSET as int] + 2
            &&& now[HEAD_OFFSET as int] == m[HEAD_OFFSET as int]
        }),
{
    let tail = m[TAIL_OFFSET as int] as u64;
    let seq = m[SEQ_OFFSET as int] as u64;
    let bytes = audio::kept(src, cap);
    let n = bytes.len() as int;
    let t = audio::push_trace(cap, tail, seq, src);
    let now = trace::after(m, t);
    if n == 0 {
        assert(s + bytes =~= s);
    } else {
        lemma_push_steps(m, cap, src, n + 7);
        assert(t.take(n + 7) =~= t);
        let enter = audio::push_enter(tail, seq);
        let stores = audio::ring_stores(cap, tail as int, bytes);
        let leave = audio::push_leave(tail, seq, n as u64);
        assert forall|i: int| 0 <= i < t.len() implies !trace::is_store_to(
            #[trigger] t[i],
            HEAD_OFFSET as int,
        ) by {
            lemma_push_steps(m, cap, src, i);
        }
        trace::lemma_left_alone(m, t, HEAD_OFFSET as int);
        assert(t[n + 4] == leave[0]);
        assert forall|i: int| n + 4 < i < t.len() implies !trace::is_store_to(
            #[trigger] t[i],
            TAIL_OFFSET as int,
        ) by {
            assert(t[i] == leave[i - (n + 4)]);
        }
        trace::lemma_stored_once(m, t, n + 4, TAIL_OFFSET as int, tail + n);
        let grown = s + bytes;
        assert forall|p: int| 0 <= p < grown.len() && grown.len() - cap <= p implies now[
            #[trigger] audio::ring_cell(cap, p)] == grown[p] by {
            let cell = audio::ring_cell(cap, p);
            lemma_cell_behind_header(cap, p);
            if p < s.len() {
                assert forall|i: int| 0 <= i < t.len() implies !trace::is_store_to(
                    #[trigger] t[i],
                    cell,
                ) by {
                    if 4 <= i < n + 4 {
                        lemma_distinct_cells(cap, p, tail + (i - 4));
                        assert(t[i] == stores[i - 4]);
                    } else if i < 4 {
                        assert(t[i] == enter[i]);
                    } else {
                        assert(t[i] == leave[i - (n + 4)]);
                    }
                }
                trace::lemma_left_alone(m, t, cell);
            } else {
                let k = p - s.len();
                assert(t[4 + k] == stores[k]);
                assert forall|i: int| 4 + k < i < t.len() implies !trace::is_store_to(
                    #[trigger] t[i],
                    cell,
                ) by {
                    if i < n + 4 {
                        lemma_distinct_cells(cap, p, tail + (i - 4));
                        assert(t[i] == stores[i - 4]);
                    } else {
                        assert(t[i] == leave[i - (n + 4)]);
                    }
                }
                trace::lemma_stored_once(m, t, 4 + k, cell, bytes[k] as int);
            }
        }
        lemma_only_first_two_load(m, t);
    }
}

/// A record whose only loads are its first two, both of what `m` holds, is
/// undisturbed.
pub proof fn lemma_only_first_two_load(m: Memory, t: Seq<Access>)
    requires
        t.len() >= 2,
        t[0] is Load,
        t[1] is Load,
        trace::agrees(m, t[0]),
        trace::agrees(m, t[1]),
        forall|i: int| 2 <= i < t.len() ==> !(#[trigger] t[i] is Load),
    ensures
        trace::undisturbed(m, t),
    decreases t.len(),
{
    if t.len() == 2 {
        assert(t.drop_last().drop_last() =~= Seq::<Access>::empty());
        assert(t.drop_last().last() == t[0]);
        assert(trace::undisturbed(m, t.drop_last().drop_last()));
        assert(trace::after(m, t.drop_last().drop_last()) == m);
        assert(trace::undisturbed(m, t.drop_last()));
        assert(trace::after(m, t.drop_last()) == m);
    } else {
        lemma_only_first_two_load(m, t.drop_last());
    }
}

/// A producer that pushes `srcs` leaves the stream with all of them behind it.
pub proof fn pushes_extend_the_stream(m: Memory, cap: int, s: Seq<u8>, srcs: Seq<Seq<u8>>)
    requires
        0 < cap,
        holds(m, cap, s),
        0 <= m[SEQ_OFFSET as int],
        m[SEQ_OFFSET as int] % 2 == 0,
        m[SEQ_OFFSET as int] + 2 * srcs.len() <= u64::MAX,
        stream(cap, s, srcs).len() <= u64::MAX,
    ensures
        ({
            let t = pushed(m, cap, srcs);
            let now = trace::after(m, t);
            &&& trace::undisturbed(m, t)
            &&& holds(now, cap, stream(cap, s, srcs))
            &&& now[SEQ_OFFSET as int] % 2 == 0
            &&& m[SEQ_OFFSET as int] <= now[SEQ_OFFSET as int] <= m[SEQ_OFFSET as int] + 2
                * srcs.len()
            &&& now[HEAD_OFFSET as int] == m[HEAD_OFFSET as int]
        }),
    decreases srcs.len(),
{
    if srcs.len() > 0 {
        let front = srcs.drop_last();
        pushes_extend_the_stream(m, cap, s, front);
        let before = pushed(m, cap, front);
        let mid = trace::after(m, before);
        push_extends_the_stream(mid, cap, stream(cap, s, front), srcs.last());
        trace::lemma_concat(
            m,
            before,
            audio::push_trace(
                cap,
                mid[TAIL_OFFSET as int] as u64,
                mid[SEQ_OFFSET as int] as u64,
                srcs.last(),
            ),
        );
    }
}

/// The memory after the producer's first `q` accesses.
spec fn at(m: Memory, cap: int, srcs: Seq<Seq<u8>>, q: int) -> Memory {
    trace::after(m, pushed(m, cap, srcs).take(q))
}

/// After a number of accesses that leaves `seq` even, the memory is that between
/// two pushes.
spec fn between_pushes(m: Memory, cap: int, srcs: Seq<Seq<u8>>, now: Memory) -> bool {
    exists|j: int|
        0 <= j <= srcs.len() && now == trace::after(m, #[trigger] pushed(m, cap, srcs.take(j)))
}

/// How a producer goes about: `seq` never falls, whatever else is written is
/// written while it is odd, and while it is even the memory is that between two
/// pushes.
proof fn lemma_discipline(m: Memory, cap: int, s: Seq<u8>, srcs: Seq<Seq<u8>>, q: int)
    requires
        0 < cap,
        holds(m, cap, s),
        0 <= m[SEQ_OFFSET as int],
        m[SEQ_OFFSET as int] % 2 == 0,
        m[SEQ_OFFSET as int] + 2 * srcs.len() <= u64::MAX,
        stream(cap, s, srcs).len() <= u64::MAX,
        0 <= q <= pushed(m, cap, srcs).len(),
    ensures
        ({
            let now = at(m, cap, srcs, q);
            let p = pushed(m, cap, srcs);
            &&& now[SEQ_OFFSET as int] % 2 == 0 ==> between_pushes(m, cap, srcs, now)
            &&& q < p.len() ==> {
                &&& now[SEQ_OFFSET as int] <= at(m, cap, srcs, q + 1)[SEQ_OFFSET as int]
                &&& match p[q] {
                    Access::Store { at: a, .. } => {
                        &&& a != HEAD_OFFSET
                        &&& a == SEQ_OFFSET ==> now[SEQ_OFFSET as int] < at(m, cap, srcs, q + 1)[
                        SEQ_OFFSET as int]
                        &&& a != SEQ_OFFSET ==> now[SEQ_OFFSET as int] % 2 == 1
                    },
                    _ => true,
                }
            }
        }),
    decreases srcs.len(),
{
    let p = pushed(m, cap, srcs);
    let now = at(m, cap, srcs, q);
    if srcs.len() == 0 {
        assert(p.take(q) =~= p);
        assert(srcs.take(0) =~= srcs);
        assert(now == trace::after(m, pushed(m, cap, srcs.take(0))));
    } else {
        let front = srcs.drop_last();
        let before = pushed(m, cap, front);
        let mid = trace::after(m, before);
        let src = srcs.last();
        let t = audio::push_trace(
            cap,
            mid[TAIL_OFFSET as int] as u64,
            mid[SEQ_OFFSET as int] as u64,
            src,
        );
        pushes_extend_the_stream(m, cap, s, front);
        let n = audio::kept(src, cap).len() as int;
        assert(p == before + t);
        if q < before.len() {
            lemma_discipline(m, cap, s, front, q);
            assert(p.take(q) =~= before.take(q));
            assert(p.take(q + 1) =~= before.take(q + 1));
            if now[SEQ_OFFSET as int] % 2 == 0 {
                let j = choose|j: int|
                    0 <= j <= front.len() && now == trace::after(
                        m,
                        #[trigger] pushed(m, cap, front.take(j)),
                    );
                assert(front.take(j) =~= srcs.take(j));
                assert(now == trace::after(m, pushed(m, cap, srcs.take(j))));
            }
        } else {
            let r = q - before.len();
            assert(p.take(q) =~= before + t.take(r));
            trace::lemma_concat(m, before, t.take(r));
            assert(now == trace::after(mid, t.take(r)));
            if n == 0 {
                assert(t.take(r) =~= t);
                assert(srcs.take(srcs.len() as int) =~= srcs);
                assert(now == trace::after(m, pushed(m, cap, srcs.take(srcs.len() as int))));
            } else {
                lemma_push_steps(mid, cap, src, r);
                if r < t.len() {
                    assert(p.take(q + 1) =~= before + t.take(r + 1));
                    trace::lemma_concat(m, before, t.take(r + 1));
                    lemma_push_steps(mid, cap, src, r + 1);
                    assert(p[q] == t[r]);
                }
                if r <= 2 {
                    assert(srcs.take(srcs.len() - 1) =~= front);
                    assert(now == trace::after(m, pushed(m, cap, srcs.take(srcs.len() - 1))));
                } else if r == t.len() {
                    assert(t.take(r) =~= t);
                    trace::lemma_concat(m, before, t);
                    assert(srcs.take(srcs.len() as int) =~= srcs);
                    assert(now == trace::after(m, pushed(m, cap, srcs.take(srcs.len() as int))));
                }
            }
        }
    }
}

/// `seq` does not fall between two points of the producer's work.
proof fn lemma_seq_rises(
    m: Memory,
    cap: int,
    s: Seq<u8>,
    srcs: Seq<Seq<u8>>,
    q0: int,
    q1: int,
)
    requires
        0 < cap,
        holds(m, cap, s),
        0 <= m[SEQ_OFFSET as int],
        m[SEQ_OFFSET as int] % 2 == 0,
        m[SEQ_OFFSET as int] + 2 * srcs.len() <= u64::MAX,
        stream(cap, s, srcs).len() <= u64::MAX,
        0 <= q0 <= q1 <= pushed(m, cap, srcs).len(),
    ensures
        at(m, cap, srcs, q0)[SEQ_OFFSET as int] <= at(m, cap, srcs, q1)[SEQ_OFFSET as int],
    decreases q1,
{
    if q0 < q1 {
        lemma_seq_rises(m, cap, s, srcs, q0, q1 - 1);
        lemma_discipline(m, cap, s, srcs, q1 - 1);
    }
}

/// Between two points of the producer's work at which `seq` is even and the same,
/// nothing is written.
proof fn lemma_quiet(m: Memory, cap: int, s: Seq<u8>, srcs: Seq<Seq<u8>>, q0: int, q: int, q1: int)
    requires
        0 < cap,
        holds(m, cap, s),
        0 <= m[SEQ_OFFSET as int],
        m[SEQ_OFFSET as int] % 2 == 0,
        m[SEQ_OFFSET as int] + 2 * srcs.len() <= u64::MAX,
        stream(cap, s, srcs).len() <= u64::MAX,
        0 <= q0 <= q <= q1 <= pushed(m, cap, srcs).len(),
        at(m, cap, srcs, q0)[SEQ_OFFSET as int] == at(m, cap, srcs, q1)[SEQ_OFFSET as int],
        at(m, cap, srcs, q0)[SEQ_OFFSET as int] % 2 == 0,
    ensures
        at(m, cap, srcs, q) == at(m, cap, srcs, q0),
    decreases q,
{
    if q0 < q {
        lemma_quiet(m, cap, s, srcs, q0, q - 1, q1);
        lemma_discipline(m, cap, s, srcs, q - 1);
        lemma_seq_rises(m, cap, s, srcs, q, q1);
        trace::lemma_step(m, pushed(m, cap, srcs), q - 1);
    }
}

/// The pushes up to some point give a stream that the later ones only extend.
proof fn lemma_stream_prefix(cap: int, s: Seq<u8>, srcs: Seq<Seq<u8>>, j: int)
    requires
        0 <= j <= srcs.len(),
    ensures
        stream(cap, s, srcs.take(j)).len() <= stream(cap, s, srcs).len(),
        stream(cap, s, srcs).take(stream(cap, s, srcs.take(j)).len() as int) == stream(
            cap,
            s,
            srcs.take(j),
        ),
    decreases srcs.len(),
{
    if j == srcs.len() {
        assert(srcs.take(j) =~= srcs);
        assert(stream(cap, s, srcs).take(stream(cap, s, srcs).len() as int) =~= stream(
            cap,
            s,
            srcs,
        ));
    } else {
        let front = srcs.drop_last();
        assert(front.take(j) =~= srcs.take(j));
        lemma_stream_prefix(cap, s, front, j);
        let a = stream(cap, s, srcs.take(j)).len() as int;
        assert(stream(cap, s, srcs).take(a) =~= stream(cap, s, front).take(a));
    }
}

/// Where a read starts and what it takes lie within what has been written.
proof fn lemma_request(q: ReadRequest, tail: int, head: int)
    requires
        0 < q.frame,
        0 <= q.room,
        0 <= q.max_latency,
        0 <= q.cap,
        0 <= tail,
        0 <= head,
    ensures
        0 <= q.from(tail, head) <= tail,
        0 <= q.want(tail, head),
        q.from(tail, head) + q.want(tail, head) <= tail,
        q.want(tail, head) <= q.room,
        q.want(tail, head) % q.frame == 0,
        tail - q.from(tail, head) <= q.max_latency,
        tail - q.from(tail, head) <= q.cap,
        head <= tail ==> head <= q.from(tail, head),
{
    audio::lemma_whole_frames(q.max_latency, q.frame);
    audio::lemma_whole_frames(q.cap, q.frame);
    audio::lemma_whole_frames(q.room, q.frame);
    let there = tail - q.from(tail, head);
    let room = audio::whole_frames(q.room, q.frame);
    audio::lemma_whole_frames(
        if room < there {
            room
        } else {
            there
        },
        q.frame,
    );
}

/// The loads of an accepted attempt, all of which found the memory `m`, got the
/// bytes of the stream that the ring in `m` holds.
proof fn lemma_reads_stream(m: Memory, cap: int, s: Seq<u8>, q: ReadRequest, o: ReadSample)
    requires
        0 < cap,
        holds(m, cap, s),
        q.cap == cap,
        0 < q.frame,
        0 <= q.room,
        0 <= q.max_latency,
        o.accepted(q),
        o.complete(q),
        o.tail == m[TAIL_OFFSET as int],
        o.tail_after == m[TAIL_OFFSET as int],
        forall|k: int|
            0 <= k < o.bytes.len() ==> m[#[trigger] audio::ring_cell(cap, o.from(q) + k)]
                == o.bytes[k],
    ensures
        o.from(q) + o.want(q) <= s.len(),
        s.len() - cap <= o.from(q),
        o.bytes == s.subrange(o.from(q), o.from(q) + o.want(q)),
{
    lemma_request(q, o.tail as int, o.head as int);
    let from = o.from(q);
    assert forall|k: int| 0 <= k < o.bytes.len() implies o.bytes[k] == #[trigger] s.subrange(
        from,
        from + o.want(q),
    )[k] by {
        assert(m[audio::ring_cell(cap, from + k)] == s[from + k]);
    }
    assert(o.bytes =~= s.subrange(from, from + o.want(q)));
}

/// A read that nothing disturbs delivers the bytes of the stream, from where it
/// starts as many as it takes, and moves `head` behind them.
pub proof fn read_gives_back_the_stream(
    m: Memory,
    cap: int,
    s: Seq<u8>,
    q: ReadRequest,
    o: ReadSample,
)
    requires
        0 < cap,
        holds(m, cap, s),
        q.cap == cap,
        0 < q.frame,
        0 <= q.room,
        0 <= q.max_latency,
        o.accepted(q),
        o.complete(q),
        trace::undisturbed(m, o.trace(q)),
    ensures
        o.bytes == s.subrange(o.from(q), o.from(q) + o.want(q)),
        o.tail == s.len(),
        o.head == m[HEAD_OFFSET as int],
        holds(trace::after(m, o.trace(q)), cap, s),
        trace::after(m, o.trace(q))[HEAD_OFFSET as int] == o.from(q) + o.want(q),
        trace::after(m, o.trace(q))[SEQ_OFFSET as int] == m[SEQ_OFFSET as int],
{
    let none = Seq::<Access>::empty();
    let t = o.trace(q);
    let n = o.bytes.len() as int;
    let turns = Seq::new(t.len(), |i: int| false);
    lemma_request(q, o.tail as int, o.head as int);
    lemma_alone(m, t, t.len() as int);
    lemma_accepted_loads(m, none, turns, q, o);
    assert forall|k: int| 0 <= k < o.bytes.len() implies m[#[trigger] audio::ring_cell(
        cap,
        o.from(q) + k,
    )] == o.bytes[k] by {
        assert(none.take(0) =~= none);
        assert(interleave::progress(turns, 3 + k) == 0) by {
            interleave::lemma_progress(none, t, turns, 3 + k, 3 + k);
        }
    }
    interleave::lemma_progress(none, t, turns, 1, 1);
    interleave::lemma_progress(none, t, turns, 2, 2);
    interleave::lemma_progress(none, t, turns, n + 3, n + 4);
    interleave::lemma_progress(none, t, turns, n + 4, n + 4);
    assert(none.take(0) =~= none);
    lemma_reads_stream(m, cap, s, q, o);
    let now = trace::after(m, t);
    lemma_read_stores_head_only(q, o);
    trace::lemma_left_alone(m, t, TAIL_OFFSET as int);
    trace::lemma_left_alone(m, t, SEQ_OFFSET as int);
    assert forall|p: int| 0 <= p < s.len() && s.len() - cap <= p implies now[
        #[trigger] audio::ring_cell(cap, p)] == s[p] by {
        lemma_cell_behind_header(cap, p);
        trace::lemma_left_alone(m, t, audio::ring_cell(cap, p));
    }
    trace::lemma_stored_once(
        m,
        t,
        t.len() - 1,
        HEAD_OFFSET as int,
        ((o.from(q) + o.want(q)) as u64) as int,
    );
}

/// Merging with nobody changes nothing.
proof fn lemma_alone(m: Memory, t: Seq<Access>, n: int)
    requires
        0 <= n <= t.len(),
    ensures
        ({
            let turns = Seq::new(t.len(), |i: int| false);
            &&& interleave::taken(turns, n) == 0
            &&& n == t.len() ==> interleave::lets_finish(Seq::empty(), t, turns)
            &&& n == t.len() ==> interleave::merged(Seq::empty(), t, turns) == t
        }),
    decreases n,
{
    let turns = Seq::new(t.len(), |i: int| false);
    if n > 0 {
        lemma_alone(m, t, n - 1);
    }
    if n == t.len() {
        assert forall|i: int| 0 <= i < t.len() implies #[trigger] interleave::merged(
            Seq::empty(),
            t,
            turns,
        )[i] == t[i] by {
            lemma_none_taken(turns, i);
        }
        assert(interleave::merged(Seq::empty(), t, turns) =~= t);
    }
}

proof fn lemma_none_taken(turns: Seq<bool>, i: int)
    requires
        0 <= i <= turns.len(),
        forall|k: int| 0 <= k < turns.len() ==> !#[trigger] turns[k],
    ensures
        interleave::taken(turns, i) == 0,
    decreases i,
{
    if i > 0 {
        lemma_none_taken(turns, i - 1);
    }
}

/// An attempt stores to `head` and nothing else, and that last.
proof fn lemma_read_stores_head_only(q: ReadRequest, o: ReadSample)
    requires
        o.complete(q),
    ensures
        forall|a: int| a != HEAD_OFFSET ==> #[trigger] trace::leaves_alone(o.trace(q), a),
        o.started() ==> trace::leaves_alone(o.trace(q).take(2), HEAD_OFFSET as int),
{
    assert forall|a: int, i: int|
        a != HEAD_OFFSET && 0 <= i < o.trace(q).len() implies !#[trigger] trace::is_store_to(
        o.trace(q)[i],
        a,
    ) by {}
}

/// What the loads of an accepted attempt found, while a producer makes `p`: the
/// producer's memory at the points of its work that the loads fell on.
proof fn lemma_accepted_loads(
    m: Memory,
    p: Seq<Access>,
    turns: Seq<bool>,
    q: ReadRequest,
    o: ReadSample,
)
    requires
        0 < q.cap,
        o.accepted(q),
        o.complete(q),
        interleave::observed(m, p, o.trace(q), turns),
        trace::leaves_alone(p, HEAD_OFFSET as int),
    ensures
        ({
            let n = o.bytes.len() as int;
            &&& o.trace(q).len() == n + 6
            &&& trace::after(m, p.take(interleave::progress(turns, 0)))[SEQ_OFFSET as int] == o.seq
            &&& trace::after(m, p.take(interleave::progress(turns, 1)))[TAIL_OFFSET as int]
                == o.tail
            &&& m[HEAD_OFFSET as int] == o.head
            &&& forall|k: int|
                0 <= k < n ==> trace::after(m, p.take(interleave::progress(turns, 3 + k)))[
                #[trigger] audio::ring_cell(q.cap, o.from(q) + k)] == o.bytes[k]
            &&& trace::after(m, p.take(interleave::progress(turns, 3 + n)))[TAIL_OFFSET as int]
                == o.tail_after
            &&& trace::after(m, p.take(interleave::progress(turns, 4 + n)))[SEQ_OFFSET as int]
                == o.seq_after
        }),
{
    let t = o.trace(q);
    let n = o.bytes.len() as int;
    lemma_read_stores_head_only(q, o);
    assert(t[0] == o.looks_before()[0]);
    assert(t[1] == o.looks_before()[1]);
    assert(t[2] == o.looks_before()[2]);
    assert(t[3 + n] == o.looks_after()[0]);
    assert(t[4 + n] == o.looks_after()[1]);
    interleave::lemma_seen(m, p, t, turns, 0, SEQ_OFFSET as int, o.seq as int);
    interleave::lemma_seen(m, p, t, turns, 1, TAIL_OFFSET as int, o.tail as int);
    interleave::lemma_seen_own(m, p, t, turns, 2, HEAD_OFFSET as int, o.head as int);
    interleave::lemma_seen(m, p, t, turns, 3 + n, TAIL_OFFSET as int, o.tail_after as int);
    interleave::lemma_seen(m, p, t, turns, 4 + n, SEQ_OFFSET as int, o.seq_after as int);
    assert forall|k: int| 0 <= k < n implies trace::after(
        m,
        p.take(interleave::progress(turns, 3 + k)),
    )[#[trigger] audio::ring_cell(q.cap, o.from(q) + k)] == o.bytes[k] by {
        let cell = audio::ring_cell(q.cap, o.from(q) + k);
        lemma_cell_behind_header(q.cap, o.from(q) + k);
        assert(t[3 + k] == audio::ring_loads(q.cap, o.from(q), o.bytes)[k]);
        interleave::lemma_seen(m, p, t, turns, 3 + k, cell, o.bytes[k] as int);
    }
}

/// No torn read, no silent overrun. While a producer pushes `srcs` onto the stream
/// `s`, and whatever the order in which its accesses and those of a read fall, an
/// accepted read delivers exactly the bytes of the stream from where it starts:
/// never a mixture of old and new ones.
#[verifier::spinoff_prover]
#[verifier::rlimit(30)]
pub proof fn accepted_reads_are_never_torn(
    m: Memory,
    cap: int,
    s: Seq<u8>,
    srcs: Seq<Seq<u8>>,
    turns: Seq<bool>,
    q: ReadRequest,
    o: ReadSample,
)
    requires
        0 < cap,
        holds(m, cap, s),
        0 <= m[SEQ_OFFSET as int],
        m[SEQ_OFFSET as int] % 2 == 0,
        m[SEQ_OFFSET as int] + 2 * srcs.len() <= u64::MAX,
        stream(cap, s, srcs).len() <= u64::MAX,
        q.cap == cap,
        0 < q.frame,
        0 <= q.room,
        0 <= q.max_latency,
        o.complete(q),
        o.accepted(q),
        interleave::observed(m, pushed(m, cap, srcs), o.trace(q), turns),
    ensures
        o.from(q) + o.want(q) <= o.tail <= stream(cap, s, srcs).len(),
        o.bytes == stream(cap, s, srcs).subrange(o.from(q), o.from(q) + o.want(q)),
        o.head == m[HEAD_OFFSET as int],
        exists|j: int|
            0 <= j <= srcs.len() && o.tail == (#[trigger] stream(cap, s, srcs.take(j))).len(),
{
    let p = pushed(m, cap, srcs);
    let n = o.bytes.len() as int;
    let t = o.trace(q);
    assert forall|i: int| 0 <= i < p.len() implies !trace::is_store_to(
        #[trigger] p[i],
        HEAD_OFFSET as int,
    ) by {
        lemma_discipline(m, cap, s, srcs, i);
    }
    lemma_accepted_loads(m, p, turns, q, o);
    let q0 = interleave::progress(turns, 0);
    let q1 = interleave::progress(turns, 4 + n);
    interleave::lemma_progress(p, t, turns, 0, 4 + n);
    lemma_discipline(m, cap, s, srcs, q0);
    let now = at(m, cap, srcs, q0);
    assert(at(m, cap, srcs, q1)[SEQ_OFFSET as int] == o.seq_after);
    assert forall|i: int| 0 <= i <= 4 + n implies trace::after(
        m,
        p.take(#[trigger] interleave::progress(turns, i)),
    ) == now by {
        interleave::lemma_progress(p, t, turns, 0, i);
        interleave::lemma_progress(p, t, turns, i, 4 + n);
        lemma_quiet(m, cap, s, srcs, q0, interleave::progress(turns, i), q1);
    }
    let j = choose|j: int|
        0 <= j <= srcs.len() && now == trace::after(m, #[trigger] pushed(m, cap, srcs.take(j)));
    let sj = stream(cap, s, srcs.take(j));
    lemma_stream_prefix(cap, s, srcs, j);
    pushes_extend_the_stream(m, cap, s, srcs.take(j));
    assert(holds(now, cap, sj));
    assert forall|k: int| 0 <= k < o.bytes.len() implies now[#[trigger] audio::ring_cell(
        cap,
        o.from(q) + k,
    )] == o.bytes[k] by {
        assert(trace::after(m, p.take(interleave::progress(turns, 3 + k))) == now);
    }
    lemma_reads_stream(now, cap, sj, q, o);
    lemma_request(q, o.tail as int, o.head as int);
    let a = o.from(q);
    let b = o.from(q) + o.want(q);
    assert(stream(cap, s, srcs).subrange(a, b) =~= stream(cap, s, srcs).take(
        sj.len() as int,
    ).subrange(a, b));
}

/// What initializing leaves in the header: the configuration, the format unset,
/// the counters zero.
pub proof fn init_leaves_a_fresh_ring(m: Memory, cap: usize)
    requires
        0 < cap,
    ensures
        ({
            let now = trace::after(m, audio::init_trace(cap));
            &&& now[MAGIC_OFFSET as int] == SHM_MAGIC
            &&& now[VERSION_OFFSET as int] == SHM_VERSION
            &&& now[HEADER_SIZE_OFFSET as int] == SHM_HEADER_SIZE
            &&& now[CAPACITY_OFFSET as int] == cap
            &&& now[SAMPLE_RATE_OFFSET as int] == 0
            &&& now[CHANNELS_OFFSET as int] == 0
            &&& now[FORMAT_OFFSET as int] == 0
            &&& now[FRAME_BYTES_OFFSET as int] == 0
            &&& now[HEAD_OFFSET as int] == 0
            &&& now[SEQ_OFFSET as int] == 0
            &&& holds(now, cap as int, Seq::empty())
        }),
{
    let t = audio::init_trace(cap);
    trace::lemma_stored_once(m, t, 0, HEADER_SIZE_OFFSET as int, SHM_HEADER_SIZE as int);
    trace::lemma_stored_once(m, t, 1, CAPACITY_OFFSET as int, cap as int);
    trace::lemma_stored_once(m, t, 2, SAMPLE_RATE_OFFSET as int, 0);
    trace::lemma_stored_once(m, t, 3, CHANNELS_OFFSET as int, 0);
    trace::lemma_stored_once(m, t, 4, FORMAT_OFFSET as int, 0);
    trace::lemma_stored_once(m, t, 5, FRAME_BYTES_OFFSET as int, 0);
    trace::lemma_stored_once(m, t, 6, HEAD_OFFSET as int, 0);
    trace::lemma_stored_once(m, t, 7, TAIL_OFFSET as int, 0);
    trace::lemma_stored_once(m, t, 8, SEQ_OFFSET as int, 0);
    trace::lemma_stored_once(m, t, 9, VERSION_OFFSET as int, SHM_VERSION as int);
    trace::lemma_stored_once(m, t, 10, MAGIC_OFFSET as int, SHM_MAGIC as int);
}

/// A region that was initialized can be attached to, and gives the ring size that
/// it was initialized with.
pub proof fn attach_accepts_an_initialized_region(
    m: Memory,
    cap: usize,
    payload_len: nat,
    magic: u64,
    version: u32,
    header_size: u32,
    capacity: u64,
)
    requires
        bits::power_of_two(cap as int),
        0 < cap <= payload_len,
        trace::undisturbed(
            trace::after(m, audio::init_trace(cap)),
            audio::attach_trace(payload_len, magic, version, header_size, capacity),
        ),
    ensures
        audio::attach_fault(payload_len, magic, version, header_size, capacity) is None,
        capacity == cap,
{
    let now = trace::after(m, audio::init_trace(cap));
    let t = audio::attach_trace(payload_len, magic, version, header_size, capacity);
    init_leaves_a_fresh_ring(m, cap);
    trace::lemma_looks(now, t, 0);
    trace::lemma_looks(now, t, 1);
    trace::lemma_looks(now, t, 2);
    trace::lemma_looks(now, t, 3);
}

/// A region without the magic cannot be attached to.
pub proof fn attach_refuses_an_uninitialized_region(
    m: Memory,
    payload_len: nat,
    magic: u64,
    version: u32,
    header_size: u32,
    capacity: u64,
)
    requires
        m[MAGIC_OFFSET as int] != SHM_MAGIC,
        trace::undisturbed(
            m,
            audio::attach_trace(payload_len, magic, version, header_size, capacity),
        ),
    ensures
        audio::attach_fault(payload_len, magic, version, header_size, capacity) is Some,
{
    let t = audio::attach_trace(payload_len, magic, version, header_size, capacity);
    if payload_len > 0 {
        trace::lemma_looks(m, t, 0);
    }
}

/// Attaching while the region is being initialized either finds it uninitialized
/// or finds all of it: the magic comes last.
pub proof fn attach_during_init_sees_all_or_nothing(
    m: Memory,
    cap: usize,
    payload_len: nat,
    turns: Seq<bool>,
    magic: u64,
    version: u32,
    header_size: u32,
    capacity: u64,
)
    requires
        bits::power_of_two(cap as int),
        0 < cap <= payload_len,
        m[MAGIC_OFFSET as int] != SHM_MAGIC,
        interleave::observed(
            m,
            audio::init_trace(cap),
            audio::attach_trace(payload_len, magic, version, header_size, capacity),
            turns,
        ),
    ensures
        magic != SHM_MAGIC || {
            &&& audio::attach_fault(payload_len, magic, version, header_size, capacity) is None
            &&& capacity == cap
        },
{
    if magic == SHM_MAGIC {
        let p = audio::init_trace(cap);
        let c = audio::attach_trace(payload_len, magic, version, header_size, capacity);
        init_leaves_a_fresh_ring(m, cap);
        trace::lemma_loads_store_nothing(m, c);
        let latch = MAGIC_OFFSET as int;
        interleave::lemma_latch(m, p, c, turns, latch, magic as int, 1);
        interleave::lemma_latch(m, p, c, turns, latch, magic as int, 2);
        interleave::lemma_latch(m, p, c, turns, latch, magic as int, 3);
    }
}

/// What publishing a format leaves in the header.
pub proof fn lemma_format_fields(m: Memory, fmt: AudioFormat)
    ensures
        ({
            let now = trace::after(m, audio::set_format_trace(fmt));
            &&& now[SAMPLE_RATE_OFFSET as int] == fmt.sample_rate
            &&& now[CHANNELS_OFFSET as int] == fmt.channels
            &&& now[FORMAT_OFFSET as int] == fmt.format.code()
            &&& now[FRAME_BYTES_OFFSET as int] == fmt.frame_bytes
        }),
{
    let t = audio::set_format_trace(fmt);
    trace::lemma_stored_once(m, t, 0, SAMPLE_RATE_OFFSET as int, fmt.sample_rate as int);
    trace::lemma_stored_once(m, t, 1, CHANNELS_OFFSET as int, fmt.channels as int);
    trace::lemma_stored_once(m, t, 2, FORMAT_OFFSET as int, fmt.format.code() as int);
    trace::lemma_stored_once(m, t, 3, FRAME_BYTES_OFFSET as int, fmt.frame_bytes as int);
}

/// No format is seen in a region that was just initialized.
pub proof fn no_format_before_one_is_published(
    m: Memory,
    cap: usize,
    frame_bytes: u32,
    code: u32,
    sample_rate: u32,
    channels: u32,
)
    requires
        0 < cap,
        trace::undisturbed(
            trace::after(m, audio::init_trace(cap)),
            audio::format_trace(frame_bytes, code, sample_rate, channels),
        ),
    ensures
        AudioFormat::of_fields(frame_bytes, code, sample_rate, channels) is None,
{
    init_leaves_a_fresh_ring(m, cap);
    trace::lemma_looks(
        trace::after(m, audio::init_trace(cap)),
        audio::format_trace(frame_bytes, code, sample_rate, channels),
        0,
    );
}

/// A published format is read back as it was published.
pub proof fn format_reads_back(
    m: Memory,
    fmt: AudioFormat,
    frame_bytes: u32,
    code: u32,
    sample_rate: u32,
    channels: u32,
)
    requires
        fmt.frame_bytes != 0,
        trace::undisturbed(
            trace::after(m, audio::set_format_trace(fmt)),
            audio::format_trace(frame_bytes, code, sample_rate, channels),
        ),
    ensures
        AudioFormat::of_fields(frame_bytes, code, sample_rate, channels) == Some(fmt),
{
    let now = trace::after(m, audio::set_format_trace(fmt));
    let t = audio::format_trace(frame_bytes, code, sample_rate, channels);
    lemma_format_fields(m, fmt);
    crate::format::sample_format_round_trips(fmt.format, code);
    trace::lemma_looks(now, t, 0);
    trace::lemma_looks(now, t, 1);
    trace::lemma_looks(now, t, 2);
    trace::lemma_looks(now, t, 3);
}

/// Reading the format while it is being published gives all of it or none: the
/// frame size comes last and is looked at first.
pub proof fn format_is_seen_whole_or_not_at_all(
    m: Memory,
    fmt: AudioFormat,
    turns: Seq<bool>,
    frame_bytes: u32,
    code: u32,
    sample_rate: u32,
    channels: u32,
)
    requires
        m[FRAME_BYTES_OFFSET as int] == 0,
        interleave::observed(
            m,
            audio::set_format_trace(fmt),
            audio::format_trace(frame_bytes, code, sample_rate, channels),
            turns,
        ),
    ensures
        ({
            let seen = AudioFormat::of_fields(frame_bytes, code, sample_rate, channels);
            seen is None || seen == Some(fmt)
        }),
{
    if frame_bytes != 0 {
        let p = audio::set_format_trace(fmt);
        let c = audio::format_trace(frame_bytes, code, sample_rate, channels);
        lemma_format_fields(m, fmt);
        trace::lemma_loads_store_nothing(m, c);
        crate::format::sample_format_round_trips(fmt.format, code);
        let latch = FRAME_BYTES_OFFSET as int;
        interleave::lemma_latch(m, p, c, turns, latch, frame_bytes as int, 0);
        interleave::lemma_latch(m, p, c, turns, latch, frame_bytes as int, 1);
        interleave::lemma_latch(m, p, c, turns, latch, frame_bytes as int, 2);
        interleave::lemma_latch(m, p, c, turns, latch, frame_bytes as int, 3);
    }
}

/// A read takes whole frames, never more than there is room for or than has been
/// written, never reaches back to what the ring has lost, and never leaves more
/// backlog than the caller puts up with. `head` moves forward and stays behind `tail`.
pub proof fn reads_are_whole_and_timely(q: ReadRequest, tail: int, head: int)
    requires
        0 <= q.cap,
        0 < q.frame,
        0 <= q.room,
        0 <= q.max_latency,
        0 <= tail,
        0 <= head,
    ensures
        q.want(tail, head) % q.frame == 0,
        0 <= q.want(tail, head) <= q.room,
        0 <= q.from(tail, head),
        q.from(tail, head) + q.want(tail, head) <= tail,
        tail - q.from(tail, head) <= q.max_latency,
        tail - q.from(tail, head) <= q.cap,
        head <= tail ==> head <= q.from(tail, head),
        head >= tail ==> q.want(tail, head) == 0,
{
    lemma_request(q, tail, head);
    if head >= tail {
        vstd::arithmetic::div_mod::lemma_div_basics(q.frame);
        audio::lemma_whole_frames(0, q.frame);
        audio::lemma_whole_frames(q.max_latency, q.frame);
        audio::lemma_whole_frames(q.cap, q.frame);
    }
}

/// A backlog that the caller puts up with and that the ring still holds loses no byte:
/// the read starts at `head`, wherever that stands between the frames.
pub proof fn reads_within_the_budget_skip_nothing(q: ReadRequest, tail: int, head: int)
    requires
        0 < q.frame,
        head <= tail,
        tail - head <= q.cap,
        tail - head <= audio::whole_frames(q.max_latency, q.frame),
    ensures
        q.from(tail, head) == head,
{
}

/// Of a backlog beyond the budget exactly the oldest bytes are skipped: those that
/// lie before the newest whole frames within the budget, if the ring holds these.
pub proof fn reads_beyond_the_budget_skip_the_oldest(q: ReadRequest, tail: int, head: int)
    requires
        0 < q.frame,
        head <= tail,
        tail - head > audio::whole_frames(q.max_latency, q.frame),
        audio::whole_frames(q.max_latency, q.frame) <= q.cap,
    ensures
        q.from(tail, head) == tail - audio::whole_frames(q.max_latency, q.frame),
{
}

/// A read with patience for more than the ring holds, and with more than that waiting,
/// starts at the oldest whole frame that is still there.
pub proof fn late_reads_start_at_what_is_left(q: ReadRequest, tail: int, head: int)
    requires
        0 <= q.cap <= q.max_latency,
        0 < q.frame,
        0 <= head,
        head + q.cap < tail,
    ensures
        q.from(tail, head) == tail - audio::whole_frames(q.cap, q.frame),
        q.cap - q.frame < tail - q.from(tail, head) <= q.cap,
{
    audio::lemma_whole_frames(q.cap, q.frame);
    audio::lemma_whole_frames(q.max_latency, q.frame);
    let budget = audio::whole_frames(q.max_latency, q.frame);
    vstd::arithmetic::div_mod::lemma_div_is_ordered(q.cap, q.max_latency, q.frame);
    if budget <= q.cap {
        vstd::arithmetic::div_mod::lemma_div_is_ordered(budget, q.cap, q.frame);
        vstd::arithmetic::div_mod::lemma_div_by_multiple(q.max_latency / q.frame, q.frame);
    }
}

/// If both counters stand between frames, so does the place where a read starts
/// and the place where it ends: no frame is ever split.
pub proof fn reads_keep_to_frame_boundaries(q: ReadRequest, tail: int, head: int)
    requires
        0 <= q.cap,
        0 < q.frame,
        0 <= q.room,
        0 <= q.max_latency,
        0 <= tail,
        0 <= head,
        tail % q.frame == 0,
        head % q.frame == 0,
    ensures
        q.from(tail, head) % q.frame == 0,
        (q.from(tail, head) + q.want(tail, head)) % q.frame == 0,
{
    lemma_request(q, tail, head);
    audio::lemma_whole_frames(q.max_latency, q.frame);
    audio::lemma_whole_frames(q.cap, q.frame);
    let budget = audio::whole_frames(q.max_latency, q.frame);
    let left = audio::whole_frames(q.cap, q.frame);
    vstd::arithmetic::div_mod::lemma_sub_mod_noop(tail, budget, q.frame);
    vstd::arithmetic::div_mod::lemma_sub_mod_noop(tail, left, q.frame);
    vstd::arithmetic::div_mod::lemma_add_mod_noop(
        q.from(tail, head),
        q.want(tail, head),
        q.frame,
    );
    vstd::arithmetic::div_mod::lemma_small_mod(0, q.frame as nat);
}

/// A push of whole frames leaves `tail` between frames, if it fits the ring or the
/// ring is a whole number of frames.
pub proof fn pushes_keep_to_frame_boundaries(cap: int, frame: int, s: Seq<u8>, src: Seq<u8>)
    requires
        0 < frame,
        0 < cap,
        s.len() % frame as nat == 0,
        src.len() % frame as nat == 0,
        src.len() <= cap || cap % frame == 0,
    ensures
        (s + audio::kept(src, cap)).len() % frame as nat == 0,
{
    vstd::arithmetic::div_mod::lemma_add_mod_noop(
        s.len() as int,
        audio::kept(src, cap).len() as int,
        frame,
    );
    vstd::arithmetic::div_mod::lemma_small_mod(0, frame as nat);
}

/// An attempt that nothing disturbs is accepted exactly if the producer is at rest,
/// however much is waiting: what the ring has lost is passed over.
pub proof fn quiet_attempts_are_accepted(
    m: Memory,
    cap: int,
    q: ReadRequest,
    o: ReadSample,
)
    requires
        0 < cap,
        q.cap == cap,
        0 < q.frame,
        0 <= q.room,
        0 <= q.max_latency,
        o.complete(q),
        trace::undisturbed(m, o.trace(q)),
    ensures
        o.accepted(q) <==> m[SEQ_OFFSET as int] % 2 == 0,
        o.started() ==> o.tail == m[TAIL_OFFSET as int] && o.head == m[HEAD_OFFSET as int],
{
    let t = o.trace(q);
    trace::lemma_load_agrees(m, t, 0);
    assert(t.take(0) =~= Seq::<Access>::empty());
    assert(t[0] == o.looks_before()[0]);
    if o.started() {
        let n = o.bytes.len() as int;
        lemma_request(q, o.tail as int, o.head as int);
        lemma_read_stores_head_only(q, o);
        assert(t[1] == o.looks_before()[1]);
        assert(t[2] == o.looks_before()[2]);
        assert(t[n + 3] == o.looks_after()[0]);
        assert(t[n + 4] == o.looks_after()[1]);
        trace::lemma_load_agrees(m, t, 1);
        trace::lemma_load_agrees(m, t, 2);
        trace::lemma_load_agrees(m, t, n + 3);
        trace::lemma_load_agrees(m, t, n + 4);
        assert forall|i: int, k: int|
            0 <= i <= n + 4 && 0 <= k < i implies #[trigger] t.take(i)[k] is Load by {}
        trace::lemma_loads_store_nothing(m, t.take(1));
        trace::lemma_loads_store_nothing(m, t.take(2));
        trace::lemma_loads_store_nothing(m, t.take(n + 3));
        trace::lemma_loads_store_nothing(m, t.take(n + 4));
    }
}

/// What was pushed into a drained ring is read back, byte for byte, by a read with
/// room and patience for it.
pub proof fn push_then_read_gives_back(
    m: Memory,
    cap: int,
    s: Seq<u8>,
    src: Seq<u8>,
    q: ReadRequest,
    o: ReadSample,
)
    requires
        0 < cap,
        holds(m, cap, s),
        m[HEAD_OFFSET as int] == s.len(),
        0 <= m[SEQ_OFFSET as int],
        m[SEQ_OFFSET as int] % 2 == 0,
        m[SEQ_OFFSET as int] + 2 <= u64::MAX,
        s.len() + audio::kept(src, cap).len() <= u64::MAX,
        q.cap == cap,
        0 < q.frame,
        audio::kept(src, cap).len() % q.frame as nat == 0,
        audio::kept(src, cap).len() <= q.room,
        audio::kept(src, cap).len() <= q.max_latency,
        o.complete(q),
        trace::undisturbed(
            trace::after(
                m,
                audio::push_trace(
                    cap,
                    m[TAIL_OFFSET as int] as u64,
                    m[SEQ_OFFSET as int] as u64,
                    src,
                ),
            ),
            o.trace(q),
        ),
    ensures
        o.accepted(q),
        o.bytes == audio::kept(src, cap),
{
    let t = audio::push_trace(
        cap,
        m[TAIL_OFFSET as int] as u64,
        m[SEQ_OFFSET as int] as u64,
        src,
    );
    let now = trace::after(m, t);
    let bytes = audio::kept(src, cap);
    let n = bytes.len() as int;
    push_extends_the_stream(m, cap, s, src);
    quiet_attempts_are_accepted(now, cap, q, o);
    trace::lemma_load_agrees(now, o.trace(q), 0);
    assert(o.trace(q).take(0) =~= Seq::<Access>::empty());
    assert(o.trace(q)[0] == o.looks_before()[0]);
    assert(o.started());
    lemma_exact_frames(q, n);
    assert(o.from(q) == s.len());
    assert(o.want(q) == n);
    read_gives_back_the_stream(now, cap, s + bytes, q, o);
    assert(o.bytes =~= bytes);
}

/// Of a whole number of frames nothing is cut off.
proof fn lemma_exact_frames(q: ReadRequest, n: int)
    requires
        0 < q.frame,
        0 <= n <= q.room,
        n <= q.max_latency,
        n % q.frame == 0,
    ensures
        audio::whole_frames(n, q.frame) == n,
        n <= audio::whole_frames(q.room, q.frame),
        n <= audio::whole_frames(q.max_latency, q.frame),
{
    vstd::arithmetic::div_mod::lemma_fundamental_div_mod(n, q.frame);
    let k = n / q.frame;
    assert(audio::whole_frames(n, q.frame) == n) by (nonlinear_arith)
        requires
            n == q.frame * k,
            audio::whole_frames(n, q.frame) == k * q.frame,
    ;
    vstd::arithmetic::div_mod::lemma_div_is_ordered(n, q.room, q.frame);
    vstd::arithmetic::div_mod::lemma_div_is_ordered(n, q.max_latency, q.frame);
    assert(n <= audio::whole_frames(q.room, q.frame)) by (nonlinear_arith)
        requires
            n == q.frame * k,
            0 < q.frame,
            k <= q.room / q.frame,
            audio::whole_frames(q.room, q.frame) == q.room / q.frame * q.frame,
    ;
    assert(n <= audio::whole_frames(q.max_latency, q.frame)) by (nonlinear_arith)
        requires
            n == q.frame * k,
            0 < q.frame,
            k <= q.max_latency / q.frame,
            audio::whole_frames(q.max_latency, q.frame) == q.max_latency / q.frame * q.frame,
    ;
}

/// An attempt that was refused has only looked.
proof fn lemma_refused_attempts_only_look(q: ReadRequest, tries: Seq<ReadSample>)
    requires
        forall|i: int| 0 <= i < tries.len() ==> !(#[trigger] tries[i]).accepted(q),
    ensures
        forall|k: int|
            0 <= k < audio::attempts_trace(q, tries).len() ==> #[trigger] audio::attempts_trace(
                q,
                tries,
            )[k] is Load,
    decreases tries.len(),
{
    if tries.len() > 0 {
        let before = tries.drop_last();
        assert forall|i: int| 0 <= i < before.len() implies !(#[trigger] before[i]).accepted(q) by {
            assert(before[i] == tries[i]);
        }
        lemma_refused_attempts_only_look(q, before);
        let o = tries[tries.len() - 1];
        assert(!o.accepted(q));
        assert forall|k: int| 0 <= k < o.trace(q).len() implies #[trigger] o.trace(q)[k] is Load by {
        }
    }
}

/// No torn quantum. While a producer pushes `srcs` onto the stream `s`, and whatever
/// the order in which its accesses and those of a whole read fall, refused attempts
/// included, a read that delivers gives exactly the bytes of the stream from where its
/// last attempt starts, and silence behind them.
pub proof fn delivered_quanta_are_never_torn(
    m: Memory,
    cap: int,
    s: Seq<u8>,
    srcs: Seq<Seq<u8>>,
    turns: Seq<bool>,
    frame_bytes: u32,
    q: ReadRequest,
    tries: Seq<ReadSample>,
    most: nat,
    t0: Seq<Access>,
    t1: Seq<Access>,
    out: Seq<u8>,
    n: usize,
)
    requires
        0 < cap,
        holds(m, cap, s),
        0 <= m[SEQ_OFFSET as int],
        m[SEQ_OFFSET as int] % 2 == 0,
        m[SEQ_OFFSET as int] + 2 * srcs.len() <= u64::MAX,
        stream(cap, s, srcs).len() <= u64::MAX,
        q.cap == cap,
        q.frame == audio::frame_or_one(frame_bytes),
        0 <= q.room,
        0 <= q.max_latency,
        audio::quantum_read(frame_bytes, q, tries, most, t0, t1, out, Some(n)),
        interleave::observed(m, pushed(m, cap, srcs), t1.skip(t0.len() as int), turns),
    ensures
        ({
            let o = tries.last();
            let all = stream(cap, s, srcs);
            &&& o.from(q) + n <= o.tail <= all.len()
            &&& n <= out.len()
            &&& out.take(n as int) == all.subrange(o.from(q), o.from(q) + n)
            &&& forall|i: int| n <= i < out.len() ==> #[trigger] out[i] == 0
            &&& o.head == m[HEAD_OFFSET as int]
        }),
{
    let o = tries.last();
    let look = seq![
        trace::loaded32(FRAME_BYTES_OFFSET as int, frame_bytes, MemOrder::Relaxed),
    ];
    let before = tries.drop_last();
    let a = look + audio::attempts_trace(q, before);
    let b = o.trace(q);
    assert(t1.skip(t0.len() as int) =~= a + b);
    assert forall|i: int| 0 <= i < before.len() implies !(#[trigger] before[i]).accepted(q) by {
        assert(before[i] == tries[i]);
    }
    lemma_refused_attempts_only_look(q, before);
    assert forall|k: int| 0 <= k < a.len() implies #[trigger] a[k] is Load by {
        if k > 0 {
            assert(a[k] == audio::attempts_trace(q, before)[k - 1]);
        }
    }
    let rest = interleave::lemma_without_looks(m, pushed(m, cap, srcs), a, b, turns);
    assert(tries[tries.len() - 1].complete(q));
    accepted_reads_are_never_torn(m, cap, s, srcs, rest, q, o);
    reads_are_whole_and_timely(q, o.tail as int, o.head as int);
    assert(out.take(n as int) =~= o.bytes);
}

/// A whole read that nothing disturbs delivers, in its first attempt, if the producer
/// is at rest: it never has to be repeated.
pub proof fn quiet_quanta_are_delivered(
    m: Memory,
    frame_bytes: u32,
    q: ReadRequest,
    tries: Seq<ReadSample>,
    most: nat,
    t0: Seq<Access>,
    t1: Seq<Access>,
    out: Seq<u8>,
    r: Option<usize>,
)
    requires
        0 < q.cap,
        q.frame == audio::frame_or_one(frame_bytes),
        0 <= q.room,
        0 <= q.max_latency,
        0 < most,
        m[SEQ_OFFSET as int] % 2 == 0,
        audio::quantum_read(frame_bytes, q, tries, most, t0, t1, out, r),
        trace::undisturbed(m, t1.skip(t0.len() as int)),
    ensures
        r is Some,
        tries.len() == 1,
{
    let o = tries[0];
    let look = seq![
        trace::loaded32(FRAME_BYTES_OFFSET as int, frame_bytes, MemOrder::Relaxed),
    ];
    let all = audio::attempts_trace(q, tries);
    assert(t1.skip(t0.len() as int) =~= look + all);
    trace::lemma_concat(m, look, all);
    trace::lemma_loads_store_nothing(m, look);
    lemma_first_attempt(m, q, tries);
    quiet_attempts_are_accepted(m, q.cap, q, o);
    assert(o.accepted(q));
}

/// If nothing disturbs several attempts, nothing disturbs the first.
proof fn lemma_first_attempt(m: Memory, q: ReadRequest, tries: Seq<ReadSample>)
    requires
        tries.len() > 0,
        trace::undisturbed(m, audio::attempts_trace(q, tries)),
    ensures
        trace::undisturbed(m, tries[0].trace(q)),
    decreases tries.len(),
{
    let before = tries.drop_last();
    trace::lemma_concat(m, audio::attempts_trace(q, before), tries.last().trace(q));
    if before.len() > 0 {
        assert(before[0] == tries[0]);
        lemma_first_attempt(m, q, before);
    } else {
        assert(audio::attempts_trace(q, before) =~= Seq::<Access>::empty());
    }
}

} // verus!
