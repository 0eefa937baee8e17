//! What each operation of the audio ring does to a memory that nobody else touches
//! meanwhile, cell by cell, and what it gives back.

use crate::audio;
use crate::audio::{ReadRequest, ReadSample};
use crate::audio_laws;
use crate::bits;
use crate::format::{AudioFormat, SampleFormat};
use crate::host;
use crate::host::PlayedCycle;
use crate::layout::{
    CAPACITY_OFFSET, CHANNELS_OFFSET, FORMAT_OFFSET, FRAME_BYTES_OFFSET, HEADER_SIZE_OFFSET,
    HEAD_OFFSET, MAGIC_OFFSET, SAMPLE_RATE_OFFSET, SEQ_OFFSET, SHM_HEADER_SIZE, SHM_MAGIC,
    SHM_VERSION, TAIL_OFFSET, VERSION_OFFSET,
};
use crate::trace;
use crate::trace::{Access, MemOrder, Memory};
use vstd::prelude::*;

verus! {

/// The counters in `m` are 64-bit numbers.
pub open spec fn counts(m: Memory) -> bool {
    &&& 0 <= m[TAIL_OFFSET as int] <= u64::MAX
    &&& 0 <= m[SEQ_OFFSET as int] <= u64::MAX
}

/// Behind a position of the ring, every other one less than a round away is its own
/// distance away.
proof fn lemma_distance(cap: int, pos: int, k: int)
    requires
        0 < cap,
        0 <= k < cap,
    ensures
        0 <= (pos + k) % cap < cap,
        ((pos + k) % cap - pos) % cap == k,
{
    let x = pos + k;
    vstd::arithmetic::div_mod::lemma_mod_bound(x, cap);
    vstd::arithmetic::div_mod::lemma_fundamental_div_mod(x, cap);
    let d = x / cap;
    assert(x % cap - pos == cap * (-d) + k) by (nonlinear_arith)
        requires
            x == cap * d + x % cap,
            x == pos + k,
    ;
    vstd::arithmetic::div_mod::lemma_mod_multiples_vanish(-d, k, cap);
    vstd::arithmetic::div_mod::lemma_small_mod(k as nat, cap as nat);
}

/// A push adds all of its bytes to the stream, in order, or the newest of them where
/// the ring has no room for all: `tail` moves by as many, each byte lies where its
/// position in the stream says, `seq` moves on by 2, and no other cell changes. Pushing
/// nothing changes nothing.
pub proof fn push_adds_exactly_its_bytes(m: Memory, cap: int, src: Seq<u8>)
    requires
        0 < cap <= u64::MAX,
        counts(m),
    ensures
        ({
            let tail = m[TAIL_OFFSET as int];
            let seq = m[SEQ_OFFSET as int];
            let t = audio::push_trace(cap, tail as u64, seq as u64, src);
            let now = trace::after(m, t);
            let n: int = if src.len() <= cap {
                src.len() as int
            } else {
                cap
            };
            &&& trace::undisturbed(m, t)
            &&& now[TAIL_OFFSET as int] == (tail + n) % 0x1_0000_0000_0000_0000
            &&& now[SEQ_OFFSET as int] == (if n == 0 {
                seq
            } else {
                (seq + 2) % 0x1_0000_0000_0000_0000
            })
            &&& forall|i: int|
                src.len() - n <= i < src.len() ==> now[SHM_HEADER_SIZE + (tail + (i - (src.len()
                    - n))) % cap] == #[trigger] src[i]
            &&& forall|a: int|
                a != TAIL_OFFSET && a != SEQ_OFFSET && !(SHM_HEADER_SIZE <= a < SHM_HEADER_SIZE
                    + cap && (a - SHM_HEADER_SIZE - tail) % cap < n) ==> #[trigger] now[a] == m[a]
        }),
{
    let tail = m[TAIL_OFFSET as int];
    let seq = m[SEQ_OFFSET as int];
    let t = audio::push_trace(cap, tail as u64, seq as u64, src);
    let now = trace::after(m, t);
    let n: int = if src.len() <= cap {
        src.len() as int
    } else {
        cap
    };
    let bytes = audio::kept(src, cap);
    assert(bytes.len() == n);
    vstd::arithmetic::div_mod::lemma_small_mod(tail as nat, 0x1_0000_0000_0000_0000);
    if n > 0 {
        assert(t.len() == n + 7);
        assert forall|k: int| 0 <= k < n implies #[trigger] t[4 + k] == trace::stored8(
            SHM_HEADER_SIZE + (tail + k) % cap,
            src[src.len() - n + k],
        ) by {
            assert(t[4 + k] == audio::ring_stores(cap, tail, bytes)[k]);
        }
        assert forall|j: int| 4 <= j < n + 4 implies #[trigger] t[j] == trace::stored8(
            SHM_HEADER_SIZE + (tail + (j - 4)) % cap,
            src[src.len() - n + (j - 4)],
        ) by {
            assert(t[4 + (j - 4)] == t[j]);
        }
        assert(t[n + 4] == trace::stored64(
            TAIL_OFFSET as int,
            (tail as u64).wrapping_add(n as u64),
            MemOrder::Release,
        ));
        assert(t[n + 5] is Fence);
        assert(t[n + 6] == trace::stored64(
            SEQ_OFFSET as int,
            (seq as u64).wrapping_add(2),
            MemOrder::Relaxed,
        ));
        assert forall|j: int| 4 <= j < n + 4 implies match #[trigger] t[j] {
            Access::Store { at, .. } => SHM_HEADER_SIZE <= at < SHM_HEADER_SIZE + cap && (at
                - SHM_HEADER_SIZE - tail) % cap == j - 4,
            _ => false,
        } by {
            lemma_distance(cap, tail, j - 4);
        }
        trace::lemma_stored_once(
            m,
            t,
            n + 4,
            TAIL_OFFSET as int,
            (tail as u64).wrapping_add(n as u64) as int,
        );
        trace::lemma_stored_once(
            m,
            t,
            n + 6,
            SEQ_OFFSET as int,
            (seq as u64).wrapping_add(2) as int,
        );
        assert forall|i: int| src.len() - n <= i < src.len() implies now[SHM_HEADER_SIZE + (tail
            + (i - (src.len() - n))) % cap] == #[trigger] src[i] by {
            let k = i - (src.len() - n);
            let at = SHM_HEADER_SIZE + (tail + k) % cap;
            lemma_distance(cap, tail, k);
            assert(t[4 + k] == trace::stored8(at, src[i]));
            assert forall|j: int| 4 + k < j < t.len() implies !trace::is_store_to(
                #[trigger] t[j],
                at,
            ) by {
                if j < n + 4 {
                    lemma_distance(cap, tail, j - 4);
                }
            }
            trace::lemma_stored_once(m, t, 4 + k, at, src[i] as int);
        }
        assert forall|a: int|
            a != TAIL_OFFSET && a != SEQ_OFFSET && !(SHM_HEADER_SIZE <= a < SHM_HEADER_SIZE + cap
                && (a - SHM_HEADER_SIZE - tail) % cap < n) implies #[trigger] now[a] == m[a] by {
            assert forall|j: int| 0 <= j < t.len() implies !trace::is_store_to(
                #[trigger] t[j],
                a,
            ) by {}
            trace::lemma_left_alone(m, t, a);
        }
        assert(t[0] == trace::loaded64(TAIL_OFFSET as int, tail as u64, MemOrder::Relaxed));
        assert(t[1] == trace::loaded64(SEQ_OFFSET as int, seq as u64, MemOrder::Relaxed));
        audio_laws::lemma_only_first_two_load(m, t);
    }
}

/// A read takes all that it can, and starts where it must. It takes whole frames, and no
/// further one would fit both the room and what is there from where it starts. It starts
/// at `head` (or at `tail`, if `head` is beyond) while the whole frames of the budget and
/// the ring cover what is waiting; at the budget's whole frames before `tail` if more is
/// waiting and the ring holds these; and at the ring's whole frames before `tail`
/// otherwise.
pub proof fn reads_take_all_that_fits(q: ReadRequest, tail: int, head: int)
    requires
        0 <= q.cap,
        0 < q.frame,
        0 <= q.room,
        0 <= q.max_latency,
        0 <= tail,
        0 <= head,
    ensures
        ({
            let from = q.from(tail, head);
            let want = q.want(tail, head);
            let waiting = if head > tail {
                0
            } else {
                tail - head
            };
            let budget = q.max_latency - q.max_latency % q.frame;
            &&& 0 <= from <= from + want <= tail
            &&& want % q.frame == 0
            &&& want <= q.room
            &&& want + q.frame > q.room || want + q.frame > tail - from
            &&& waiting <= budget && waiting <= q.cap ==> from == tail - waiting
            &&& waiting > budget && budget <= q.cap ==> from == tail - budget
            &&& (waiting > budget && budget > q.cap) || (waiting <= budget && waiting > q.cap)
                ==> from == tail - (q.cap - q.cap % q.frame)
        }),
{
    audio_laws::reads_are_whole_and_timely(q, tail, head);
    audio::lemma_whole_frames(q.max_latency, q.frame);
    audio::lemma_whole_frames(q.cap, q.frame);
    audio::lemma_whole_frames(q.room, q.frame);
    lemma_rounded(q.max_latency, q.frame);
    lemma_rounded(q.cap, q.frame);
    let there = tail - q.from(tail, head);
    let room = audio::whole_frames(q.room, q.frame);
    let most = if room < there {
        room
    } else {
        there
    };
    audio::lemma_whole_frames(most, q.frame);
    if room < there {
        vstd::arithmetic::div_mod::lemma_div_by_multiple(q.room / q.frame, q.frame);
    }
}

proof fn lemma_rounded(n: int, frame: int)
    requires
        0 <= n,
        0 < frame,
    ensures
        audio::whole_frames(n, frame) == n - n % frame,
{
    vstd::arithmetic::div_mod::lemma_fundamental_div_mod(n, frame);
    assert(n / frame * frame == n - n % frame) by (nonlinear_arith)
        requires
            n == frame * (n / frame) + n % frame,
    ;
}

/// What an attempt that nothing disturbs found and left behind.
proof fn lemma_quiet_sample(m: Memory, q: ReadRequest, o: ReadSample)
    requires
        0 < q.cap,
        0 < q.frame,
        0 <= q.room,
        0 <= q.max_latency,
        o.complete(q),
        m[SEQ_OFFSET as int] % 2 == 0,
        trace::undisturbed(m, o.trace(q)),
    ensures
        ({
            let now = trace::after(m, o.trace(q));
            &&& o.accepted(q)
            &&& o.tail == m[TAIL_OFFSET as int]
            &&& o.head == m[HEAD_OFFSET as int]
            &&& o.bytes.len() == o.want(q)
            &&& forall|k: int|
                0 <= k < o.bytes.len() ==> m[SHM_HEADER_SIZE + (o.from(q) + k) % q.cap]
                    == #[trigger] o.bytes[k]
            &&& now[HEAD_OFFSET as int] == o.from(q) + o.want(q)
            &&& forall|a: int| a != HEAD_OFFSET ==> #[trigger] now[a] == m[a]
        }),
{
    let t = o.trace(q);
    let n = o.bytes.len() as int;
    let now = trace::after(m, t);
    audio_laws::quiet_attempts_are_accepted(m, q.cap, q, o);
    reads_take_all_that_fits(q, o.tail as int, o.head as int);
    assert(t.len() == n + 6);
    assert forall|k: int| 0 <= k < n implies m[SHM_HEADER_SIZE + (o.from(q) + k) % q.cap]
        == #[trigger] o.bytes[k] by {
        assert(t[3 + k] == audio::ring_loads(q.cap, o.from(q), o.bytes)[k]);
        trace::lemma_load_agrees(m, t, 3 + k);
        assert forall|i: int| 0 <= i < 3 + k implies #[trigger] t.take(3 + k)[i] is Load by {}
        trace::lemma_loads_store_nothing(m, t.take(3 + k));
    }
    assert(t[n + 5] == o.consume(q)[0]);
    trace::lemma_stored_once(m, t, n + 5, HEAD_OFFSET as int, o.from(q) + o.want(q));
    assert forall|a: int| a != HEAD_OFFSET implies #[trigger] now[a] == m[a] by {
        assert forall|j: int| 0 <= j < t.len() implies !trace::is_store_to(#[trigger] t[j], a) by {
            if j < n + 5 {
                assert(t[j] is Load);
            }
        }
        trace::lemma_left_alone(m, t, a);
    }
}

/// `n` bytes were read out of the ring of `cap` bytes in `m` into `out`, and `now` is the
/// memory behind it: whole frames of `frame` bytes from stream position `from` on, all
/// that fit, silence behind them, and `head` moved past them.
pub open spec fn delivered(
    m: Memory,
    now: Memory,
    cap: int,
    frame: int,
    max_latency: int,
    out: Seq<u8>,
    n: int,
) -> bool {
    let tail = m[TAIL_OFFSET as int];
    let head = m[HEAD_OFFSET as int];
    let from = now[HEAD_OFFSET as int] - n;
    let waiting = if head > tail {
        0
    } else {
        tail - head
    };
    let budget = max_latency - max_latency % frame;
    &&& 0 <= n <= out.len()
    &&& 0 <= from
    &&& from + n <= tail
    &&& n % frame == 0
    &&& n + frame > out.len() || n + frame > tail - from
    &&& waiting <= budget && waiting <= cap ==> from == tail - waiting
    &&& waiting > budget && budget <= cap ==> from == tail - budget
    &&& (waiting > budget && budget > cap) || (waiting <= budget && waiting > cap) ==> from == tail
        - (cap - cap % frame)
    &&& forall|i: int|
        0 <= i < n ==> m[SHM_HEADER_SIZE + (from + i) % cap] == #[trigger] out[i]
    &&& forall|i: int| n <= i < out.len() ==> #[trigger] out[i] == 0
    &&& forall|a: int| a != HEAD_OFFSET ==> #[trigger] now[a] == m[a]
}

/// An attempt that nothing disturbs delivers if the producer is at rest: as many whole
/// frames of the ring as fit, from where the read must start, and silence behind them.
/// Otherwise it gives silence and changes nothing.
pub proof fn quiet_attempt_delivers_all_that_fits(
    m: Memory,
    q: ReadRequest,
    o: ReadSample,
    t0: Seq<Access>,
    t1: Seq<Access>,
    out: Seq<u8>,
    r: Option<usize>,
)
    requires
        0 < q.cap,
        0 < q.frame,
        0 <= q.room,
        0 <= q.max_latency,
        audio::attempt_made(q, o, t0, t1, out, r),
        trace::undisturbed(m, t1.skip(t0.len() as int)),
    ensures
        ({
            let now = trace::after(m, t1.skip(t0.len() as int));
            &&& t1.take(t0.len() as int) == t0
            &&& out.len() == q.room
            &&& m[SEQ_OFFSET as int] % 2 == 0 ==> {
                &&& r is Some
                &&& delivered(m, now, q.cap, q.frame, q.max_latency, out, r.unwrap() as int)
            }
            &&& m[SEQ_OFFSET as int] % 2 != 0 ==> {
                &&& r is None
                &&& now == m
                &&& forall|i: int| 0 <= i < out.len() ==> #[trigger] out[i] == 0
            }
        }),
{
    let t = t1.skip(t0.len() as int);
    assert(t =~= o.trace(q));
    assert(t1.take(t0.len() as int) =~= t0);
    if m[SEQ_OFFSET as int] % 2 == 0 {
        lemma_quiet_sample(m, q, o);
        reads_take_all_that_fits(q, o.tail as int, o.head as int);
    } else {
        audio_laws::quiet_attempts_are_accepted(m, q.cap, q, o);
        lemma_unstarted(m, q, o);
    }
}

/// An attempt that finds the producer writing has only looked.
proof fn lemma_unstarted(m: Memory, q: ReadRequest, o: ReadSample)
    requires
        m[SEQ_OFFSET as int] % 2 != 0,
        trace::undisturbed(m, o.trace(q)),
    ensures
        !o.started(),
        !o.accepted(q),
        trace::after(m, o.trace(q)) == m,
{
    let t = o.trace(q);
    assert(t[0] == o.looks_before()[0]);
    trace::lemma_load_agrees(m, t, 0);
    assert(t.take(0) =~= Seq::<Access>::empty());
    trace::lemma_loads_store_nothing(m, t);
}

/// A read that nothing disturbs delivers if the producer is at rest: as many whole frames
/// of the ring as fit `out`, a frame being what the header says but at least one byte,
/// from where the read must start, and silence behind them. Only `head` changes.
pub proof fn quiet_read_delivers_all_that_fits(
    m: Memory,
    cap: int,
    max_latency: int,
    frame_bytes: u32,
    tries: Seq<ReadSample>,
    most: nat,
    t0: Seq<Access>,
    t1: Seq<Access>,
    out: Seq<u8>,
    r: Option<usize>,
)
    requires
        0 < cap,
        0 <= max_latency,
        0 < most,
        m[SEQ_OFFSET as int] % 2 == 0,
        audio::quantum_read(
            frame_bytes,
            ReadRequest {
                cap,
                frame: audio::frame_or_one(frame_bytes),
                room: out.len() as int,
                max_latency,
            },
            tries,
            most,
            t0,
            t1,
            out,
            r,
        ),
        trace::undisturbed(m, t1.skip(t0.len() as int)),
    ensures
        ({
            let now = trace::after(m, t1.skip(t0.len() as int));
            let frame = if m[FRAME_BYTES_OFFSET as int] == 0 {
                1
            } else {
                m[FRAME_BYTES_OFFSET as int]
            };
            &&& t1.take(t0.len() as int) == t0
            &&& r is Some
            &&& delivered(m, now, cap, frame, max_latency, out, r.unwrap() as int)
        }),
{
    let q = ReadRequest {
        cap,
        frame: audio::frame_or_one(frame_bytes),
        room: out.len() as int,
        max_latency,
    };
    audio_laws::quiet_quanta_are_delivered(m, frame_bytes, q, tries, most, t0, t1, out, r);
    let look = seq![
        trace::loaded32(FRAME_BYTES_OFFSET as int, frame_bytes, MemOrder::Relaxed),
    ];
    let o = tries[0];
    let none = tries.drop_last();
    assert(none.len() == 0);
    assert(audio::attempts_trace(q, none) =~= Seq::<Access>::empty());
    assert(audio::attempts_trace(q, tries) =~= o.trace(q));
    let t = t1.skip(t0.len() as int);
    assert(t =~= look + o.trace(q));
    assert(t1.take(t0.len() as int) =~= t0);
    trace::lemma_concat(m, look, o.trace(q));
    trace::lemma_loads_store_nothing(m, look);
    trace::lemma_looks(m, look, 0);
    lemma_quiet_sample(m, q, o);
    reads_take_all_that_fits(q, o.tail as int, o.head as int);
}

/// A read while the producer is in the middle of a write, and stays there, gives up
/// after its attempts: silence, and nothing changed.
pub proof fn reads_give_silence_during_a_write(
    m: Memory,
    frame_bytes: u32,
    q: ReadRequest,
    tries: Seq<ReadSample>,
    most: nat,
    t0: Seq<Access>,
    t1: Seq<Access>,
    out: Seq<u8>,
    r: Option<usize>,
)
    requires
        m[SEQ_OFFSET as int] % 2 != 0,
        audio::quantum_read(frame_bytes, q, tries, most, t0, t1, out, r),
        trace::undisturbed(m, t1.skip(t0.len() as int)),
    ensures
        r is None,
        out.len() == q.room,
        forall|i: int| 0 <= i < out.len() ==> #[trigger] out[i] == 0,
        trace::after(m, t1.skip(t0.len() as int)) == m,
{
    let look = seq![
        trace::loaded32(FRAME_BYTES_OFFSET as int, frame_bytes, MemOrder::Relaxed),
    ];
    let t = t1.skip(t0.len() as int);
    assert(t =~= look + audio::attempts_trace(q, tries));
    trace::lemma_concat(m, look, audio::attempts_trace(q, tries));
    trace::lemma_loads_store_nothing(m, look);
    lemma_none_started(m, q, tries);
}

proof fn lemma_none_started(m: Memory, q: ReadRequest, tries: Seq<ReadSample>)
    requires
        m[SEQ_OFFSET as int] % 2 != 0,
        trace::undisturbed(m, audio::attempts_trace(q, tries)),
    ensures
        trace::after(m, audio::attempts_trace(q, tries)) == m,
        tries.len() > 0 ==> !tries.last().accepted(q),
    decreases tries.len(),
{
    if tries.len() > 0 {
        let before = tries.drop_last();
        trace::lemma_concat(m, audio::attempts_trace(q, before), tries.last().trace(q));
        lemma_none_started(m, q, before);
        lemma_unstarted(m, q, tries.last());
    }
}

/// When an attempt is accepted: exactly if `seq` was even and did not move, and the
/// producer is no further ahead of where the attempt starts than the ring is long.
pub proof fn attempts_are_accepted_unless_overtaken(q: ReadRequest, o: ReadSample)
    requires
        0 <= q.cap <= u64::MAX,
        0 < q.frame,
        0 <= q.room,
        0 <= q.max_latency,
    ensures
        o.seq % 2 == 1 ==> !o.accepted(q),
        o.seq_after != o.seq ==> !o.accepted(q),
        o.tail_after - o.from(q) > q.cap ==> !o.accepted(q),
        o.tail_after < o.from(q) && o.tail_after + 0x1_0000_0000_0000_0000 - o.from(q) > q.cap
            ==> !o.accepted(q),
        o.seq % 2 == 0 && o.seq_after == o.seq && 0 <= o.tail_after - o.from(q) <= q.cap
            ==> o.accepted(q),
{
    reads_take_all_that_fits(q, o.tail as int, o.head as int);
}

/// A cycle of playback that nothing disturbs plays the whole strides that the buffer has
/// room for: what a read delivers first, silence behind it. The rest of the buffer stays
/// as it was, and the cycle tells the counters that it found.
pub proof fn quiet_cycle_plays_all_that_fits(
    m: Memory,
    cap: int,
    stride: int,
    max_latency: int,
    head: u64,
    tail: u64,
    frame_bytes: u32,
    tries: Seq<ReadSample>,
    most: nat,
    t0: Seq<Access>,
    t1: Seq<Access>,
    b0: Seq<u8>,
    b1: Seq<u8>,
    r: PlayedCycle,
)
    requires
        0 < cap,
        0 < stride,
        0 <= max_latency,
        0 < most,
        m[SEQ_OFFSET as int] % 2 == 0,
        host::cycle_played(
            head,
            tail,
            frame_bytes,
            ReadRequest {
                cap,
                frame: audio::frame_or_one(frame_bytes),
                room: (b0.len() as int / stride) * stride,
                max_latency,
            },
            tries,
            most,
            t0,
            t1,
            b0,
            b1,
            r,
        ),
        trace::undisturbed(m, t1.skip(t0.len() as int)),
    ensures
        ({
            let now = trace::after(m, t1.skip(t0.len() as int));
            let frame = if m[FRAME_BYTES_OFFSET as int] == 0 {
                1
            } else {
                m[FRAME_BYTES_OFFSET as int]
            };
            &&& t1.take(t0.len() as int) == t0
            &&& !r.missed
            &&& r.size as int % stride == 0
            &&& r.size <= b0.len() < r.size + stride
            &&& delivered(m, now, cap, frame, max_latency, b1.take(r.size as int), r.live as int)
            &&& b1.len() == b0.len()
            &&& forall|i: int| r.size <= i < b0.len() ==> #[trigger] b1[i] == b0[i]
            &&& r.head == m[HEAD_OFFSET as int]
            &&& r.tail == m[TAIL_OFFSET as int]
        }),
{
    let room = (b0.len() as int / stride) * stride;
    let looks = seq![
        trace::loaded64(HEAD_OFFSET as int, head, MemOrder::Relaxed),
        trace::loaded64(TAIL_OFFSET as int, tail, MemOrder::Acquire),
    ];
    let mid = t0 + looks;
    let rest = t1.skip(mid.len() as int);
    audio::lemma_whole_frames(b0.len() as int, stride);
    assert(t1 =~= mid + rest);
    assert(t1.skip(t0.len() as int) =~= looks + rest);
    assert(t1.take(t0.len() as int) =~= t0);
    trace::lemma_concat(m, looks, rest);
    trace::lemma_loads_store_nothing(m, looks);
    trace::lemma_looks(m, looks, 0);
    trace::lemma_looks(m, looks, 1);
    let got = if r.missed {
        None
    } else {
        Some(r.live)
    };
    assert(b1.take(room).len() == room);
    quiet_read_delivers_all_that_fits(
        m,
        cap,
        max_latency,
        frame_bytes,
        tries,
        most,
        mid,
        t1,
        b1.take(room),
        got,
    );
    assert forall|i: int| r.size <= i < b0.len() implies #[trigger] b1[i] == b0[i] by {
        assert(b1.skip(room)[i - room] == b0.skip(room)[i - room]);
    }
}

/// Initializing writes the header and nothing else.
pub proof fn init_writes_the_header_only(m: Memory, cap: usize, a: int)
    requires
        0 < cap,
    ensures
        ({
            let now = trace::after(m, audio::init_trace(cap));
            &&& now[MAGIC_OFFSET as int] == SHM_MAGIC
            &&& now[VERSION_OFFSET as int] == SHM_VERSION
            &&& now[HEADER_SIZE_OFFSET as int] == SHM_HEADER_SIZE
            &&& now[CAPACITY_OFFSET as int] == cap
            &&& now[SAMPLE_RATE_OFFSET as int] == 0
            &&& now[CHANNELS_OFFSET as int] == 0
            &&& now[FORMAT_OFFSET as int] == 0
            &&& now[FRAME_BYTES_OFFSET as int] == 0
            &&& now[TAIL_OFFSET as int] == 0
            &&& now[SEQ_OFFSET as int] == 0
            &&& now[HEAD_OFFSET as int] == 0
            &&& a < 0 || SHM_HEADER_SIZE <= a ==> now[a] == m[a]
            &&& trace::undisturbed(m, audio::init_trace(cap))
        }),
{
    let t = audio::init_trace(cap);
    audio_laws::init_leaves_a_fresh_ring(m, cap);
    if a < 0 || SHM_HEADER_SIZE <= a {
        assert forall|i: int| 0 <= i < t.len() implies !trace::is_store_to(#[trigger] t[i], a) by {}
        trace::lemma_left_alone(m, t, a);
    }
    lemma_no_loads(m, t);
}

/// A record without loads is undisturbed.
proof fn lemma_no_loads(m: Memory, t: Seq<Access>)
    requires
        forall|i: int| 0 <= i < t.len() ==> !(#[trigger] t[i] is Load),
    ensures
        trace::undisturbed(m, t),
    decreases t.len(),
{
    if t.len() > 0 {
        assert(!(t[t.len() - 1] is Load));
        lemma_no_loads(m, t.drop_last());
    }
}

/// What attaching finds in a header that nobody changes meanwhile: nothing is wrong
/// exactly if magic, version and header size are those of this layout and the capacity
/// is a power of two that the region has room for, and then the capacity is the ring
/// size; otherwise the first of these that is not so is named.
pub proof fn attach_finds_the_first_fault(
    m: Memory,
    payload_len: nat,
    magic: u64,
    version: u32,
    header_size: u32,
    capacity: u64,
)
    requires
        capacity <= usize::MAX,
        trace::undisturbed(
            m,
            audio::attach_trace(payload_len, magic, version, header_size, capacity),
        ),
    ensures
        ({
            let fault = audio::attach_fault(payload_len, magic, version, header_size, capacity);
            let current = m[MAGIC_OFFSET as int] == SHM_MAGIC;
            let same_version = m[VERSION_OFFSET as int] == SHM_VERSION;
            let same_size = m[HEADER_SIZE_OFFSET as int] == SHM_HEADER_SIZE;
            let fits = bits::power_of_two(m[CAPACITY_OFFSET as int]) && m[CAPACITY_OFFSET as int]
                <= payload_len;
            &&& fault is None <==> 0 < payload_len && current && same_version && same_size && fits
            &&& fault is None ==> capacity == m[CAPACITY_OFFSET as int]
            &&& payload_len == 0 ==> fault == Some("region smaller than header"@)
            &&& 0 < payload_len && !current ==> fault == Some(
                "bad magic (region not initialized yet)"@,
            )
            &&& 0 < payload_len && current && !same_version ==> fault == Some("version mismatch"@)
            &&& 0 < payload_len && current && same_version && !same_size ==> fault == Some(
                "ABI/header_size mismatch"@,
            )
            &&& 0 < payload_len && current && same_version && same_size && !fits ==> fault == Some(
                "bad capacity"@,
            )
            &&& trace::after(
                m,
                audio::attach_trace(payload_len, magic, version, header_size, capacity),
            ) == m
        }),
{
    let t = audio::attach_trace(payload_len, magic, version, header_size, capacity);
    trace::lemma_loads_store_nothing(m, t);
    if payload_len > 0 {
        trace::lemma_looks(m, t, 0);
        if magic == SHM_MAGIC {
            trace::lemma_looks(m, t, 1);
            if version == SHM_VERSION {
                trace::lemma_looks(m, t, 2);
                if header_size == SHM_HEADER_SIZE {
                    trace::lemma_looks(m, t, 3);
                }
            }
        }
    }
}

/// Publishing a format writes its four fields and nothing else.
pub proof fn publishing_writes_the_format_only(m: Memory, fmt: AudioFormat, a: int)
    ensures
        ({
            let now = trace::after(m, audio::set_format_trace(fmt));
            &&& now[SAMPLE_RATE_OFFSET as int] == fmt.sample_rate
            &&& now[CHANNELS_OFFSET as int] == fmt.channels
            &&& now[FRAME_BYTES_OFFSET as int] == fmt.frame_bytes
            &&& now[FORMAT_OFFSET as int] == (match fmt.format {
                SampleFormat::S16Le => 0int,
                SampleFormat::S32Le => 1,
                SampleFormat::F32Le => 2,
            })
            &&& a != SAMPLE_RATE_OFFSET && a != CHANNELS_OFFSET && a != FRAME_BYTES_OFFSET && a
                != FORMAT_OFFSET ==> now[a] == m[a]
            &&& trace::undisturbed(m, audio::set_format_trace(fmt))
        }),
{
    let t = audio::set_format_trace(fmt);
    audio_laws::lemma_format_fields(m, fmt);
    if a != SAMPLE_RATE_OFFSET && a != CHANNELS_OFFSET && a != FRAME_BYTES_OFFSET && a
        != FORMAT_OFFSET {
        assert forall|i: int| 0 <= i < t.len() implies !trace::is_store_to(#[trigger] t[i], a) by {}
        trace::lemma_left_alone(m, t, a);
    }
    lemma_no_loads(m, t);
}

/// What is read of the format in a header that nobody changes meanwhile: all four
/// fields, if the frame size is set and the sample format is one of the three; nothing
/// otherwise.
pub proof fn format_is_what_the_header_says(
    m: Memory,
    frame_bytes: u32,
    code: u32,
    sample_rate: u32,
    channels: u32,
)
    requires
        trace::undisturbed(m, audio::format_trace(frame_bytes, code, sample_rate, channels)),
    ensures
        ({
            let seen = AudioFormat::of_fields(frame_bytes, code, sample_rate, channels);
            let field = m[FORMAT_OFFSET as int];
            &&& seen is Some <==> m[FRAME_BYTES_OFFSET as int] != 0 && 0 <= field <= 2
            &&& seen matches Some(f) ==> {
                &&& f.frame_bytes == m[FRAME_BYTES_OFFSET as int]
                &&& f.sample_rate == m[SAMPLE_RATE_OFFSET as int]
                &&& f.channels == m[CHANNELS_OFFSET as int]
                &&& field == 0 ==> f.format == SampleFormat::S16Le
                &&& field == 1 ==> f.format == SampleFormat::S32Le
                &&& field == 2 ==> f.format == SampleFormat::F32Le
            }
            &&& trace::after(m, audio::format_trace(frame_bytes, code, sample_rate, channels)) == m
        }),
{
    let t = audio::format_trace(frame_bytes, code, sample_rate, channels);
    trace::lemma_loads_store_nothing(m, t);
    trace::lemma_looks(m, t, 0);
    if frame_bytes != 0 {
        trace::lemma_looks(m, t, 1);
        if code <= 2 {
            trace::lemma_looks(m, t, 2);
            trace::lemma_looks(m, t, 3);
        }
    }
}

/// What was pushed into a drained ring, in whole frames, is what the next read delivers:
/// all of it where the ring, the room and the budget have space for it.
pub proof fn pushed_bytes_are_delivered(
    m: Memory,
    cap: int,
    src: Seq<u8>,
    max_latency: int,
    frame_bytes: u32,
    tries: Seq<ReadSample>,
    most: nat,
    t0: Seq<Access>,
    t1: Seq<Access>,
    out: Seq<u8>,
    r: Option<usize>,
)
    requires
        0 < cap <= u64::MAX,
        counts(m),
        m[SEQ_OFFSET as int] % 2 == 0,
        m[SEQ_OFFSET as int] + 2 <= u64::MAX,
        m[TAIL_OFFSET as int] + src.len() <= u64::MAX,
        m[HEAD_OFFSET as int] == m[TAIL_OFFSET as int],
        m[FRAME_BYTES_OFFSET as int] > 0,
        src.len() as int % m[FRAME_BYTES_OFFSET as int] == 0,
        src.len() <= cap,
        src.len() <= out.len(),
        src.len() <= max_latency,
        0 < most,
        audio::quantum_read(
            frame_bytes,
            ReadRequest {
                cap,
                frame: audio::frame_or_one(frame_bytes),
                room: out.len() as int,
                max_latency,
            },
            tries,
            most,
            t0,
            t1,
            out,
            r,
        ),
        trace::undisturbed(
            trace::after(
                m,
                audio::push_trace(
                    cap,
                    m[TAIL_OFFSET as int] as u64,
                    m[SEQ_OFFSET as int] as u64,
                    src,
                ),
            ),
            t1.skip(t0.len() as int),
        ),
    ensures
        r == Some(src.len() as usize),
        forall|i: int| 0 <= i < src.len() ==> out[i] == #[trigger] src[i],
        forall|i: int| src.len() <= i < out.len() ==> #[trigger] out[i] == 0,
{
    let tail = m[TAIL_OFFSET as int];
    let frame = m[FRAME_BYTES_OFFSET as int];
    let len = src.len() as int;
    push_adds_exactly_its_bytes(m, cap, src);
    let mid = trace::after(
        m,
        audio::push_trace(cap, tail as u64, m[SEQ_OFFSET as int] as u64, src),
    );
    vstd::arithmetic::div_mod::lemma_small_mod((tail + len) as nat, 0x1_0000_0000_0000_0000);
    vstd::arithmetic::div_mod::lemma_small_mod(
        (m[SEQ_OFFSET as int] + 2) as nat,
        0x1_0000_0000_0000_0000,
    );
    assert(mid[FRAME_BYTES_OFFSET as int] == frame);
    assert(mid[HEAD_OFFSET as int] == tail);
    quiet_read_delivers_all_that_fits(
        mid,
        cap,
        max_latency,
        frame_bytes,
        tries,
        most,
        t0,
        t1,
        out,
        r,
    );
    let now = trace::after(mid, t1.skip(t0.len() as int));
    let n = r.unwrap() as int;
    lemma_multiples(len, max_latency, frame);
    assert(now[HEAD_OFFSET as int] - n == tail);
    lemma_no_multiple_between(n, len, frame);
    assert forall|i: int| 0 <= i < src.len() implies out[i] == #[trigger] src[i] by {
        assert(mid[SHM_HEADER_SIZE + (tail + i) % cap] == out[i]);
    }
}

/// A multiple that is at most `n` is at most `n` rounded down.
proof fn lemma_multiples(k: int, n: int, frame: int)
    requires
        0 <= k <= n,
        0 < frame,
        k % frame == 0,
    ensures
        k <= n - n % frame,
{
    vstd::arithmetic::div_mod::lemma_fundamental_div_mod(k, frame);
    vstd::arithmetic::div_mod::lemma_fundamental_div_mod(n, frame);
    vstd::arithmetic::div_mod::lemma_div_is_ordered(k, n, frame);
    assert(k <= n - n % frame) by (nonlinear_arith)
        requires
            k == frame * (k / frame),
            n == frame * (n / frame) + n % frame,
            k / frame <= n / frame,
            0 < frame,
    ;
}

/// Two multiples less than a frame apart are the same.
proof fn lemma_no_multiple_between(a: int, b: int, frame: int)
    requires
        0 <= a <= b < a + frame,
        a % frame == 0,
        b % frame == 0,
    ensures
        a == b,
{
    vstd::arithmetic::div_mod::lemma_fundamental_div_mod(a, frame);
    vstd::arithmetic::div_mod::lemma_fundamental_div_mod(b, frame);
    let x = a / frame;
    let y = b / frame;
    assert(x == y) by (nonlinear_arith)
        requires
            a == frame * x,
            b == frame * y,
            a <= b < a + frame,
            0 < frame,
    ;
}

/// Whatever came in between: a read that delivers gives what its last attempt copied, all
/// that fits from where that attempt had to start, with silence behind it, and moves
/// `head` past it. A read that does not deliver has made all of its attempts, none of
/// which was accepted, and gives silence.
pub proof fn reads_deliver_or_give_silence(
    cap: int,
    max_latency: int,
    frame_bytes: u32,
    tries: Seq<ReadSample>,
    most: nat,
    t0: Seq<Access>,
    t1: Seq<Access>,
    out: Seq<u8>,
    r: Option<usize>,
)
    requires
        0 < cap,
        0 <= max_latency,
        audio::quantum_read(
            frame_bytes,
            ReadRequest {
                cap,
                frame: audio::frame_or_one(frame_bytes),
                room: out.len() as int,
                max_latency,
            },
            tries,
            most,
            t0,
            t1,
            out,
            r,
        ),
    ensures
        ({
            let frame = if frame_bytes == 0 {
                1
            } else {
                frame_bytes as int
            };
            let q = ReadRequest { cap, frame, room: out.len() as int, max_latency };
            let o = tries.last();
            &&& t1.take(t0.len() as int) == t0
            &&& tries.len() <= most
            &&& forall|i: int| 0 <= i < tries.len() - 1 ==> !(#[trigger] tries[i]).accepted(q)
            &&& r matches Some(n) ==> {
                let from = o.from(q);
                &&& tries.len() > 0
                &&& o.accepted(q)
                &&& n as int % frame == 0
                &&& n <= out.len()
                &&& n + frame > out.len() || n + frame > o.tail - from
                &&& from + n <= o.tail
                &&& o.bytes.len() == n
                &&& forall|i: int| 0 <= i < n ==> #[trigger] out[i] == o.bytes[i]
                &&& forall|i: int| n <= i < out.len() ==> #[trigger] out[i] == 0
                &&& t1.last() == trace::stored64(
                    HEAD_OFFSET as int,
                    (from + n) as u64,
                    MemOrder::Release,
                )
            }
            &&& r is None ==> {
                &&& tries.len() == most
                &&& tries.len() > 0 ==> !o.accepted(q)
                &&& forall|i: int| 0 <= i < out.len() ==> #[trigger] out[i] == 0
            }
        }),
{
    let q = ReadRequest {
        cap,
        frame: audio::frame_or_one(frame_bytes),
        room: out.len() as int,
        max_latency,
    };
    assert(t1.take(t0.len() as int) =~= t0);
    if r is Some {
        let o = tries.last();
        assert(tries[tries.len() - 1].complete(q));
        reads_take_all_that_fits(q, o.tail as int, o.head as int);
        assert(o.trace(q).last() == o.consume(q)[0]);
        assert(audio::attempts_trace(q, tries).last() == o.trace(q).last());
    }
}

/// Whatever came in between: a cycle fills the whole strides of the buffer, with silence
/// alone if it missed, and leaves the rest as it was.
pub proof fn cycles_always_fill_the_window(
    cap: int,
    stride: int,
    max_latency: int,
    head: u64,
    tail: u64,
    frame_bytes: u32,
    tries: Seq<ReadSample>,
    most: nat,
    t0: Seq<Access>,
    t1: Seq<Access>,
    b0: Seq<u8>,
    b1: Seq<u8>,
    r: PlayedCycle,
)
    requires
        0 < cap,
        0 < stride,
        0 <= max_latency,
        host::cycle_played(
            head,
            tail,
            frame_bytes,
            ReadRequest {
                cap,
                frame: audio::frame_or_one(frame_bytes),
                room: (b0.len() as int / stride) * stride,
                max_latency,
            },
            tries,
            most,
            t0,
            t1,
            b0,
            b1,
            r,
        ),
    ensures
        r.size as int % stride == 0,
        r.size <= b0.len() < r.size + stride,
        r.live <= r.size,
        b1.len() == b0.len(),
        forall|i: int| r.live <= i < r.size ==> #[trigger] b1[i] == 0,
        forall|i: int| r.size <= i < b0.len() ==> #[trigger] b1[i] == b0[i],
        forall|i: int| 0 <= i < r.live ==> #[trigger] b1[i] == tries.last().bytes[i],
        r.missed ==> r.live == 0 && tries.len() == most,
        !r.missed ==> tries.len() > 0,
        r.head == head,
        r.tail == tail,
{
    let room = (b0.len() as int / stride) * stride;
    audio::lemma_whole_frames(b0.len() as int, stride);
    let looks = seq![
        trace::loaded64(HEAD_OFFSET as int, head, MemOrder::Relaxed),
        trace::loaded64(TAIL_OFFSET as int, tail, MemOrder::Acquire),
    ];
    let window = b1.take(room);
    assert(window.len() == room);
    reads_deliver_or_give_silence(
        cap,
        max_latency,
        frame_bytes,
        tries,
        most,
        t0 + looks,
        t1,
        window,
        if r.missed {
            None
        } else {
            Some(r.live)
        },
    );
    assert forall|i: int| 0 <= i < room implies #[trigger] b1[i] == window[i] by {}
    assert forall|i: int| r.size <= i < b0.len() implies #[trigger] b1[i] == b0[i] by {
        assert(b1.skip(room)[i - room] == b0.skip(room)[i - room]);
    }
}

/// How a push is ordered against the reads of the other side: the store that makes `seq`
/// odd is followed by a fence before any byte goes out; `tail` is released, after all
/// bytes; and a fence stands between that and the store that makes `seq` even again, which
/// is the last.
pub proof fn pushes_are_fenced(cap: int, tail: u64, seq: u64, src: Seq<u8>, i: int)
    requires
        0 < cap,
        src.len() > 0,
        0 <= i < audio::push_trace(cap, tail, seq, src).len(),
    ensures
        ({
            let t = audio::push_trace(cap, tail, seq, src);
            let barrier = Access::Fence { order: MemOrder::Release };
            let n = t.len() as int;
            &&& n >= 8
            &&& t[2] == trace::stored64(SEQ_OFFSET as int, seq.wrapping_add(1), MemOrder::Relaxed)
            &&& t[3] == barrier
            &&& t[n - 3] matches Access::Store { at, order, .. } && at == TAIL_OFFSET && order
                == MemOrder::Release
            &&& t[n - 2] == barrier
            &&& t[n - 1] == trace::stored64(
                SEQ_OFFSET as int,
                seq.wrapping_add(2),
                MemOrder::Relaxed,
            )
            &&& 3 < i < n - 3 <==> (t[i] matches Access::Store { at, .. } && at >= SHM_HEADER_SIZE)
            &&& i < 2 <==> t[i] is Load
        }),
{
    let t = audio::push_trace(cap, tail, seq, src);
    let bytes = audio::kept(src, cap);
    let n = bytes.len() as int;
    assert(n > 0);
    assert(t.len() == n + 7);
    assert(t[n + 4] == audio::push_leave(tail, seq, n as u64)[0]);
    assert(t[n + 5] == audio::push_leave(tail, seq, n as u64)[1]);
    assert(t[n + 6] == audio::push_leave(tail, seq, n as u64)[2]);
    if 4 <= i < n + 4 {
        assert(t[i] == audio::ring_stores(cap, tail as int, bytes)[i - 4]);
        vstd::arithmetic::div_mod::lemma_mod_bound(tail + (i - 4), cap);
    }
}

/// How an attempt at a read is ordered: it loads `seq` first and last with acquire, and
/// `tail` with acquire as well, and releases `head`, which is the only thing that it
/// stores, after everything else.
pub proof fn attempts_are_ordered(q: ReadRequest, o: ReadSample, i: int)
    requires
        0 < q.cap,
        0 <= i < o.trace(q).len(),
    ensures
        ({
            let t = o.trace(q);
            let n = t.len() as int;
            &&& t[0] == trace::loaded64(SEQ_OFFSET as int, o.seq, MemOrder::Acquire)
            &&& t[i] matches Access::Load { at, order, .. } ==> (at == SEQ_OFFSET || at
                == TAIL_OFFSET) ==> order == MemOrder::Acquire
            &&& t[i] matches Access::Store { at, order, .. } ==> at == HEAD_OFFSET && order
                == MemOrder::Release && i == n - 1
            &&& o.accepted(q) ==> n >= 3 && t[n - 1] is Store && t[n - 2] == trace::loaded64(
                SEQ_OFFSET as int,
                o.seq_after,
                MemOrder::Acquire,
            ) && t[n - 3] == trace::loaded64(
                TAIL_OFFSET as int,
                o.tail_after,
                MemOrder::Acquire,
            )
            &&& !(t[i] is Fence)
        }),
{
    let t = o.trace(q);
    let n = o.bytes.len() as int;
    if o.started() {
        if 3 <= i < n + 3 {
            assert(t[i] == audio::ring_loads(q.cap, o.from(q), o.bytes)[i - 3]);
            vstd::arithmetic::div_mod::lemma_mod_bound(o.from(q) + (i - 3), q.cap);
        }
        assert(t[n + 3] == o.looks_after()[0]);
        assert(t[n + 4] == o.looks_after()[1]);
    }
}

/// How the header is published: what makes it valid is stored last, with release, and
/// loaded first, with acquire. That is the magic for the region, and the frame size for
/// the format.
pub proof fn headers_are_published_last_and_read_first(
    cap: usize,
    fmt: AudioFormat,
    payload_len: nat,
    magic: u64,
    version: u32,
    header_size: u32,
    capacity: u64,
    frame_bytes: u32,
    code: u32,
    sample_rate: u32,
    channels: u32,
)
    requires
        payload_len > 0,
    ensures
        audio::init_trace(cap).last() == trace::stored64(
            MAGIC_OFFSET as int,
            SHM_MAGIC,
            MemOrder::Release,
        ),
        trace::leaves_alone(audio::init_trace(cap).drop_last(), MAGIC_OFFSET as int),
        audio::attach_trace(payload_len, magic, version, header_size, capacity)[0]
            == trace::loaded64(MAGIC_OFFSET as int, magic, MemOrder::Acquire),
        audio::set_format_trace(fmt).last() == trace::stored32(
            FRAME_BYTES_OFFSET as int,
            fmt.frame_bytes,
            MemOrder::Release,
        ),
        trace::leaves_alone(audio::set_format_trace(fmt).drop_last(), FRAME_BYTES_OFFSET as int),
        audio::format_trace(frame_bytes, code, sample_rate, channels)[0] == trace::loaded32(
            FRAME_BYTES_OFFSET as int,
            frame_bytes,
            MemOrder::Acquire,
        ),
{
}

} // verus!
