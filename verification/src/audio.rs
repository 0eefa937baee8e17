//! The audio ring: a header, a payload of `capacity` bytes behind it, one
//! producer and one consumer in different processes.
//!
//! The producer overwrites the oldest bytes and never waits. It brackets every
//! write with the sequence counter `seq` (odd while it writes), so the consumer
//! can tell afterwards whether what it copied was being changed under it.
//!
//! Every function that touches the shared memory says which accesses it makes, as
//! the record it appends to the handle's trace; what another process stored in
//! the meantime decides the values that come back from its loads, and the result
//! is stated for each of them.

use crate::bits;
use crate::format::{AudioFormat, SampleFormat};
use crate::layout::{
    CAPACITY_OFFSET, CHANNELS_OFFSET, FORMAT_OFFSET, FRAME_BYTES_OFFSET, HEADER_SIZE_OFFSET,
    HEAD_OFFSET, MAGIC_OFFSET, SAMPLE_RATE_OFFSET, SEQ_OFFSET, SHM_HEADER_SIZE, SHM_MAGIC,
    SHM_VERSION, TAIL_OFFSET, VERSION_OFFSET,
};
use crate::memory;
use crate::memory::mapping::Unattached;
pub use crate::memory::mapping::{AudioMapping, ShmHeader};
use crate::memory::Region;
use crate::trace;
use crate::trace::{Access, MemOrder};
use vstd::prelude::*;

verus! {

/// The accesses with which a fresh region of ring size `cap` is initialized: the
/// format unset, the counters zero, the magic last.
pub open spec fn init_trace(cap: usize) -> Seq<Access> {
    seq![
        trace::stored32(HEADER_SIZE_OFFSET as int, SHM_HEADER_SIZE as u32, MemOrder::Relaxed),
        trace::stored64(CAPACITY_OFFSET as int, cap as u64, MemOrder::Relaxed),
        trace::stored32(SAMPLE_RATE_OFFSET as int, 0, MemOrder::Relaxed),
        trace::stored32(CHANNELS_OFFSET as int, 0, MemOrder::Relaxed),
        trace::stored32(FORMAT_OFFSET as int, 0, MemOrder::Relaxed),
        trace::stored32(FRAME_BYTES_OFFSET as int, 0, MemOrder::Relaxed),
        trace::stored64(HEAD_OFFSET as int, 0, MemOrder::Relaxed),
        trace::stored64(TAIL_OFFSET as int, 0, MemOrder::Relaxed),
        trace::stored64(SEQ_OFFSET as int, 0, MemOrder::Relaxed),
        trace::stored32(VERSION_OFFSET as int, SHM_VERSION, MemOrder::Relaxed),
        trace::stored64(MAGIC_OFFSET as int, SHM_MAGIC, MemOrder::Release),
    ]
}

/// What is wrong with a header that a handle attaches to, or `None` if nothing
/// is: `payload_len` bytes lie behind it, and the four fields hold what is given.
pub open spec fn attach_fault(
    payload_len: nat,
    magic: u64,
    version: u32,
    header_size: u32,
    capacity: u64,
) -> Option<Seq<char>> {
    if payload_len == 0 {
        Some("region smaller than header"@)
    } else if magic != SHM_MAGIC {
        Some("bad magic (region not initialized yet)"@)
    } else if version != SHM_VERSION {
        Some("version mismatch"@)
    } else if header_size != SHM_HEADER_SIZE {
        Some("ABI/header_size mismatch"@)
    } else if !bits::power_of_two((capacity as usize) as int) || capacity as usize > payload_len {
        Some("bad capacity"@)
    } else {
        None
    }
}

/// The loads with which a header is checked; a field is looked at only if those
/// before it are as they should be.
pub open spec fn attach_trace(
    payload_len: nat,
    magic: u64,
    version: u32,
    header_size: u32,
    capacity: u64,
) -> Seq<Access> {
    let looks = seq![
        trace::loaded64(MAGIC_OFFSET as int, magic, MemOrder::Acquire),
        trace::loaded32(VERSION_OFFSET as int, version, MemOrder::Relaxed),
        trace::loaded32(HEADER_SIZE_OFFSET as int, header_size, MemOrder::Relaxed),
        trace::loaded64(CAPACITY_OFFSET as int, capacity, MemOrder::Relaxed),
    ];
    if payload_len == 0 {
        looks.take(0)
    } else if magic != SHM_MAGIC {
        looks.take(1)
    } else if version != SHM_VERSION {
        looks.take(2)
    } else if header_size != SHM_HEADER_SIZE {
        looks.take(3)
    } else {
        looks
    }
}

impl<'a> AudioMapping<'a> {
    /// Checks the header that the other side initialized, and hands out the ring
    /// size that it gives, or what is wrong with it.
    pub fn check(&mut self) -> (r: Result<usize, &'static str>)
        requires
            old(self).wf(),
        ensures
            final(self).wf(),
            final(self).payload_len() == old(self).payload_len(),
            final(self).region() == old(self).region(),
            exists|magic: u64, version: u32, header_size: u32, capacity: u64|
                {
                    &&& final(self).trace() == old(self).trace() + #[trigger] attach_trace(
                        old(self).payload_len(),
                        magic,
                        version,
                        header_size,
                        capacity,
                    )
                    &&& match (
                        r,
                        attach_fault(
                            old(self).payload_len(),
                            magic,
                            version,
                            header_size,
                            capacity,
                        ),
                    ) {
                        (Err(e), Some(fault)) => e@ == fault,
                        (Ok(cap), None) => cap == capacity as usize,
                        _ => false,
                    }
                },
    {
        let ghost t0 = self.trace();
        let ghost plen = self.payload_len();
        let n: usize = self.payload.len();
        if n == 0 {
            assert(self.trace() =~= t0 + attach_trace(plen, 0, 0, 0, 0));
            return Err("region smaller than header");
        }
        let magic: u64 = self.header.magic.load_acquire(&mut self.trace);
        if magic != SHM_MAGIC {
            assert(self.trace() =~= t0 + attach_trace(plen, magic, 0, 0, 0));
            return Err("bad magic (region not initialized yet)");
        }
        let version: u32 = self.header.version.load_relaxed(&mut self.trace);
        if version != SHM_VERSION {
            assert(self.trace() =~= t0 + attach_trace(plen, magic, version, 0, 0));
            return Err("version mismatch");
        }
        let header_size: u32 = self.header.header_size.load_relaxed(&mut self.trace);
        if header_size as usize != SHM_HEADER_SIZE {
            assert(self.trace() =~= t0 + attach_trace(plen, magic, version, header_size, 0));
            return Err("ABI/header_size mismatch");
        }
        let capacity: u64 = self.header.capacity.load_relaxed(&mut self.trace);
        assert(self.trace() =~= t0 + attach_trace(plen, magic, version, header_size, capacity));
        let cap: usize = capacity as usize;
        if !bits::is_power_of_two(cap) || cap > n {
            return Err("bad capacity");
        }
        Ok(cap)
    }
}

/// A handle to an audio ring. Each process has one; both reach the same memory.
pub struct ShmAudioBuffer<'a> {
    shm: AudioMapping<'a>,
    cap: usize,
}

/// The accesses with which a format is published, the frame size last.
pub open spec fn set_format_trace(fmt: AudioFormat) -> Seq<Access> {
    seq![
        trace::stored32(SAMPLE_RATE_OFFSET as int, fmt.sample_rate, MemOrder::Relaxed),
        trace::stored32(CHANNELS_OFFSET as int, fmt.channels, MemOrder::Relaxed),
        trace::stored32(FORMAT_OFFSET as int, fmt.format.code(), MemOrder::Relaxed),
        trace::stored32(FRAME_BYTES_OFFSET as int, fmt.frame_bytes, MemOrder::Release),
    ]
}

/// The loads with which a format is read, the frame size first; nothing else is
/// looked at while that is 0, and no more than the sample format if that is none.
pub open spec fn format_trace(
    frame_bytes: u32,
    code: u32,
    sample_rate: u32,
    channels: u32,
) -> Seq<Access> {
    let looks = seq![
        trace::loaded32(FRAME_BYTES_OFFSET as int, frame_bytes, MemOrder::Acquire),
        trace::loaded32(FORMAT_OFFSET as int, code, MemOrder::Relaxed),
        trace::loaded32(SAMPLE_RATE_OFFSET as int, sample_rate, MemOrder::Relaxed),
        trace::loaded32(CHANNELS_OFFSET as int, channels, MemOrder::Relaxed),
    ];
    if frame_bytes == 0 {
        looks.take(1)
    } else if SampleFormat::of_code(code) is None {
        looks.take(2)
    } else {
        looks
    }
}

/// What a ring of `cap` bytes keeps of `src`: the newest `cap` bytes.
pub open spec fn kept(src: Seq<u8>, cap: int) -> Seq<u8> {
    if src.len() > cap {
        src.subrange(src.len() - cap, src.len() as int)
    } else {
        src
    }
}

/// The cell that position `pos` of the stream occupies.
pub open spec fn ring_cell(cap: int, pos: int) -> int {
    SHM_HEADER_SIZE + pos % cap
}

/// The stores that put `bytes` into the ring from stream position `pos` on.
pub open spec fn ring_stores(cap: int, pos: int, bytes: Seq<u8>) -> Seq<Access> {
    Seq::new(bytes.len(), |k: int| trace::stored8(ring_cell(cap, pos + k), bytes[k]))
}

/// The loads that got `bytes` out of the ring from stream position `pos` on.
pub open spec fn ring_loads(cap: int, pos: int, bytes: Seq<u8>) -> Seq<Access> {
    Seq::new(bytes.len(), |k: int| trace::loaded8(ring_cell(cap, pos + k), bytes[k]))
}

/// The accesses before the bytes of a push go out: the counters are read, and
/// `seq` becomes odd.
pub open spec fn push_enter(tail: u64, seq: u64) -> Seq<Access> {
    seq![
        trace::loaded64(TAIL_OFFSET as int, tail, MemOrder::Relaxed),
        trace::loaded64(SEQ_OFFSET as int, seq, MemOrder::Relaxed),
        trace::stored64(SEQ_OFFSET as int, seq.wrapping_add(1), MemOrder::Relaxed),
        Access::Fence { order: MemOrder::Release },
    ]
}

/// The accesses after the `n` bytes of a push went out: `tail` moves, and `seq`
/// becomes even again.
pub open spec fn push_leave(tail: u64, seq: u64, n: u64) -> Seq<Access> {
    seq![
        trace::stored64(TAIL_OFFSET as int, tail.wrapping_add(n), MemOrder::Release),
        Access::Fence { order: MemOrder::Release },
        trace::stored64(SEQ_OFFSET as int, seq.wrapping_add(2), MemOrder::Relaxed),
    ]
}

/// The accesses of a push of `src` into a ring of `cap` bytes whose counters read
/// `tail` and `seq`. Pushing nothing touches nothing.
pub open spec fn push_trace(cap: int, tail: u64, seq: u64, src: Seq<u8>) -> Seq<Access> {
    let bytes = kept(src, cap);
    if bytes.len() == 0 {
        Seq::empty()
    } else {
        push_enter(tail, seq) + ring_stores(cap, tail as int, bytes) + push_leave(
            tail,
            seq,
            bytes.len() as u64,
        )
    }
}

/// The most whole frames that fit `n` bytes, in bytes.
pub open spec fn whole_frames(n: int, frame: int) -> int {
    n / frame * frame
}

/// What a read is asked for.
pub struct ReadRequest {
    /// Size of the ring.
    pub cap: int,
    /// Bytes per frame.
    pub frame: int,
    /// Bytes that the caller has room for.
    pub room: int,
    /// Bytes of backlog that the caller puts up with.
    pub max_latency: int,
}

impl ReadRequest {
    /// Where the read starts, given the counters: at `head`, or if that would leave
    /// more backlog than the caller puts up with, at the newest whole frames within
    /// the budget; and if the ring no longer holds all that is left then, at the
    /// newest whole frames that it does hold. A `head` beyond `tail` counts as `tail`.
    pub open spec fn from(self, tail: int, head: int) -> int {
        let at = if head > tail {
            tail
        } else {
            head
        };
        let budget = whole_frames(self.max_latency, self.frame);
        let near = if tail - at > budget {
            tail - budget
        } else {
            at
        };
        if tail - near > self.cap {
            tail - whole_frames(self.cap, self.frame)
        } else {
            near
        }
    }

    /// How many bytes the read takes: as many whole frames as are there and as
    /// there is room for.
    pub open spec fn want(self, tail: int, head: int) -> int {
        let there = tail - self.from(tail, head);
        let room = whole_frames(self.room, self.frame);
        whole_frames(
            if room < there {
                room
            } else {
                there
            },
            self.frame,
        )
    }
}

/// What one attempt at a read saw.
pub struct ReadSample {
    /// `seq` before the copy.
    pub seq: u64,
    pub tail: u64,
    pub head: u64,
    /// The bytes that were copied.
    pub bytes: Seq<u8>,
    /// `tail` after the copy.
    pub tail_after: u64,
    /// `seq` after the copy.
    pub seq_after: u64,
}

impl ReadSample {
    /// Where the attempt starts reading.
    pub open spec fn from(self, q: ReadRequest) -> int {
        q.from(self.tail as int, self.head as int)
    }

    /// How many bytes the attempt reads.
    pub open spec fn want(self, q: ReadRequest) -> int {
        q.want(self.tail as int, self.head as int)
    }

    /// The attempt started while the producer was not writing.
    pub open spec fn started(self) -> bool {
        self.seq % 2 == 0
    }

    /// The attempt delivers: `seq` was even and stayed as it was, and the
    /// producer has not lapped the bytes that were read.
    pub open spec fn accepted(self, q: ReadRequest) -> bool {
        &&& self.started()
        &&& self.seq_after == self.seq
        &&& self.tail_after.wrapping_sub(self.from(q) as u64) <= q.cap
    }

    /// The accesses before the copy.
    pub open spec fn looks_before(self) -> Seq<Access> {
        seq![
            trace::loaded64(SEQ_OFFSET as int, self.seq, MemOrder::Acquire),
            trace::loaded64(TAIL_OFFSET as int, self.tail, MemOrder::Acquire),
            trace::loaded64(HEAD_OFFSET as int, self.head, MemOrder::Relaxed),
        ]
    }

    /// The accesses after the copy, up to the decision.
    pub open spec fn looks_after(self) -> Seq<Access> {
        seq![
            trace::loaded64(TAIL_OFFSET as int, self.tail_after, MemOrder::Acquire),
            trace::loaded64(SEQ_OFFSET as int, self.seq_after, MemOrder::Acquire),
        ]
    }

    /// The store that consumes what was delivered.
    pub open spec fn consume(self, q: ReadRequest) -> Seq<Access> {
        seq![
            trace::stored64(
                HEAD_OFFSET as int,
                (self.from(q) + self.want(q)) as u64,
                MemOrder::Release,
            ),
        ]
    }

    /// The accesses of the attempt. One that finds the producer writing ends
    /// there.
    pub open spec fn trace(self, q: ReadRequest) -> Seq<Access> {
        if !self.started() {
            self.looks_before().take(1)
        } else {
            let looks = self.looks_before() + ring_loads(q.cap, self.from(q), self.bytes)
                + self.looks_after();
            if self.accepted(q) {
                looks + self.consume(q)
            } else {
                looks
            }
        }
    }

    /// The attempt copied as many bytes as it was to.
    pub open spec fn complete(self, q: ReadRequest) -> bool {
        self.started() ==> self.bytes.len() == self.want(q)
    }
}

/// The accesses of several attempts, one after the other.
pub open spec fn attempts_trace(q: ReadRequest, tries: Seq<ReadSample>) -> Seq<Access>
    decreases tries.len(),
{
    if tries.len() == 0 {
        Seq::empty()
    } else {
        attempts_trace(q, tries.drop_last()) + tries.last().trace(q)
    }
}

/// `bytes`, and silence up to a length of `n`.
pub open spec fn with_silence(bytes: Seq<u8>, n: nat) -> Seq<u8> {
    Seq::new(
        n,
        |i: int|
            if i < bytes.len() {
                bytes[i]
            } else {
                0u8
            },
    )
}

/// An attempt that saw `o` turned the record `t0` into `t1`, left `out` behind and
/// gave `r`: the bytes and silence behind them if it was accepted, and nothing but
/// silence otherwise.
pub open spec fn attempt_made(
    q: ReadRequest,
    o: ReadSample,
    t0: Seq<Access>,
    t1: Seq<Access>,
    out: Seq<u8>,
    r: Option<usize>,
) -> bool {
    &&& o.complete(q)
    &&& t1 == t0 + o.trace(q)
    &&& out.len() == q.room
    &&& match r {
        Some(n) => {
            &&& o.accepted(q)
            &&& n == o.want(q)
            &&& out == with_silence(o.bytes, out.len())
        },
        None => {
            &&& !o.accepted(q)
            &&& out == with_silence(Seq::empty(), out.len())
        },
    }
}

/// A read that went by `frame_bytes` and made the attempts `tries`, at most `most`
/// of them, turned the record `t0` into `t1`, left `out` behind and gave `r`.
/// Attempts follow one another until one is accepted; what that one saw is
/// delivered. If none is, there is silence.
pub open spec fn quantum_read(
    frame_bytes: u32,
    q: ReadRequest,
    tries: Seq<ReadSample>,
    most: nat,
    t0: Seq<Access>,
    t1: Seq<Access>,
    out: Seq<u8>,
    r: Option<usize>,
) -> bool {
    &&& t1 == t0 + seq![
        trace::loaded32(FRAME_BYTES_OFFSET as int, frame_bytes, MemOrder::Relaxed),
    ] + attempts_trace(q, tries)
    &&& tries.len() <= most
    &&& forall|i: int| 0 <= i < tries.len() ==> (#[trigger] tries[i]).complete(q)
    &&& forall|i: int| 0 <= i < tries.len() - 1 ==> !(#[trigger] tries[i]).accepted(q)
    &&& out.len() == q.room
    &&& match r {
        Some(n) => {
            &&& tries.len() > 0
            &&& tries.last().accepted(q)
            &&& n == tries.last().want(q)
            &&& out == with_silence(tries.last().bytes, out.len())
        },
        None => {
            &&& tries.len() == most
            &&& tries.len() > 0 ==> !tries.last().accepted(q)
            &&& out == with_silence(Seq::empty(), out.len())
        },
    }
}

/// Bytes per frame that a read goes by: what the header says, but at least 1.
pub open spec fn frame_or_one(frame_bytes: u32) -> int {
    if frame_bytes == 0 {
        1
    } else {
        frame_bytes as int
    }
}

/// Where in the ring the positions behind `pos` lie.
pub proof fn lemma_ring_index(pos: int, cap: int, k: int)
    requires
        0 < cap,
        0 <= k,
        pos % cap + k < 2 * cap,
    ensures
        pos % cap + k < cap ==> (pos + k) % cap == pos % cap + k,
        pos % cap + k >= cap ==> (pos + k) % cap == pos % cap + k - cap,
{
    vstd::arithmetic::div_mod::lemma_fundamental_div_mod(pos, cap);
    let q = pos / cap;
    let r = pos % cap;
    if r + k < cap {
        assert(pos + k == q * cap + (r + k)) by (nonlinear_arith)
            requires
                pos == cap * q + r,
        ;
        vstd::arithmetic::div_mod::lemma_fundamental_div_mod_converse(pos + k, cap, q, r + k);
    } else {
        assert(pos + k == (q + 1) * cap + (r + k - cap)) by (nonlinear_arith)
            requires
                pos == cap * q + r,
        ;
        vstd::arithmetic::div_mod::lemma_fundamental_div_mod_converse(
            pos + k,
            cap,
            q + 1,
            r + k - cap,
        );
    }
}

/// Bytes that are put into the ring from `pos` on go to consecutive cells, in one
/// run up to the ring's end and another one from its start.
pub proof fn lemma_ring_stores(cap: int, pos: int, bytes: Seq<u8>)
    requires
        0 < bytes.len() <= cap,
    ensures
        ({
            let start = pos % cap;
            let first = cap - start;
            &&& bytes.len() <= first ==> ring_stores(cap, pos, bytes) == memory::byte_stores(
                SHM_HEADER_SIZE + start,
                bytes,
            )
            &&& bytes.len() > first ==> ring_stores(cap, pos, bytes) == memory::byte_stores(
                SHM_HEADER_SIZE + start,
                bytes.subrange(0, first),
            ) + memory::byte_stores(
                SHM_HEADER_SIZE as int,
                bytes.subrange(first, bytes.len() as int),
            )
        }),
{
    let start = pos % cap;
    let first = cap - start;
    assert forall|k: int| 0 <= k < bytes.len() implies #[trigger] ring_cell(cap, pos + k) == (
    if k < first {
        SHM_HEADER_SIZE + start + k
    } else {
        SHM_HEADER_SIZE + k - first
    }) by {
        lemma_ring_index(pos, cap, k);
    }
    if bytes.len() <= first {
        assert(ring_stores(cap, pos, bytes) =~= memory::byte_stores(SHM_HEADER_SIZE + start, bytes));
    } else {
        assert(ring_stores(cap, pos, bytes) =~= memory::byte_stores(
            SHM_HEADER_SIZE + start,
            bytes.subrange(0, first),
        ) + memory::byte_stores(
            SHM_HEADER_SIZE as int,
            bytes.subrange(first, bytes.len() as int),
        ));
    }
}

/// A whole number of frames is at most what it was taken from, and a multiple of
/// the frame.
pub proof fn lemma_whole_frames(n: int, frame: int)
    requires
        0 <= n,
        0 < frame,
    ensures
        0 <= whole_frames(n, frame) <= n,
        n < whole_frames(n, frame) + frame,
        whole_frames(n, frame) % frame == 0,
{
    vstd::arithmetic::div_mod::lemma_fundamental_div_mod(n, frame);
    assert(whole_frames(n, frame) == n - n % frame) by (nonlinear_arith)
        requires
            n == frame * (n / frame) + n % frame,
            whole_frames(n, frame) == n / frame * frame,
    ;
    vstd::arithmetic::div_mod::lemma_mod_multiples_basic(n / frame, frame);
}

/// What a read starts from and takes.
#[derive(Clone, Copy, Debug, PartialEq, Eq, Structural)]
pub struct ReadPlan {
    /// Stream position of the first byte.
    pub from: u64,
    /// Bytes to take.
    pub want: u64,
}

/// Decides where a read starts and how much it takes, from the counters that were
/// seen, the ring size, the frame size, the room for output and the allowed backlog.
pub fn plan_read(
    tail: u64,
    head: u64,
    cap: u64,
    frame: u64,
    room: u64,
    max_latency_bytes: u64,
) -> (p: ReadPlan)
    requires
        frame > 0,
    ensures
        ({
            let q = ReadRequest {
                cap: cap as int,
                frame: frame as int,
                room: room as int,
                max_latency: max_latency_bytes as int,
            };
            &&& p.from == q.from(tail as int, head as int)
            &&& p.want == q.want(tail as int, head as int)
        }),
        p.from + p.want <= tail,
        tail - p.from <= cap,
        p.want <= room,
        p.want % frame == 0,
{
    proof {
        lemma_whole_frames(room as int, frame as int);
    }
    let quantum: u64 = (room / frame) * frame;
    let at: u64 = if head > tail {
        tail
    } else {
        head
    };
    proof {
        lemma_whole_frames(max_latency_bytes as int, frame as int);
        lemma_whole_frames(cap as int, frame as int);
    }
    let budget: u64 = (max_latency_bytes / frame) * frame;
    let near: u64 = if tail - at > budget {
        tail - budget
    } else {
        at
    };
    let from: u64 = if tail - near > cap {
        tail - (cap / frame) * frame
    } else {
        near
    };
    let there: u64 = tail - from;
    let most: u64 = if quantum < there {
        quantum
    } else {
        there
    };
    proof {
        lemma_whole_frames(most as int, frame as int);
    }
    ReadPlan { from, want: (most / frame) * frame }
}

/// Zeroes `out` from byte `n` on.
fn silence_from(out: &mut [u8], n: usize)
    requires
        n <= old(out)@.len(),
    ensures
        final(out)@ == with_silence(old(out)@.take(n as int), old(out)@.len()),
{
    let ghost before = out@;
    let all: usize = out.len();
    let mut i: usize = n;
    while i < all
        invariant
            n <= i <= all == out@.len() == before.len(),
            forall|k: int| 0 <= k < n ==> #[trigger] out@[k] == before[k],
            forall|k: int| n <= k < i ==> #[trigger] out@[k] == 0,
        decreases all - i,
    {
        out[i] = 0;
        i = i + 1;
    }
    assert(out@ =~= with_silence(before.take(n as int), before.len()));
}

/// Decides whether what was copied may be delivered: `seq` did not move, and the
/// producer is not more than the ring ahead of the first byte.
pub fn read_is_intact(seq: u64, seq_after: u64, tail_after: u64, from: u64, cap: usize) -> (ok: bool)
    ensures
        ok == (seq_after == seq && tail_after.wrapping_sub(from) <= cap),
{
    seq_after == seq && tail_after.wrapping_sub(from) <= cap as u64
}

impl<'a> ShmAudioBuffer<'a> {
    /// The cells are where the layout says, and the ring size is a power of two
    /// that the payload has room for.
    pub closed spec fn wf(&self) -> bool {
        &&& self.shm.wf()
        &&& bits::power_of_two(self.cap as int)
        &&& self.cap <= self.shm.payload_len()
    }

    /// Size of the ring.
    pub closed spec fn cap(&self) -> usize {
        self.cap
    }

    /// The cells of the region.
    pub closed spec fn region(&self) -> Region {
        self.shm.region()
    }

    /// The accesses made so far.
    pub closed spec fn trace(&self) -> Seq<Access> {
        self.shm.trace()
    }

    /// A ring is never empty, and its size is a power of two.
    pub proof fn size_is_a_power_of_two(&self)
        requires
            self.wf(),
        ensures
            0 < self.cap(),
            bits::power_of_two(self.cap() as int),
    {
        bits::double_is_power(self.cap as int);
    }

    /// Initializes a region as the host does, once, before anything attaches to
    /// it. The format is left unset; the producer publishes it.
    pub fn init(shm: AudioMapping<'a>, cap: usize) -> (b: Self)
        requires
            shm.wf(),
            bits::power_of_two(cap as int),
            cap <= shm.payload_len(),
        ensures
            b.wf(),
            b.cap() == cap,
            b.region() == shm.region(),
            b.trace() == shm.trace() + init_trace(cap),
    {
        let mut m = shm;
        m.header.header_size.store_relaxed(SHM_HEADER_SIZE as u32, &mut m.trace);
        m.header.capacity.store_relaxed(cap as u64, &mut m.trace);
        m.header.sample_rate.store_relaxed(0, &mut m.trace);
        m.header.channels.store_relaxed(0, &mut m.trace);
        m.header.format.store_relaxed(0, &mut m.trace);
        m.header.frame_bytes.store_relaxed(0, &mut m.trace);
        m.header.head.store_relaxed(0, &mut m.trace);
        m.header.tail.store_relaxed(0, &mut m.trace);
        m.header.seq.store_relaxed(0, &mut m.trace);
        m.header.version.store_relaxed(SHM_VERSION, &mut m.trace);
        m.header.magic.store_release(SHM_MAGIC, &mut m.trace);
        assert(m.trace@ =~= shm.trace@ + init_trace(cap));
        ShmAudioBuffer { shm: m, cap }
    }

    /// Attaches to a region that the other side initialized, or hands the mapping back
    /// and says what is wrong with it; then it can be tried again later. The format need
    /// not be set yet.
    pub fn attach(shm: AudioMapping<'a>) -> (r: Result<Self, Unattached<AudioMapping<'a>>>)
        requires
            shm.wf(),
        ensures
            r matches Err(u) ==> {
                &&& u.shm.wf()
                &&& u.shm.payload_len() == shm.payload_len()
                &&& u.shm.region() == shm.region()
            },
            exists|magic: u64, version: u32, header_size: u32, capacity: u64|
                {
                    let now = shm.trace() + #[trigger] attach_trace(
                        shm.payload_len(),
                        magic,
                        version,
                        header_size,
                        capacity,
                    );
                    match (
                        r,
                        attach_fault(shm.payload_len(), magic, version, header_size, capacity),
                    ) {
                        (Err(u), Some(fault)) => u.fault@ == fault && u.shm.trace() == now,
                        (Ok(b), None) => {
                            &&& b.wf()
                            &&& b.cap() == capacity as usize
                            &&& b.trace() == now
                            &&& b.region() == shm.region()
                        },
                        _ => false,
                    }
                },
    {
        let mut m = shm;
        match m.check() {
            Ok(cap) => Ok(ShmAudioBuffer { shm: m, cap }),
            Err(fault) => Err(Unattached { shm: m, fault }),
        }
    }

    /// Size of the ring.
    pub fn capacity(&self) -> (n: usize)
        ensures
            n == self.cap(),
    {
        self.cap
    }

    /// The counters `head` and `tail` as they are now.
    pub fn pointers(&mut self) -> (p: (u64, u64))
        requires
            old(self).wf(),
        ensures
            final(self).wf(),
            final(self).cap() == old(self).cap(),
            final(self).region() == old(self).region(),
            final(self).trace() == old(self).trace() + seq![
                trace::loaded64(HEAD_OFFSET as int, p.0, MemOrder::Relaxed),
                trace::loaded64(TAIL_OFFSET as int, p.1, MemOrder::Acquire),
            ],
    {
        let head: u64 = self.shm.header.head.load_relaxed(&mut self.shm.trace);
        let tail: u64 = self.shm.header.tail.load_acquire(&mut self.shm.trace);
        assert(self.trace() =~= old(self).trace() + seq![
            trace::loaded64(HEAD_OFFSET as int, head, MemOrder::Relaxed),
            trace::loaded64(TAIL_OFFSET as int, tail, MemOrder::Acquire),
        ]);
        (head, tail)
    }

    /// Publishes the negotiated format, as the producer does when it starts.
    pub fn set_format(&mut self, fmt: AudioFormat)
        requires
            old(self).wf(),
        ensures
            final(self).wf(),
            final(self).cap() == old(self).cap(),
            final(self).region() == old(self).region(),
            final(self).trace() == old(self).trace() + set_format_trace(fmt),
    {
        self.shm.header.sample_rate.store_relaxed(fmt.sample_rate, &mut self.shm.trace);
        self.shm.header.channels.store_relaxed(fmt.channels, &mut self.shm.trace);
        self.shm.header.format.store_relaxed(fmt.format.to_u32(), &mut self.shm.trace);
        self.shm.header.frame_bytes.store_release(fmt.frame_bytes, &mut self.shm.trace);
        assert(self.trace() =~= old(self).trace() + set_format_trace(fmt));
    }

    /// The format, if the producer has published one.
    pub fn format(&mut self) -> (r: Option<AudioFormat>)
        requires
            old(self).wf(),
        ensures
            final(self).wf(),
            final(self).cap() == old(self).cap(),
            final(self).region() == old(self).region(),
            exists|frame_bytes: u32, code: u32, sample_rate: u32, channels: u32|
                {
                    &&& final(self).trace() == old(self).trace() + #[trigger] format_trace(
                        frame_bytes,
                        code,
                        sample_rate,
                        channels,
                    )
                    &&& r == AudioFormat::of_fields(frame_bytes, code, sample_rate, channels)
                },
    {
        let ghost t0 = self.trace();
        let frame_bytes: u32 = self.shm.header.frame_bytes.load_acquire(&mut self.shm.trace);
        if frame_bytes == 0 {
            assert(self.trace() =~= t0 + format_trace(frame_bytes, 0, 0, 0));
            return None;
        }
        let code: u32 = self.shm.header.format.load_relaxed(&mut self.shm.trace);
        match SampleFormat::from_u32(code) {
            None => {
                assert(self.trace() =~= t0 + format_trace(frame_bytes, code, 0, 0));
                None
            },
            Some(format) => {
                let sample_rate: u32 = self.shm.header.sample_rate.load_relaxed(
                    &mut self.shm.trace,
                );
                let channels: u32 = self.shm.header.channels.load_relaxed(&mut self.shm.trace);
                assert(self.trace() =~= t0 + format_trace(
                    frame_bytes,
                    code,
                    sample_rate,
                    channels,
                ));
                Some(AudioFormat { sample_rate, channels, format, frame_bytes })
            },
        }
    }

    /// Where stream position `pos` lies in the ring.
    fn mask(&self, pos: u64) -> (i: usize)
        requires
            self.wf(),
        ensures
            i == pos as int % self.cap() as int,
            i < self.cap(),
    {
        bits::masked(pos, self.cap)
    }

    /// Writes `src` behind what was written before, over the oldest bytes, as the
    /// producer does. Of a `src` longer than the ring the newest bytes survive.
    pub fn push_overwrite(&mut self, src: &[u8])
        requires
            old(self).wf(),
        ensures
            final(self).wf(),
            final(self).cap() == old(self).cap(),
            final(self).region() == old(self).region(),
            exists|tail: u64, seq: u64|
                final(self).trace() == old(self).trace() + #[trigger] push_trace(
                    old(self).cap() as int,
                    tail,
                    seq,
                    src@,
                ),
    {
        let ghost t0 = self.trace();
        let ghost cap = self.cap() as int;
        let whole: usize = src.len();
        let bytes: &[u8] = if whole > self.cap {
            &src[whole - self.cap..whole]
        } else {
            src
        };
        assert(bytes@ == kept(src@, cap));
        let n: usize = bytes.len();
        if n == 0 {
            assert(self.trace() =~= t0 + push_trace(cap, 0, 0, src@));
            return;
        }
        let tail: u64 = self.shm.header.tail.load_relaxed(&mut self.shm.trace);
        let seq: u64 = self.shm.header.seq.load_relaxed(&mut self.shm.trace);
        self.shm.header.seq.store_relaxed(seq.wrapping_add(1), &mut self.shm.trace);
        memory::fence_release(&mut self.shm.trace);
        assert(self.trace() =~= t0 + push_enter(tail, seq));

        let start: usize = self.mask(tail);
        if n <= self.cap - start {
            self.shm.payload.copy_in(start, bytes, &mut self.shm.trace);
        } else {
            let first: usize = self.cap - start;
            self.shm.payload.copy_in(start, &bytes[0..first], &mut self.shm.trace);
            self.shm.payload.copy_in(0, &bytes[first..n], &mut self.shm.trace);
        }
        proof {
            lemma_ring_stores(cap, tail as int, bytes@);
            assert(self.trace() =~= t0 + push_enter(tail, seq) + ring_stores(
                cap,
                tail as int,
                bytes@,
            ));
        }

        self.shm.header.tail.store_release(tail.wrapping_add(n as u64), &mut self.shm.trace);
        memory::fence_release(&mut self.shm.trace);
        self.shm.header.seq.store_relaxed(seq.wrapping_add(2), &mut self.shm.trace);
        assert(self.trace() =~= t0 + push_trace(cap, tail, seq, src@));
    }

    /// Copies `n` bytes of the stream, from position `from` on, out of the ring.
    fn copy_ring_out(&mut self, from: u64, n: usize, out: &mut [u8])
        requires
            old(self).wf(),
            n <= old(out)@.len(),
            from + n <= u64::MAX,
        ensures
            final(self).wf(),
            final(self).cap() == old(self).cap(),
            final(self).region() == old(self).region(),
            final(out)@.len() == old(out)@.len(),
            final(self).trace() == old(self).trace() + ring_loads(
                old(self).cap() as int,
                from as int,
                final(out)@.take(n as int),
            ),
    {
        let ghost t0 = self.trace();
        let ghost cap = self.cap() as int;
        let mut done: usize = 0;
        while done < n
            invariant
                self.wf(),
                self.cap() == cap == old(self).cap(),
                self.region() == old(self).region(),
                done <= n <= out@.len(),
                out@.len() == old(out)@.len(),
                from + n <= u64::MAX,
                self.trace() =~= t0 + ring_loads(cap, from as int, out@.take(done as int)),
            decreases n - done,
        {
            let start: usize = self.mask(from + done as u64);
            let run: usize = self.cap - start;
            let len: usize = if n - done < run {
                n - done
            } else {
                run
            };
            let ghost before = out@;
            self.shm.payload.copy_out(start, out, done, done + len, &mut self.shm.trace);
            proof {
                let pos = from as int;
                let got = out@.take(done + len);
                assert(before.take(done as int) =~= out@.take(done as int));
                assert forall|k: int| done <= k < done + len implies #[trigger] ring_cell(
                    cap,
                    pos + k,
                ) == SHM_HEADER_SIZE + start + (k - done) by {
                    lemma_ring_index(pos + done, cap, k - done);
                    assert(pos + done + (k - done) == pos + k);
                }
                assert(ring_loads(cap, pos, got) =~= ring_loads(cap, pos, out@.take(done as int))
                    + memory::byte_loads(
                    SHM_HEADER_SIZE + start,
                    out@.subrange(done as int, done + len),
                ));
            }
            done = done + len;
        }
    }

    /// One attempt at a read: copies whole frames out of the ring and delivers
    /// them if nothing was written under it. What is delivered is consumed, and
    /// the rest of `out` is silenced. `None` tells to try again; `out` is then
    /// silence.
    pub fn read_attempt(&mut self, out: &mut [u8], frame: u64, max_latency_bytes: u64) -> (r: Option<
        usize,
    >)
        requires
            old(self).wf(),
            frame > 0,
        ensures
            final(self).wf(),
            final(self).cap() == old(self).cap(),
            final(self).region() == old(self).region(),
            exists|o: ReadSample|
                #[trigger] attempt_made(
                    (ReadRequest {
                        cap: old(self).cap() as int,
                        frame: frame as int,
                        room: old(out)@.len() as int,
                        max_latency: max_latency_bytes as int,
                    }),
                    o,
                    old(self).trace(),
                    final(self).trace(),
                    final(out)@,
                    r,
                ),
    {
        let ghost q = ReadRequest {
            cap: self.cap() as int,
            frame: frame as int,
            room: out@.len() as int,
            max_latency: max_latency_bytes as int,
        };
        let ghost t0 = self.trace();
        let seq: u64 = self.shm.header.seq.load_acquire(&mut self.shm.trace);
        if seq % 2 == 1 {
            silence_from(out, 0);
            proof {
                assert(old(out)@.take(0) =~= Seq::<u8>::empty());
                let o = ReadSample {
                    seq,
                    tail: 0,
                    head: 0,
                    bytes: Seq::empty(),
                    tail_after: 0,
                    seq_after: 0,
                };
                assert(self.trace() =~= t0 + o.trace(q));
                assert(attempt_made(q, o, t0, self.trace(), out@, None));
            }
            return None;
        }
        let tail: u64 = self.shm.header.tail.load_acquire(&mut self.shm.trace);
        let head: u64 = self.shm.header.head.load_relaxed(&mut self.shm.trace);
        let plan: ReadPlan = plan_read(
            tail,
            head,
            self.cap as u64,
            frame,
            out.len() as u64,
            max_latency_bytes,
        );
        let n: usize = plan.want as usize;
        self.copy_ring_out(plan.from, n, out);
        let tail_after: u64 = self.shm.header.tail.load_acquire(&mut self.shm.trace);
        let seq_after: u64 = self.shm.header.seq.load_acquire(&mut self.shm.trace);
        let ghost o = ReadSample {
            seq,
            tail,
            head,
            bytes: out@.take(n as int),
            tail_after,
            seq_after,
        };
        assert(self.trace() =~= t0 + o.looks_before() + ring_loads(q.cap, o.from(q), o.bytes)
            + o.looks_after());
        if !read_is_intact(seq, seq_after, tail_after, plan.from, self.cap) {
            assert(self.trace() =~= t0 + o.trace(q));
            let ghost copied = out@;
            silence_from(out, 0);
            assert(copied.take(0) =~= Seq::<u8>::empty());
            assert(attempt_made(q, o, t0, self.trace(), out@, None));
            return None;
        }
        self.shm.header.head.store_release(plan.from + plan.want, &mut self.shm.trace);
        assert(self.trace() =~= t0 + o.trace(q));
        silence_from(out, n);
        proof {
            assert(attempt_made(q, o, t0, self.trace(), out@, Some(n)));
        }
        Some(n)
    }

    /// Reads the newest audio into `out`, as the consumer does on every cycle: a
    /// whole number of frames, and silence behind them. If the backlog exceeds
    /// `max_latency_bytes`, the oldest audio is dropped. Gives the number of live
    /// bytes, or `None` and nothing but silence if the producer got in the way of each
    /// of `attempts` attempts.
    pub fn read_quantum(&mut self, out: &mut [u8], max_latency_bytes: u64, attempts: u64) -> (r:
        Option<usize>)
        requires
            old(self).wf(),
        ensures
            final(self).wf(),
            final(self).cap() == old(self).cap(),
            final(self).region() == old(self).region(),
            exists|frame_bytes: u32, tries: Seq<ReadSample>|
                #[trigger] quantum_read(
                    frame_bytes,
                    (ReadRequest {
                        cap: old(self).cap() as int,
                        frame: frame_or_one(frame_bytes),
                        room: old(out)@.len() as int,
                        max_latency: max_latency_bytes as int,
                    }),
                    tries,
                    attempts as nat,
                    old(self).trace(),
                    final(self).trace(),
                    final(out)@,
                    r,
                ),
    {
        let ghost t0 = self.trace();
        let ghost cap = self.cap();
        let ghost room = out@.len();
        let frame_bytes: u32 = self.shm.header.frame_bytes.load_relaxed(&mut self.shm.trace);
        let frame: u64 = if frame_bytes == 0 {
            1
        } else {
            frame_bytes as u64
        };
        let ghost q = ReadRequest {
            cap: cap as int,
            frame: frame_or_one(frame_bytes),
            room: room as int,
            max_latency: max_latency_bytes as int,
        };
        let ghost look = seq![
            trace::loaded32(FRAME_BYTES_OFFSET as int, frame_bytes, MemOrder::Relaxed),
        ];
        let ghost mut tries: Seq<ReadSample> = Seq::empty();
        let mut left: u64 = attempts;
        assert(self.trace() =~= t0 + look + attempts_trace(q, tries));
        while left > 0
            invariant
                self.wf(),
                self.cap() == cap == old(self).cap(),
                self.region() == old(self).region(),
                out@.len() == room == old(out)@.len(),
                frame == q.frame,
                frame > 0,
                q.cap == cap,
                q.room == room,
                q.max_latency == max_latency_bytes,
                left + tries.len() == attempts,
                t0 == old(self).trace(),
                q.frame == frame_or_one(frame_bytes),
                look == seq![
                    trace::loaded32(FRAME_BYTES_OFFSET as int, frame_bytes, MemOrder::Relaxed),
                ],
                self.trace() == t0 + look + attempts_trace(q, tries),
                forall|i: int|
                    0 <= i < tries.len() ==> (#[trigger] tries[i]).complete(q)
                        && !tries[i].accepted(q),
            decreases left,
        {
            let ghost before = self.trace();
            let r: Option<usize> = self.read_attempt(out, frame, max_latency_bytes);
            proof {
                let o = choose|o: ReadSample|
                    #[trigger] attempt_made(q, o, before, self.trace(), out@, r);
                let seen = tries;
                tries = tries.push(o);
                assert(tries.drop_last() =~= seen);
                assert(self.trace() =~= t0 + look + attempts_trace(q, tries));
            }
            if r.is_some() {
                assert(quantum_read(
                    frame_bytes,
                    q,
                    tries,
                    attempts as nat,
                    t0,
                    self.trace(),
                    out@,
                    r,
                ));
                return r;
            }
            left = left - 1;
        }
        let ghost last = out@;
        silence_from(out, 0);
        assert(last.take(0) =~= Seq::<u8>::empty());
        assert(quantum_read(
            frame_bytes,
            q,
            tries,
            attempts as nat,
            t0,
            self.trace(),
            out@,
            None,
        ));
        None
    }
}

} // verus!
