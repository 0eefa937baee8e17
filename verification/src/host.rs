//! The host's side of the bridge, apart from its calls: how the region is divided,
//! how much audio may wait, and what playback is told.

use crate::audio;
use crate::audio::{ReadRequest, ReadSample, ShmAudioBuffer};
use crate::bits;
use crate::format::AudioFormat;
use crate::layout::{
    AUDIO_REGION_BYTES, HEAD_OFFSET, SHM_HEADER_SIZE, TAIL_OFFSET, VIDEO_HEADER_SIZE,
};
use crate::text;
use crate::trace;
use crate::trace::{Access, MemOrder};
use crate::video;
use vstd::prelude::*;

verus! {

/// How a mapped region is used.
#[derive(Clone, Copy, Debug, PartialEq, Eq)]
pub struct RegionPlan {
    /// Bytes of the audio part, header included. It starts at offset 0.
    pub audio_len: usize,
    /// Size of the audio ring.
    pub capacity: usize,
    /// Offset and length of the video part, if there is one.
    pub video: Option<(usize, usize)>,
}

/// The text that refuses a region.
pub open spec fn too_small(total: usize) -> Seq<char> {
    "shm region "@ + text::decimal(total as nat) + " B too small for header "@ + text::decimal(
        SHM_HEADER_SIZE as nat,
    ) + " B"@
}

/// Divides a region of `total` bytes. Audio has it all, unless video is wanted and
/// more than a video header lies beyond the bytes that are set aside for audio: then
/// audio is pinned to those. The ring is as large as a power of two can be. A region without room
/// behind the header is refused.
pub fn plan_region(total: usize, want_video: bool) -> (r: Result<RegionPlan, String>)
    ensures
        match r {
            Ok(plan) => {
                &&& total > SHM_HEADER_SIZE
                &&& plan.video is Some == (want_video && total > AUDIO_REGION_BYTES
                    + VIDEO_HEADER_SIZE)
                &&& plan.video matches Some(v) ==> {
                    &&& plan.audio_len == AUDIO_REGION_BYTES
                    &&& v.0 == AUDIO_REGION_BYTES
                    &&& v.1 == total - AUDIO_REGION_BYTES
                }
                &&& plan.video is None ==> plan.audio_len == total
                &&& bits::largest_power_up_to(
                    plan.capacity as int,
                    plan.audio_len - SHM_HEADER_SIZE,
                )
                &&& SHM_HEADER_SIZE + plan.capacity <= plan.audio_len <= total
                &&& plan.audio_len - SHM_HEADER_SIZE < 2 * plan.capacity
            },
            Err(e) => total <= SHM_HEADER_SIZE && e@ == too_small(total),
        },
{
    if total <= SHM_HEADER_SIZE {
        let mut e: String = "shm region ".to_owned();
        text::push_decimal(&mut e, total as u64);
        e.append(" B too small for header ");
        text::push_decimal(&mut e, SHM_HEADER_SIZE as u64);
        e.append(" B");
        return Err(e);
    }
    let region: Option<(usize, usize)> = match video::video_region(total) {
        Some((offset, len)) => {
            if want_video && len > VIDEO_HEADER_SIZE {
                Some((offset, len))
            } else {
                None
            }
        },
        None => None,
    };
    let audio_len: usize = match region {
        Some(_) => AUDIO_REGION_BYTES,
        None => total,
    };
    let capacity: usize = bits::prev_power_of_two(audio_len - SHM_HEADER_SIZE);
    proof {
        bits::nearest_powers_are_within_a_double(
            capacity as int,
            audio_len - SHM_HEADER_SIZE,
        );
    }
    Ok(RegionPlan { audio_len, capacity, video: region })
}

/// The two parts of a region do not overlap, they make up the whole where there is
/// video, and the ring fits behind its header with less than half of that part's
/// payload left over.
pub proof fn region_parts_fit(plan: RegionPlan, total: usize)
    requires
        plan.video matches Some(v) ==> plan.audio_len == v.0 && v.0 + v.1 == total,
        plan.video is None ==> plan.audio_len == total,
        plan.audio_len > SHM_HEADER_SIZE,
        bits::largest_power_up_to(plan.capacity as int, plan.audio_len - SHM_HEADER_SIZE),
    ensures
        SHM_HEADER_SIZE + plan.capacity <= plan.audio_len <= total,
        plan.audio_len - SHM_HEADER_SIZE < 2 * plan.capacity,
{
    bits::double_is_power(plan.capacity as int);
}

/// The audio that may wait in the ring, in bytes: `latency_ms` milliseconds of it.
/// There is none to give if the computation exceeds 64 bits.
pub fn latency_budget(latency_ms: u32, sample_rate: u32, frame_bytes: u32) -> (r: Option<u64>)
    ensures
        r == (if latency_ms * sample_rate * frame_bytes <= u64::MAX {
            Some((latency_ms * sample_rate * frame_bytes / 1000) as u64)
        } else {
            None
        }),
        r matches Some(b) ==> 1000 * b <= latency_ms * sample_rate * frame_bytes < 1000 * (b + 1),
{
    proof {
        assert(latency_ms * sample_rate <= u32::MAX * u32::MAX) by (nonlinear_arith)
            requires
                latency_ms <= u32::MAX,
                sample_rate <= u32::MAX,
        ;
        assert(latency_ms * sample_rate >= 0) by (nonlinear_arith);
        let p = latency_ms * sample_rate;
        assert(p * frame_bytes >= 0) by (nonlinear_arith)
            requires
                p >= 0,
        ;
    }
    let per_byte: u64 = latency_ms as u64 * sample_rate as u64;
    match per_byte.checked_mul(frame_bytes as u64) {
        Some(p) => Some(p / 1000),
        None => None,
    }
}

/// What the host does with what it found in the header.
#[derive(Clone, Copy, Debug, PartialEq, Eq, Structural)]
pub enum HostStart {
    /// No format has been published: look again later.
    Wait,
    /// Play that format, with that many bytes of audio waiting at most.
    Play(AudioFormat, u64),
    /// The latency budget cannot be computed.
    BudgetTooLarge,
}

/// Decides whether playback can start: only once a format has been published.
pub fn playback_start(format: Option<AudioFormat>, latency_ms: u32) -> (s: HostStart)
    ensures
        s == (match format {
            None => HostStart::Wait,
            Some(f) => if latency_ms * f.sample_rate * f.frame_bytes <= u64::MAX {
                HostStart::Play(
                    f,
                    (latency_ms * f.sample_rate * f.frame_bytes / 1000) as u64,
                )
            } else {
                HostStart::BudgetTooLarge
            },
        }),
{
    match format {
        None => HostStart::Wait,
        Some(f) => match latency_budget(latency_ms, f.sample_rate, f.frame_bytes) {
            Some(budget) => HostStart::Play(f, budget),
            None => HostStart::BudgetTooLarge,
        },
    }
}

/// The part of a playback buffer of `len` bytes that whole frames fill.
pub fn playback_window(len: usize, frame_bytes: usize) -> (n: usize)
    requires
        frame_bytes > 0,
    ensures
        n == (len as int / frame_bytes as int) * frame_bytes,
        n <= len,
        n % frame_bytes == 0,
        len - n < frame_bytes,
{
    proof {
        let l = len as int;
        let f = frame_bytes as int;
        assert((l / f) * f <= l < (l / f) * f + f) by (nonlinear_arith)
            requires
                l >= 0,
                f > 0,
        ;
        vstd::arithmetic::div_mod::lemma_mod_multiples_basic(l / f, f);
        assert((l / f) * f >= 0) by (nonlinear_arith)
            requires
                l >= 0,
                f > 0,
        ;
    }
    (len / frame_bytes) * frame_bytes
}

/// What a cycle of playback did.
#[derive(Clone, Copy, Debug, PartialEq, Eq, Structural)]
pub struct PlayedCycle {
    /// Bytes of the buffer that are to be played.
    pub size: usize,
    /// How many of them are audio; the others are silence.
    pub live: usize,
    /// Whether the producer got in the way of every attempt, so that all is silence.
    pub missed: bool,
    /// The counters that the cycle found.
    pub head: u64,
    pub tail: u64,
}

/// A cycle of playback that saw the counters `head` and `tail`, went by `frame_bytes`
/// and made the attempts `tries` turned the record `t0` into `t1` and the buffer `b0`
/// into `b1`, and gave `r`: the whole frames that fit are those of a read, or silence if
/// it was refused, and the bytes behind them are left as they were.
pub open spec fn cycle_played(
    head: u64,
    tail: u64,
    frame_bytes: u32,
    q: ReadRequest,
    tries: Seq<ReadSample>,
    most: nat,
    t0: Seq<Access>,
    t1: Seq<Access>,
    b0: Seq<u8>,
    b1: Seq<u8>,
    r: PlayedCycle,
) -> bool {
    &&& audio::quantum_read(
        frame_bytes,
        q,
        tries,
        most,
        t0 + seq![
            trace::loaded64(HEAD_OFFSET as int, head, MemOrder::Relaxed),
            trace::loaded64(TAIL_OFFSET as int, tail, MemOrder::Acquire),
        ],
        t1,
        b1.take(q.room),
        if r.missed {
            None
        } else {
            Some(r.live)
        },
    )
    &&& r.missed ==> r.live == 0
    &&& b1.len() == b0.len()
    &&& b1.skip(q.room) == b0.skip(q.room)
    &&& r.size == q.room
    &&& r.head == head
    &&& r.tail == tail
}

/// Fills a playback buffer, as the playback callback does on every cycle: the whole
/// frames that fit are played in any case, audio first and silence behind it, so that
/// the sink's clock goes on. If the producer got in the way of each of `attempts`
/// attempts, there is silence only. Nothing is waited for.
pub fn play_cycle(
    ring: &mut ShmAudioBuffer,
    buffer: &mut [u8],
    stride: usize,
    max_latency_bytes: u64,
    attempts: u64,
) -> (r: PlayedCycle)
    requires
        old(ring).wf(),
        stride > 0,
    ensures
        final(ring).wf(),
        final(ring).cap() == old(ring).cap(),
        final(ring).region() == old(ring).region(),
        exists|head: u64, tail: u64, frame_bytes: u32, tries: Seq<ReadSample>|
            #[trigger] cycle_played(
                head,
                tail,
                frame_bytes,
                (ReadRequest {
                    cap: old(ring).cap() as int,
                    frame: audio::frame_or_one(frame_bytes),
                    room: (old(buffer)@.len() as int / stride as int) * stride,
                    max_latency: max_latency_bytes as int,
                }),
                tries,
                attempts as nat,
                old(ring).trace(),
                final(ring).trace(),
                old(buffer)@,
                final(buffer)@,
                r,
            ),
{
    let ghost t0 = ring.trace();
    let ghost b0 = buffer@;
    let ghost cap = ring.cap();
    let window: usize = playback_window(buffer.len(), stride);
    let (head, tail) = ring.pointers();
    let ghost tm = ring.trace();
    let (front, _back) = buffer.split_at_mut(window);
    let read: Option<usize> = ring.read_quantum(front, max_latency_bytes, attempts);
    let r: PlayedCycle = match read {
        Some(live) => PlayedCycle { size: window, live, missed: false, head, tail },
        None => PlayedCycle { size: window, live: 0, missed: true, head, tail },
    };
    proof {
        let (frame_bytes, tries) = choose|frame_bytes: u32, tries: Seq<ReadSample>|
            #[trigger] audio::quantum_read(
                frame_bytes,
                (ReadRequest {
                    cap: cap as int,
                    frame: audio::frame_or_one(frame_bytes),
                    room: window as int,
                    max_latency: max_latency_bytes as int,
                }),
                tries,
                attempts as nat,
                tm,
                ring.trace(),
                front@,
                read,
            );
        let q = ReadRequest {
            cap: cap as int,
            frame: audio::frame_or_one(frame_bytes),
            room: window as int,
            max_latency: max_latency_bytes as int,
        };
        assert(buffer@.take(window as int) =~= front@);
        assert(buffer@.skip(window as int) =~= b0.skip(window as int));
        assert(cycle_played(
            head,
            tail,
            frame_bytes,
            q,
            tries,
            attempts as nat,
            t0,
            ring.trace(),
            b0,
            buffer@,
            r,
        ));
    }
    r
}

/// The latency that playback asks for: the quantum over the rate.
pub fn node_latency(quantum: u32, sample_rate: u32) -> (s: String)
    ensures
        s@ == text::decimal(quantum as nat) + "/"@ + text::decimal(sample_rate as nat),
{
    let mut s: String = String::new();
    text::push_decimal(&mut s, quantum as u64);
    s.append("/");
    text::push_decimal(&mut s, sample_rate as u64);
    assert(s@ =~= text::decimal(quantum as nat) + "/"@ + text::decimal(sample_rate as nat));
    s
}

/// Where a channel is heard.
#[derive(Clone, Copy, Debug, PartialEq, Eq, Structural)]
pub enum Position {
    Unknown,
    FrontLeft,
    FrontRight,
}

/// The position of channel number `channel` of a stream: the first two of its
/// channels are left and right.
pub fn channel_position(channel: usize, channels: u32) -> (p: Position)
    ensures
        p == (if channel == 0 && channels >= 1 {
            Position::FrontLeft
        } else if channel == 1 && channels >= 2 {
            Position::FrontRight
        } else {
            Position::Unknown
        }),
{
    if channel == 0 && channels >= 1 {
        Position::FrontLeft
    } else if channel == 1 && channels >= 2 {
        Position::FrontRight
    } else {
        Position::Unknown
    }
}

/// Counts the cycles in which playback slipped.
#[derive(Clone, Copy, Debug, PartialEq, Eq, Structural)]
pub struct SlipCounter {
    /// Cycles that the producer did not fill.
    pub underflows: u64,
    /// Cycles that found more audio waiting than may wait.
    pub overflows: u64,
}

/// Bytes that wait between the counters; a `head` beyond `tail` counts as `tail`.
pub open spec fn backlog(head: u64, tail: u64) -> int {
    if head > tail {
        0
    } else {
        tail - head
    }
}

/// What a report of slips says.
pub open spec fn slip_report(underflows: u64, overflows: u64) -> Seq<char> {
    "Underflows (Producer/VM slow): "@ + text::decimal(underflows as nat)
        + " / Overflows (Consumer/Host slow): "@ + text::decimal(overflows as nat)
}

impl SlipCounter {
    /// Nothing has slipped yet.
    pub fn new() -> (c: Self)
        ensures
            c == (SlipCounter { underflows: 0, overflows: 0 }),
    {
        SlipCounter { underflows: 0, overflows: 0 }
    }

    /// Takes note of a cycle: `head` and `tail` are the counters that it found,
    /// `live` of its `window` bytes were audio.
    pub fn note(
        &mut self,
        head: u64,
        tail: u64,
        max_latency_bytes: u64,
        live: usize,
        window: usize,
    )
        ensures
            final(self).underflows == (if live < window {
                bits::one_more(old(self).underflows)
            } else {
                old(self).underflows
            }),
            final(self).overflows == (if backlog(head, tail) > max_latency_bytes {
                bits::one_more(old(self).overflows)
            } else {
                old(self).overflows
            }),
    {
        if live < window && self.underflows < u64::MAX {
            self.underflows = self.underflows + 1;
        }
        let waiting: u64 = if head > tail {
            0
        } else {
            tail - head
        };
        if waiting > max_latency_bytes && self.overflows < u64::MAX {
            self.overflows = self.overflows + 1;
        }
    }

    /// What slipped since the last report, if anything did.
    pub fn report(&mut self) -> (r: Option<String>)
        ensures
            *final(self) == (SlipCounter { underflows: 0, overflows: 0 }),
            match r {
                Some(s) => s@ == slip_report(old(self).underflows, old(self).overflows) && (old(
                    self,
                ).underflows > 0 || old(self).overflows > 0),
                None => old(self).underflows == 0 && old(self).overflows == 0,
            },
    {
        if self.underflows == 0 && self.overflows == 0 {
            return None;
        }
        let mut s: String = "Underflows (Producer/VM slow): ".to_owned();
        text::push_decimal(&mut s, self.underflows);
        s.append(" / Overflows (Consumer/Host slow): ");
        text::push_decimal(&mut s, self.overflows);
        self.underflows = 0;
        self.overflows = 0;
        Some(s)
    }
}

/// What waits is what `tail` is ahead of `head`, and nothing if it is not.
pub proof fn backlog_is_what_tail_is_ahead(head: u64, tail: u64)
    ensures
        head <= tail ==> head + backlog(head, tail) == tail,
        head >= tail ==> backlog(head, tail) == 0,
{
}

/// A report of slips shows both counts, and the text that refuses a region shows its size
/// and what is needed at least.
pub proof fn messages_show_their_numbers(underflows: u64, overflows: u64, total: usize)
    ensures
        ({
            let s = slip_report(underflows, overflows);
            let over = "Overflows (Consumer/Host slow): "@ + text::decimal(overflows as nat);
            &&& text::occurs(
                "Underflows (Producer/VM slow): "@ + text::decimal(underflows as nat) + " "@,
                s,
            )
            &&& s.len() >= over.len() && s.skip(s.len() - over.len()) == over
        }),
        text::occurs(" "@ + text::decimal(total as nat) + " B "@, too_small(total)),
        text::occurs(" "@ + text::decimal(192) + " B"@, too_small(total)),
{
    reveal_strlit("Underflows (Producer/VM slow): ");
    reveal_strlit(" / Overflows (Consumer/Host slow): ");
    reveal_strlit("Overflows (Consumer/Host slow): ");
    reveal_strlit(" ");
    reveal_strlit(" B");
    reveal_strlit(" B ");
    reveal_strlit("shm region ");
    reveal_strlit(" B too small for header ");
    let s = slip_report(underflows, overflows);
    let under = "Underflows (Producer/VM slow): "@ + text::decimal(underflows as nat) + " "@;
    let over = "Overflows (Consumer/Host slow): "@ + text::decimal(overflows as nat);
    let none = Seq::<char>::empty();
    let slash = " / Overflows (Consumer/Host slow): "@;
    assert(slash =~= " "@ + slash.skip(1));
    assert(slash.skip(3) =~= "Overflows (Consumer/Host slow): "@);
    assert(s =~= none + under + (slash.skip(1) + text::decimal(overflows as nat)));
    text::occurrences_can_be_cut_out(under, s);
    assert(s.skip(s.len() - over.len()) =~= over);
    let e = too_small(total);
    let size = text::decimal(total as nat);
    let needed = text::decimal(SHM_HEADER_SIZE as nat);
    let front = "shm region "@;
    let mid = " B too small for header "@;
    let whole = " "@ + size + " B "@;
    assert(front =~= front.take(10) + " "@);
    assert(mid =~= " B "@ + mid.skip(3));
    assert(e =~= front.take(10) + whole + (mid.skip(3) + needed + " B"@));
    text::occurrences_can_be_cut_out(whole, e);
    let least = " "@ + needed + " B"@;
    assert(mid =~= mid.take(23) + " "@);
    assert(e =~= (front + size + mid.take(23)) + least + none);
    text::occurrences_can_be_cut_out(least, e);
}

} // verus!
