//! The video ring: a header and frame slots behind it, written round-robin.
//!
//! The video region lies behind the audio region and describes itself. The
//! producer writes a frame into the next slot and then counts it; the consumer
//! copies the newest slot and looks at the count again. As long as the producer
//! cannot have come round to that slot, the copy is whole.

use crate::bits;
use crate::format::VideoFormat;
use crate::layout::{
    AUDIO_REGION_BYTES, FOURCC_OFFSET, FRAME_SEQ_OFFSET, FRAME_SIZE_OFFSET, HEADER_SIZE_OFFSET,
    HEIGHT_OFFSET, MAGIC_OFFSET, SLOT_COUNT_OFFSET, STRIDE_OFFSET, VERSION_OFFSET,
    VIDEO_HEADER_SIZE, VIDEO_MAGIC, VIDEO_MIN_SLOTS, VIDEO_VERSION, WIDTH_OFFSET,
};
use crate::memory;
use crate::memory::mapping::Unattached;
pub use crate::memory::mapping::{ShmVideoHeader, VideoMapping};
use crate::memory::Region;
use crate::trace;
use crate::trace::{Access, MemOrder};
use vstd::prelude::*;

verus! {

/// Where the video region of a mapping of `total` bytes lies, as its offset and
/// its length, or `None` if the mapping does not reach past the audio region.
pub fn video_region(total: usize) -> (r: Option<(usize, usize)>)
    ensures
        r == (if total > AUDIO_REGION_BYTES {
            Some((AUDIO_REGION_BYTES, (total - AUDIO_REGION_BYTES) as usize))
        } else {
            None
        }),
        r matches Some(part) ==> part.1 > 0 && part.0 + part.1 == total,
{
    if total > AUDIO_REGION_BYTES {
        Some((AUDIO_REGION_BYTES, total - AUDIO_REGION_BYTES))
    } else {
        None
    }
}

/// The accesses with which a fresh video region is initialized: the geometry
/// unset, no frame counted, the magic last.
pub open spec fn video_init_trace() -> Seq<Access> {
    seq![
        trace::stored32(HEADER_SIZE_OFFSET as int, VIDEO_HEADER_SIZE as u32, MemOrder::Relaxed),
        trace::stored32(WIDTH_OFFSET as int, 0, MemOrder::Relaxed),
        trace::stored32(HEIGHT_OFFSET as int, 0, MemOrder::Relaxed),
        trace::stored32(STRIDE_OFFSET as int, 0, MemOrder::Relaxed),
        trace::stored32(FOURCC_OFFSET as int, 0, MemOrder::Relaxed),
        trace::stored32(SLOT_COUNT_OFFSET as int, 0, MemOrder::Relaxed),
        trace::stored64(FRAME_SEQ_OFFSET as int, 0, MemOrder::Relaxed),
        trace::stored32(FRAME_SIZE_OFFSET as int, 0, MemOrder::Relaxed),
        trace::stored32(VERSION_OFFSET as int, VIDEO_VERSION, MemOrder::Relaxed),
        trace::stored64(MAGIC_OFFSET as int, VIDEO_MAGIC, MemOrder::Release),
    ]
}

/// What is wrong with a video header that a handle attaches to, or `None` if
/// nothing is.
pub open spec fn video_attach_fault(
    payload_len: nat,
    magic: u64,
    version: u32,
    header_size: u32,
) -> Option<Seq<char>> {
    if payload_len == 0 {
        Some("video region smaller than header"@)
    } else if magic != VIDEO_MAGIC {
        Some("bad video magic (region not initialized yet)"@)
    } else if version != VIDEO_VERSION {
        Some("video version mismatch"@)
    } else if header_size != VIDEO_HEADER_SIZE {
        Some("video ABI/header_size mismatch"@)
    } else {
        None
    }
}

/// The loads with which a video header is checked.
pub open spec fn video_attach_trace(
    payload_len: nat,
    magic: u64,
    version: u32,
    header_size: u32,
) -> Seq<Access> {
    let looks = seq![
        trace::loaded64(MAGIC_OFFSET as int, magic, MemOrder::Acquire),
        trace::loaded32(VERSION_OFFSET as int, version, MemOrder::Relaxed),
        trace::loaded32(HEADER_SIZE_OFFSET as int, header_size, MemOrder::Relaxed),
    ];
    if payload_len == 0 {
        looks.take(0)
    } else if magic != VIDEO_MAGIC {
        looks.take(1)
    } else if version != VIDEO_VERSION {
        looks.take(2)
    } else {
        looks
    }
}

impl<'a> VideoMapping<'a> {
    /// Checks the header that the other side initialized.
    pub fn check(&mut self) -> (r: Result<(), &'static str>)
        requires
            old(self).wf(),
        ensures
            final(self).wf(),
            final(self).payload_len() == old(self).payload_len(),
            final(self).region() == old(self).region(),
            exists|magic: u64, version: u32, header_size: u32|
                {
                    &&& final(self).trace() == old(self).trace() + #[trigger] video_attach_trace(
                        old(self).payload_len(),
                        magic,
                        version,
                        header_size,
                    )
                    &&& match (
                        r,
                        video_attach_fault(old(self).payload_len(), magic, version, header_size),
                    ) {
                        (Err(e), Some(fault)) => e@ == fault,
                        (Ok(_), None) => true,
                        _ => false,
                    }
                },
    {
        let ghost t0 = self.trace();
        let ghost plen = self.payload_len();
        let n: usize = self.payload.len();
        if n == 0 {
            assert(self.trace() =~= t0 + video_attach_trace(plen, 0, 0, 0));
            return Err("video region smaller than header");
        }
        let magic: u64 = self.header.magic.load_acquire(&mut self.trace);
        if magic != VIDEO_MAGIC {
            assert(self.trace() =~= t0 + video_attach_trace(plen, magic, 0, 0));
            return Err("bad video magic (region not initialized yet)");
        }
        let version: u32 = self.header.version.load_relaxed(&mut self.trace);
        if version != VIDEO_VERSION {
            assert(self.trace() =~= t0 + video_attach_trace(plen, magic, version, 0));
            return Err("video version mismatch");
        }
        let header_size: u32 = self.header.header_size.load_relaxed(&mut self.trace);
        assert(self.trace() =~= t0 + video_attach_trace(plen, magic, version, header_size));
        if header_size as usize != VIDEO_HEADER_SIZE {
            return Err("video ABI/header_size mismatch");
        }
        Ok(())
    }
}

/// The frame slots that a handle goes by.
pub struct Slots {
    /// Bytes per frame, 0 while no geometry is known.
    pub frame_size: int,
    /// Number of slots.
    pub count: int,
}

impl Slots {
    /// No geometry is known.
    pub open spec fn unset(self) -> bool {
        self.frame_size == 0 || self.count == 0
    }

    /// Bytes from one slot to the next: a frame, rounded up to a cache line.
    pub open spec fn stride(self) -> int {
        bits::aligned_64(self.frame_size)
    }

    /// Where the slot of frame `f` starts, behind the header.
    pub open spec fn offset(self, f: int) -> int {
        (f % self.count) * self.stride()
    }

    /// The cell of byte `i` of frame `f`.
    pub open spec fn cell(self, f: int, i: int) -> int {
        VIDEO_HEADER_SIZE + self.offset(f) + i
    }
}

/// How many frames of `frame_size` bytes fit `usable` bytes, each starting on a
/// cache line.
pub open spec fn slots_that_fit(usable: int, frame_size: int) -> int {
    usable / bits::aligned_64(frame_size)
}

/// The slot count that is published when `n` slots fit: all of them, as far as the
/// header can count.
pub open spec fn published_slots(n: int) -> u32 {
    if n > u32::MAX {
        u32::MAX
    } else {
        n as u32
    }
}

/// Decides how many frame slots a region with `usable` bytes behind its header
/// gets, or why it gets none.
pub fn plan_slots(usable: usize, frame_size: u32) -> (r: Result<u32, &'static str>)
    ensures
        match r {
            Ok(n) => {
                &&& frame_size != 0
                &&& slots_that_fit(usable as int, frame_size as int) >= VIDEO_MIN_SLOTS
                &&& n == published_slots(slots_that_fit(usable as int, frame_size as int))
                &&& n >= 3
                &&& n * bits::aligned_64(frame_size as int) <= usable
            },
            Err(e) => if frame_size == 0 {
                e@ == "zero frame_size"@
            } else {
                &&& slots_that_fit(usable as int, frame_size as int) < VIDEO_MIN_SLOTS
                &&& e@ == "video region too small for >= 3 frame slots"@
            },
        },
{
    if frame_size == 0 {
        return Err("zero frame_size");
    }
    let stride: u64 = bits::align_up_64(frame_size as u64);
    let n: u64 = usable as u64 / stride;
    if n < VIDEO_MIN_SLOTS as u64 {
        return Err("video region too small for >= 3 frame slots");
    }
    proof {
        let m = published_slots(n as int) as int;
        vstd::arithmetic::div_mod::lemma_fundamental_div_mod(usable as int, stride as int);
        vstd::arithmetic::div_mod::lemma_mod_bound(usable as int, stride as int);
        assert(m * stride <= usable) by (nonlinear_arith)
            requires
                0 <= m <= n,
                0 <= stride,
                usable == stride * n + usable as int % stride as int,
                0 <= usable as int % stride as int,
        ;
    }
    if n > u32::MAX as u64 {
        Ok(u32::MAX)
    } else {
        Ok(n as u32)
    }
}

/// The accesses with which a geometry is published: no frame counted yet, the
/// frame size last.
pub open spec fn set_geometry_trace(vf: VideoFormat, slot_count: u32) -> Seq<Access> {
    seq![
        trace::stored32(WIDTH_OFFSET as int, vf.width, MemOrder::Relaxed),
        trace::stored32(HEIGHT_OFFSET as int, vf.height, MemOrder::Relaxed),
        trace::stored32(STRIDE_OFFSET as int, vf.stride, MemOrder::Relaxed),
        trace::stored32(FOURCC_OFFSET as int, vf.fourcc, MemOrder::Relaxed),
        trace::stored32(SLOT_COUNT_OFFSET as int, slot_count, MemOrder::Relaxed),
        trace::stored64(FRAME_SEQ_OFFSET as int, 0, MemOrder::Relaxed),
        trace::stored32(FRAME_SIZE_OFFSET as int, vf.frame_size, MemOrder::Release),
    ]
}

/// The loads with which a geometry is read, the frame size first; nothing else is
/// looked at while that is 0.
pub open spec fn geometry_trace(vf: VideoFormat, slot_count: u32) -> Seq<Access> {
    let looks = seq![
        trace::loaded32(FRAME_SIZE_OFFSET as int, vf.frame_size, MemOrder::Acquire),
        trace::loaded32(SLOT_COUNT_OFFSET as int, slot_count, MemOrder::Relaxed),
        trace::loaded32(WIDTH_OFFSET as int, vf.width, MemOrder::Relaxed),
        trace::loaded32(HEIGHT_OFFSET as int, vf.height, MemOrder::Relaxed),
        trace::loaded32(STRIDE_OFFSET as int, vf.stride, MemOrder::Relaxed),
        trace::loaded32(FOURCC_OFFSET as int, vf.fourcc, MemOrder::Relaxed),
    ];
    if vf.frame_size == 0 {
        looks.take(1)
    } else {
        looks
    }
}

/// What a frame slot of `frame_size` bytes holds after `src` was pushed: its first
/// bytes, and zeros if it is shorter.
pub open spec fn frame_image(src: Seq<u8>, frame_size: int) -> Seq<u8> {
    Seq::new(
        frame_size as nat,
        |i: int|
            if i < src.len() {
                src[i]
            } else {
                0u8
            },
    )
}

/// The accesses of a push of the frame `src` into slots that lie in `payload_len`
/// bytes, when `seq` frames have been counted. Without a geometry nothing is
/// touched, and a slot outside the region is not written to.
pub open spec fn push_frame_trace(s: Slots, payload_len: nat, seq: u64, src: Seq<u8>) -> Seq<
    Access,
> {
    let look = seq![trace::loaded64(FRAME_SEQ_OFFSET as int, seq, MemOrder::Relaxed)];
    if s.unset() {
        Seq::empty()
    } else if s.offset(seq as int) + s.frame_size > payload_len {
        look
    } else {
        look + memory::byte_stores(s.cell(seq as int, 0), frame_image(src, s.frame_size)) + seq![
            Access::Fence { order: MemOrder::Release },
            trace::stored64(FRAME_SEQ_OFFSET as int, seq.wrapping_add(1), MemOrder::Release),
        ]
    }
}

/// What a read of the newest frame saw.
pub struct FrameSample {
    /// Frames counted before the copy.
    pub seq: u64,
    /// The bytes that were copied.
    pub bytes: Seq<u8>,
    /// Frames counted after the copy.
    pub seq_after: u64,
}

impl FrameSample {
    /// The frame that was read: the newest one.
    pub open spec fn newest(self) -> int {
        self.seq - 1
    }

    /// There was a frame to read, and its slot lies in the region.
    pub open spec fn started(self, s: Slots, payload_len: nat, len: int) -> bool {
        &&& !s.unset()
        &&& self.seq > 0
        &&& s.offset(self.newest()) + len <= payload_len
    }

    /// The producer cannot have come round to the slot during the copy: it has
    /// completed at least two frames fewer than there are slots.
    pub open spec fn intact(self, s: Slots) -> bool {
        self.seq_after.wrapping_sub(self.seq) <= (if s.count >= 2 {
            s.count - 2
        } else {
            0
        })
    }

    /// The accesses of the read of `len` bytes.
    pub open spec fn trace(self, s: Slots, payload_len: nat, len: int) -> Seq<Access> {
        let look = seq![trace::loaded64(FRAME_SEQ_OFFSET as int, self.seq, MemOrder::Acquire)];
        if s.unset() {
            Seq::empty()
        } else if !self.started(s, payload_len, len) {
            look
        } else {
            look + memory::byte_loads(s.cell(self.newest(), 0), self.bytes) + seq![
                trace::loaded64(FRAME_SEQ_OFFSET as int, self.seq_after, MemOrder::Acquire),
            ]
        }
    }
}

/// A read of the newest frame that saw `o` turned the record `t0` into `t1` and
/// `out0` into `out1`, and gave `r`: the frame's number if there is one and the
/// copy is whole.
pub open spec fn frame_read(
    s: Slots,
    payload_len: nat,
    o: FrameSample,
    t0: Seq<Access>,
    t1: Seq<Access>,
    out0: Seq<u8>,
    out1: Seq<u8>,
    r: Option<u64>,
) -> bool {
    let len = if s.frame_size < out0.len() {
        s.frame_size
    } else {
        out0.len() as int
    };
    let started = o.started(s, payload_len, len);
    &&& t1 == t0 + o.trace(s, payload_len, len)
    &&& started ==> o.bytes.len() == len
    &&& out1 == (if started {
        o.bytes + out0.skip(len)
    } else {
        out0
    })
    &&& r == (if started && o.intact(s) {
        Some(o.newest() as u64)
    } else {
        None
    })
}

/// A handle to a video ring. Each process has one; both reach the same memory.
pub struct ShmVideoBuffer<'a> {
    shm: VideoMapping<'a>,
    frame_size: usize,
    slot_stride: u64,
    slot_count: usize,
}

/// An offset into the slots, and a frame behind it, can be computed without
/// overflow.
proof fn lemma_offset_bound(s: Slots, f: int)
    requires
        0 < s.frame_size <= u32::MAX,
        0 < s.count <= u32::MAX,
    ensures
        0 <= f % s.count < s.count,
        0 <= s.offset(f),
        s.offset(f) + s.stride() <= s.count * s.stride(),
        s.offset(f) + s.frame_size <= u64::MAX,
        s.frame_size <= s.stride() < s.frame_size + 64,
{
    let slot = f % s.count;
    vstd::arithmetic::div_mod::lemma_mod_bound(f, s.count);
    bits::aligned_64_is_smallest(s.frame_size);
    let stride = s.stride();
    assert(stride <= 0x1_0000_0000);
    assert(0 <= slot * stride && slot * stride + stride <= s.count * stride) by (nonlinear_arith)
        requires
            0 <= slot < s.count,
            0 <= stride,
    ;
    assert(slot * stride <= 0xFFFF_FFFE * 0x1_0000_0000) by (nonlinear_arith)
        requires
            0 <= slot <= 0xFFFF_FFFE,
            0 <= stride <= 0x1_0000_0000,
    ;
}

impl<'a> ShmVideoBuffer<'a> {
    /// The cells are where the layout says, and the slot stride is the one that
    /// belongs to the frame size.
    pub closed spec fn wf(&self) -> bool {
        &&& self.shm.wf()
        &&& self.frame_size <= u32::MAX
        &&& self.slot_count <= u32::MAX
        &&& self.slot_stride == bits::aligned_64(self.frame_size as int)
    }

    /// The frame slots that the handle goes by.
    pub closed spec fn slots(&self) -> Slots {
        Slots { frame_size: self.frame_size as int, count: self.slot_count as int }
    }

    /// Bytes behind the header.
    pub closed spec fn payload_len(&self) -> nat {
        self.shm.payload_len()
    }

    /// The cells of the region.
    pub closed spec fn region(&self) -> Region {
        self.shm.region()
    }

    /// The accesses made so far.
    pub closed spec fn trace(&self) -> Seq<Access> {
        self.shm.trace()
    }

    /// A frame size and a slot count are numbers that the header can hold.
    pub proof fn slots_fit_the_header(&self)
        requires
            self.wf(),
        ensures
            0 <= self.slots().frame_size <= u32::MAX,
            0 <= self.slots().count <= u32::MAX,
    {
    }

    /// Initializes a region as the host does, once, before anything attaches to
    /// it. The geometry is left unset; the producer publishes it.
    pub fn init(shm: VideoMapping<'a>) -> (b: Self)
        requires
            shm.wf(),
            shm.payload_len() > 0,
        ensures
            b.wf(),
            b.slots() == (Slots { frame_size: 0, count: 0 }),
            b.payload_len() == shm.payload_len(),
            b.region() == shm.region(),
            b.trace() == shm.trace() + video_init_trace(),
    {
        let mut m = shm;
        m.header.header_size.store_relaxed(VIDEO_HEADER_SIZE as u32, &mut m.trace);
        m.header.width.store_relaxed(0, &mut m.trace);
        m.header.height.store_relaxed(0, &mut m.trace);
        m.header.stride.store_relaxed(0, &mut m.trace);
        m.header.fourcc.store_relaxed(0, &mut m.trace);
        m.header.slot_count.store_relaxed(0, &mut m.trace);
        m.header.frame_seq.store_relaxed(0, &mut m.trace);
        m.header.frame_size.store_relaxed(0, &mut m.trace);
        m.header.version.store_relaxed(VIDEO_VERSION, &mut m.trace);
        m.header.magic.store_release(VIDEO_MAGIC, &mut m.trace);
        assert(m.trace@ =~= shm.trace@ + video_init_trace());
        ShmVideoBuffer { shm: m, frame_size: 0, slot_stride: 0, slot_count: 0 }
    }

    /// Attaches to a region that the other side initialized, and takes over the
    /// geometry if one is published; or hands the mapping back and says what is wrong
    /// with it, and then it can be tried again later.
    pub fn attach(shm: VideoMapping<'a>) -> (r: Result<Self, Unattached<VideoMapping<'a>>>)
        requires
            shm.wf(),
        ensures
            r matches Err(u) ==> {
                &&& u.shm.wf()
                &&& u.shm.payload_len() == shm.payload_len()
                &&& u.shm.region() == shm.region()
            },
            r matches Ok(b) ==> {
                &&& b.wf()
                &&& b.payload_len() == shm.payload_len()
                &&& b.region() == shm.region()
            },
            exists|magic: u64, version: u32, header_size: u32|
                {
                    let now = shm.trace() + #[trigger] video_attach_trace(
                        shm.payload_len(),
                        magic,
                        version,
                        header_size,
                    );
                    match (
                        r,
                        video_attach_fault(shm.payload_len(), magic, version, header_size),
                    ) {
                        (Err(u), Some(fault)) => u.fault@ == fault && u.shm.trace() == now,
                        (Ok(b), None) => exists|vf: VideoFormat, slot_count: u32|
                            {
                                &&& b.slots() == (if vf.frame_size == 0 {
                                    Slots { frame_size: 0, count: 0 }
                                } else {
                                    Slots {
                                        frame_size: vf.frame_size as int,
                                        count: slot_count as int,
                                    }
                                })
                                &&& b.trace() == now + #[trigger] geometry_trace(vf, slot_count)
                            },
                        _ => false,
                    }
                },
    {
        let mut m = shm;
        match m.check() {
            Ok(_) => {
                let mut b = ShmVideoBuffer {
                    shm: m,
                    frame_size: 0,
                    slot_stride: 0,
                    slot_count: 0,
                };
                let _ = b.refresh_geometry();
                Ok(b)
            },
            Err(fault) => Err(Unattached { shm: m, fault }),
        }
    }

    /// Publishes the geometry, as the producer does when it starts, and counts the
    /// frames from 0. Gives the number of frame slots, or why the region has too
    /// few.
    pub fn set_geometry(&mut self, vf: VideoFormat) -> (r: Result<u32, &'static str>)
        requires
            old(self).wf(),
        ensures
            final(self).wf(),
            final(self).payload_len() == old(self).payload_len(),
            final(self).region() == old(self).region(),
            ({
                let fit = slots_that_fit(old(self).payload_len() as int, vf.frame_size as int);
                match r {
                    Ok(n) => {
                        &&& vf.frame_size != 0
                        &&& fit >= VIDEO_MIN_SLOTS
                        &&& n == published_slots(fit)
                        &&& final(self).slots() == (Slots {
                            frame_size: vf.frame_size as int,
                            count: n as int,
                        })
                        &&& final(self).trace() == old(self).trace() + set_geometry_trace(vf, n)
                    },
                    Err(e) => {
                        &&& *final(self) == *old(self)
                        &&& if vf.frame_size == 0 {
                            e@ == "zero frame_size"@
                        } else {
                            &&& fit < VIDEO_MIN_SLOTS
                            &&& e@ == "video region too small for >= 3 frame slots"@
                        }
                    },
                }
            }),
    {
        let n: u32 = match plan_slots(self.shm.payload.len(), vf.frame_size) {
            Ok(n) => n,
            Err(e) => {
                return Err(e);
            },
        };
        self.frame_size = vf.frame_size as usize;
        self.slot_stride = bits::align_up_64(vf.frame_size as u64);
        self.slot_count = n as usize;
        self.shm.header.width.store_relaxed(vf.width, &mut self.shm.trace);
        self.shm.header.height.store_relaxed(vf.height, &mut self.shm.trace);
        self.shm.header.stride.store_relaxed(vf.stride, &mut self.shm.trace);
        self.shm.header.fourcc.store_relaxed(vf.fourcc, &mut self.shm.trace);
        self.shm.header.slot_count.store_relaxed(n, &mut self.shm.trace);
        self.shm.header.frame_seq.store_relaxed(0, &mut self.shm.trace);
        self.shm.header.frame_size.store_release(vf.frame_size, &mut self.shm.trace);
        assert(self.trace() =~= old(self).trace() + set_geometry_trace(vf, n));
        Ok(n)
    }

    /// Takes over the published geometry, or gives `None` and keeps the old one if
    /// none is published.
    pub fn refresh_geometry(&mut self) -> (r: Option<VideoFormat>)
        requires
            old(self).wf(),
        ensures
            final(self).wf(),
            final(self).payload_len() == old(self).payload_len(),
            final(self).region() == old(self).region(),
            exists|vf: VideoFormat, slot_count: u32|
                {
                    &&& final(self).trace() == old(self).trace() + #[trigger] geometry_trace(
                        vf,
                        slot_count,
                    )
                    &&& if vf.frame_size == 0 {
                        &&& r is None
                        &&& final(self).slots() == old(self).slots()
                    } else {
                        &&& r == Some(vf)
                        &&& final(self).slots() == (Slots {
                            frame_size: vf.frame_size as int,
                            count: slot_count as int,
                        })
                    }
                },
    {
        let ghost t0 = self.trace();
        let frame_size: u32 = self.shm.header.frame_size.load_acquire(&mut self.shm.trace);
        if frame_size == 0 {
            proof {
                let vf = VideoFormat { width: 0, height: 0, stride: 0, fourcc: 0, frame_size };
                assert(self.trace() =~= t0 + geometry_trace(vf, 0));
            }
            return None;
        }
        let slot_count: u32 = self.shm.header.slot_count.load_relaxed(&mut self.shm.trace);
        let width: u32 = self.shm.header.width.load_relaxed(&mut self.shm.trace);
        let height: u32 = self.shm.header.height.load_relaxed(&mut self.shm.trace);
        let stride: u32 = self.shm.header.stride.load_relaxed(&mut self.shm.trace);
        let fourcc: u32 = self.shm.header.fourcc.load_relaxed(&mut self.shm.trace);
        let vf = VideoFormat { width, height, stride, fourcc, frame_size };
        assert(self.trace() =~= t0 + geometry_trace(vf, slot_count));
        self.frame_size = frame_size as usize;
        self.slot_stride = bits::align_up_64(frame_size as u64);
        self.slot_count = slot_count as usize;
        Some(vf)
    }

    /// Frames completed so far.
    pub fn frame_count(&mut self) -> (n: u64)
        requires
            old(self).wf(),
        ensures
            final(self).wf(),
            final(self).payload_len() == old(self).payload_len(),
            final(self).region() == old(self).region(),
            final(self).slots() == old(self).slots(),
            final(self).trace() == old(self).trace().push(
                trace::loaded64(FRAME_SEQ_OFFSET as int, n, MemOrder::Acquire),
            ),
    {
        self.shm.header.frame_seq.load_acquire(&mut self.shm.trace)
    }

    /// Writes one frame into the next slot and counts it, as the producer does. A
    /// longer `src` is cut off, a shorter one filled with zeros. Never waits, and
    /// looks at nothing that the consumer writes.
    pub fn push_frame(&mut self, src: &[u8])
        requires
            old(self).wf(),
        ensures
            final(self).wf(),
            final(self).payload_len() == old(self).payload_len(),
            final(self).region() == old(self).region(),
            final(self).slots() == old(self).slots(),
            exists|seq: u64|
                final(self).trace() == old(self).trace() + #[trigger] push_frame_trace(
                    old(self).slots(),
                    old(self).payload_len(),
                    seq,
                    src@,
                ),
    {
        let ghost t0 = self.trace();
        let ghost s = self.slots();
        let ghost plen = self.payload_len();
        if self.frame_size == 0 || self.slot_count == 0 {
            assert(self.trace() =~= t0 + push_frame_trace(s, plen, 0, src@));
            return;
        }
        let seq: u64 = self.shm.header.frame_seq.load_relaxed(&mut self.shm.trace);
        proof {
            lemma_offset_bound(s, seq as int);
        }
        let slot: u64 = seq % self.slot_count as u64;
        let off: u64 = slot * self.slot_stride;
        if off + self.frame_size as u64 > self.shm.payload.len() as u64 {
            assert(self.trace() =~= t0 + push_frame_trace(s, plen, seq, src@));
            return;
        }
        let at: usize = off as usize;
        let n: usize = if src.len() < self.frame_size {
            src.len()
        } else {
            self.frame_size
        };
        self.shm.payload.copy_in(at, &src[0..n], &mut self.shm.trace);
        self.shm.payload.fill_zero(at + n, self.frame_size - n, &mut self.shm.trace);
        memory::fence_release(&mut self.shm.trace);
        self.shm.header.frame_seq.store_release(seq.wrapping_add(1), &mut self.shm.trace);
        assert(self.trace() =~= t0 + push_frame_trace(s, plen, seq, src@));
    }

    /// Copies the newest frame into `out` and gives its number, or `None` if there
    /// is no frame yet or the producer may have come round to its slot during the
    /// copy.
    pub fn read_frame(&mut self, out: &mut [u8]) -> (r: Option<u64>)
        requires
            old(self).wf(),
        ensures
            final(self).wf(),
            final(self).payload_len() == old(self).payload_len(),
            final(self).region() == old(self).region(),
            final(self).slots() == old(self).slots(),
            exists|o: FrameSample|
                #[trigger] frame_read(
                    old(self).slots(),
                    old(self).payload_len(),
                    o,
                    old(self).trace(),
                    final(self).trace(),
                    old(out)@,
                    final(out)@,
                    r,
                ),
    {
        let ghost t0 = self.trace();
        let ghost s = self.slots();
        let ghost plen = self.payload_len();
        let ghost out0 = out@;
        if self.frame_size == 0 || self.slot_count == 0 {
            proof {
                let o = FrameSample { seq: 0, bytes: Seq::empty(), seq_after: 0 };
                assert(self.trace() =~= t0 + o.trace(s, plen, 0));
                assert(frame_read(s, plen, o, t0, self.trace(), out0, out@, None));
            }
            return None;
        }
        let seq: u64 = self.shm.header.frame_seq.load_acquire(&mut self.shm.trace);
        let len: usize = if self.frame_size < out.len() {
            self.frame_size
        } else {
            out.len()
        };
        if seq == 0 {
            proof {
                let o = FrameSample { seq, bytes: Seq::empty(), seq_after: 0 };
                assert(self.trace() =~= t0 + o.trace(s, plen, len as int));
                assert(frame_read(s, plen, o, t0, self.trace(), out0, out@, None));
            }
            return None;
        }
        let newest: u64 = seq - 1;
        proof {
            lemma_offset_bound(s, newest as int);
        }
        let slot: u64 = newest % self.slot_count as u64;
        let off: u64 = slot * self.slot_stride;
        if off + len as u64 > self.shm.payload.len() as u64 {
            proof {
                let o = FrameSample { seq, bytes: Seq::empty(), seq_after: 0 };
                assert(self.trace() =~= t0 + o.trace(s, plen, len as int));
                assert(frame_read(s, plen, o, t0, self.trace(), out0, out@, None));
            }
            return None;
        }
        self.shm.payload.copy_out(off as usize, out, 0, len, &mut self.shm.trace);
        let seq_after: u64 = self.shm.header.frame_seq.load_acquire(&mut self.shm.trace);
        let whole: bool = seq_after.wrapping_sub(seq) <= (self.slot_count as u64).saturating_sub(2);
        let r: Option<u64> = if whole {
            Some(newest)
        } else {
            None
        };
        proof {
            let o = FrameSample { seq, bytes: out@.take(len as int), seq_after };
            assert(out@.subrange(0, len as int) =~= o.bytes);
            assert(self.trace() =~= t0 + o.trace(s, plen, len as int));
            assert(out@ =~= o.bytes + out0.skip(len as int));
            assert(frame_read(s, plen, o, t0, self.trace(), out0, out@, r));
        }
        r
    }

    /// Bytes per frame, 0 until a geometry is known.
    pub fn frame_size(&self) -> (n: usize)
        ensures
            n == self.slots().frame_size,
    {
        self.frame_size
    }
}

} // verus!
