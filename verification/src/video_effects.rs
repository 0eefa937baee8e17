//! What each operation of the video ring does to a memory that nobody else touches
//! meanwhile, cell by cell, and what it gives back.

use crate::bits;
use crate::format::VideoFormat;
use crate::layout::{
    FOURCC_OFFSET, FRAME_SEQ_OFFSET, FRAME_SIZE_OFFSET, HEADER_SIZE_OFFSET, HEIGHT_OFFSET,
    MAGIC_OFFSET, SLOT_COUNT_OFFSET, STRIDE_OFFSET, VERSION_OFFSET, VIDEO_HEADER_SIZE, VIDEO_MAGIC,
    VIDEO_VERSION, WIDTH_OFFSET,
};
use crate::memory;
use crate::trace;
use crate::trace::{Access, MemOrder, Memory};
use crate::video;
use crate::video::{FrameSample, Slots};
use crate::video_laws;
use vstd::prelude::*;

verus! {

/// `stride` is the distance of slots for frames of `frame_size` bytes: the frame, rounded
/// up to a whole number of cache lines.
pub open spec fn is_stride(stride: int, frame_size: int) -> bool {
    stride % 64 == 0 && frame_size <= stride < frame_size + 64
}

proof fn lemma_stride(s: Slots, stride: int)
    requires
        0 <= s.frame_size,
        is_stride(stride, s.frame_size),
    ensures
        s.stride() == stride,
{
    bits::aligned_64_is_smallest(s.frame_size);
}

proof fn lemma_slot(count: int, stride: int, f: int)
    requires
        0 < count,
        0 <= stride,
    ensures
        0 <= (f % count) * stride,
{
    vstd::arithmetic::div_mod::lemma_mod_bound(f, count);
    assert(0 <= (f % count) * stride) by (nonlinear_arith)
        requires
            0 <= f % count,
            0 <= stride,
    ;
}

/// A pushed frame lies in the slot whose turn it is, byte for byte: what `src` has of it,
/// and zeros behind that; the frame count moves on by 1, and no other cell changes. With
/// no geometry, or where the slot does not lie in the region, nothing changes.
pub proof fn push_stores_exactly_the_frame(
    m: Memory,
    s: Slots,
    payload_len: nat,
    stride: int,
    src: Seq<u8>,
)
    requires
        0 <= s.frame_size,
        0 <= s.count,
        is_stride(stride, s.frame_size),
        0 <= m[FRAME_SEQ_OFFSET as int] <= u64::MAX,
    ensures
        ({
            let seq = m[FRAME_SEQ_OFFSET as int];
            let t = video::push_frame_trace(s, payload_len, seq as u64, src);
            let now = trace::after(m, t);
            let slot = (seq % s.count) * stride;
            let at = VIDEO_HEADER_SIZE + slot;
            let fits = s.frame_size > 0 && s.count > 0 && slot + s.frame_size <= payload_len;
            &&& trace::undisturbed(m, t)
            &&& fits ==> {
                &&& forall|a: int|
                    at <= a < at + s.frame_size ==> #[trigger] now[a] == (if a - at < src.len() {
                        src[a - at] as int
                    } else {
                        0
                    })
                &&& now[FRAME_SEQ_OFFSET as int] == (seq + 1) % 0x1_0000_0000_0000_0000
                &&& forall|a: int|
                    a != FRAME_SEQ_OFFSET && !(at <= a < at + s.frame_size) ==> #[trigger] now[a]
                        == m[a]
            }
            &&& !fits ==> now == m
        }),
{
    let seq = m[FRAME_SEQ_OFFSET as int];
    let t = video::push_frame_trace(s, payload_len, seq as u64, src);
    let now = trace::after(m, t);
    let slot = (seq % s.count) * stride;
    let at = VIDEO_HEADER_SIZE + slot;
    let n = s.frame_size;
    lemma_stride(s, stride);
    if s.frame_size > 0 && s.count > 0 {
        lemma_slot(s.count, stride, seq);
        let look = trace::loaded64(FRAME_SEQ_OFFSET as int, seq as u64, MemOrder::Relaxed);
        assert(t[0] == look);
        if slot + n <= payload_len {
            let image = video::frame_image(src, n);
            assert(t.len() == n + 3);
            assert forall|j: int| 1 <= j < n + 1 implies #[trigger] t[j] == trace::stored8(
                at + (j - 1),
                if j - 1 < src.len() {
                    src[j - 1]
                } else {
                    0
                },
            ) by {
                assert(t[j] == memory::byte_stores(s.cell(seq, 0), image)[j - 1]);
            }
            assert(t[n + 1] is Fence);
            assert(t[n + 2] == trace::stored64(
                FRAME_SEQ_OFFSET as int,
                (seq as u64).wrapping_add(1),
                MemOrder::Release,
            ));
            trace::lemma_stored_once(
                m,
                t,
                n + 2,
                FRAME_SEQ_OFFSET as int,
                (seq as u64).wrapping_add(1) as int,
            );
            assert forall|a: int| at <= a < at + n implies #[trigger] now[a] == (if a - at
                < src.len() {
                src[a - at] as int
            } else {
                0
            }) by {
                let j = a - at + 1;
                assert(t[j] is Store);
                assert forall|i: int| j < i < t.len() implies !trace::is_store_to(
                    #[trigger] t[i],
                    a,
                ) by {}
                trace::lemma_stored_once(
                    m,
                    t,
                    j,
                    a,
                    if a - at < src.len() {
                        src[a - at] as int
                    } else {
                        0
                    },
                );
            }
            assert forall|a: int|
                a != FRAME_SEQ_OFFSET && !(at <= a < at + n) implies #[trigger] now[a] == m[a] by {
                assert forall|i: int| 0 <= i < t.len() implies !trace::is_store_to(
                    #[trigger] t[i],
                    a,
                ) by {}
                trace::lemma_left_alone(m, t, a);
            }
            lemma_only_first_loads(m, t);
        } else {
            assert(t.len() == 1);
            trace::lemma_loads_store_nothing(m, t);
            lemma_only_first_loads(m, t);
        }
    }
}

/// A record whose only load is its first access, of what `m` holds, is undisturbed.
proof fn lemma_only_first_loads(m: Memory, t: Seq<Access>)
    requires
        t.len() >= 1,
        trace::agrees(m, t[0]),
        forall|i: int| 1 <= i < t.len() ==> !(#[trigger] t[i] is Load),
    ensures
        trace::undisturbed(m, t),
    decreases t.len(),
{
    if t.len() == 1 {
        assert(t.drop_last() =~= Seq::<Access>::empty());
        assert(trace::undisturbed(m, t.drop_last()));
        assert(trace::after(m, t.drop_last()) == m);
        assert(t.last() == t[0]);
    } else {
        assert(!(t[t.len() - 1] is Load));
        assert(t.drop_last()[0] == t[0]);
        lemma_only_first_loads(m, t.drop_last());
    }
}

/// A read of the newest frame that nothing disturbs copies as much of it as `out` has
/// room for, leaves the rest of `out` as it was, and gives the frame's number. Where there
/// is no frame yet, or its slot does not lie in the region, it leaves `out` alone and
/// gives nothing. The memory does not change.
pub proof fn quiet_read_copies_the_newest_frame(
    m: Memory,
    s: Slots,
    payload_len: nat,
    stride: int,
    o: FrameSample,
    t0: Seq<Access>,
    t1: Seq<Access>,
    out0: Seq<u8>,
    out1: Seq<u8>,
    r: Option<u64>,
)
    requires
        0 <= s.frame_size,
        0 <= s.count,
        is_stride(stride, s.frame_size),
        video::frame_read(s, payload_len, o, t0, t1, out0, out1, r),
        trace::undisturbed(m, t1.skip(t0.len() as int)),
    ensures
        ({
            let seq = m[FRAME_SEQ_OFFSET as int];
            let slot = ((seq - 1) % s.count) * stride;
            let len = if s.frame_size < out0.len() {
                s.frame_size
            } else {
                out0.len() as int
            };
            let there = s.frame_size > 0 && s.count > 0 && seq > 0 && slot + len <= payload_len;
            &&& t1.take(t0.len() as int) == t0
            &&& trace::after(m, t1.skip(t0.len() as int)) == m
            &&& out1.len() == out0.len()
            &&& there ==> {
                &&& r matches Some(f) && f == seq - 1
                &&& forall|i: int|
                    0 <= i < len ==> #[trigger] out1[i] == m[VIDEO_HEADER_SIZE + slot + i]
                &&& forall|i: int| len <= i < out0.len() ==> #[trigger] out1[i] == out0[i]
            }
            &&& !there ==> r is None && out1 == out0
        }),
{
    let t = t1.skip(t0.len() as int);
    let len = if s.frame_size < out0.len() {
        s.frame_size
    } else {
        out0.len() as int
    };
    assert(t =~= o.trace(s, payload_len, len));
    assert(t1.take(t0.len() as int) =~= t0);
    lemma_stride(s, stride);
    trace::lemma_loads_store_nothing(m, t);
    if s.frame_size > 0 && s.count > 0 {
        assert(t[0] == trace::loaded64(FRAME_SEQ_OFFSET as int, o.seq, MemOrder::Acquire));
        trace::lemma_looks(m, t, 0);
        let seq = m[FRAME_SEQ_OFFSET as int];
        let slot = ((seq - 1) % s.count) * stride;
        if seq > 0 && slot + len <= payload_len {
            assert(o.started(s, payload_len, len));
            assert(t.len() == len + 2);
            assert(t[len + 1] == trace::loaded64(
                FRAME_SEQ_OFFSET as int,
                o.seq_after,
                MemOrder::Acquire,
            ));
            trace::lemma_looks(m, t, len + 1);
            assert forall|i: int| 0 <= i < len implies #[trigger] out1[i] == m[VIDEO_HEADER_SIZE
                + slot + i] by {
                assert(t[1 + i] == memory::byte_loads(s.cell(seq - 1, 0), o.bytes)[i]);
                trace::lemma_looks(m, t, 1 + i);
            }
            assert forall|i: int| len <= i < out0.len() implies #[trigger] out1[i] == out0[i] by {
                assert(out1[i] == out0.skip(len)[i - len]);
            }
        }
    }
}

/// A frame that was pushed is what the next read gives, whole: every byte of `src` that
/// belongs to it, and zeros where `src` was shorter.
pub proof fn pushed_frame_is_read_back(
    m: Memory,
    s: Slots,
    payload_len: nat,
    src: Seq<u8>,
    o: FrameSample,
    t0: Seq<Access>,
    t1: Seq<Access>,
    out0: Seq<u8>,
    out1: Seq<u8>,
    r: Option<u64>,
)
    requires
        video_laws::laid_out(s, payload_len),
        0 <= m[FRAME_SEQ_OFFSET as int] < u64::MAX,
        out0.len() >= s.frame_size,
        video::frame_read(s, payload_len, o, t0, t1, out0, out1, r),
        trace::undisturbed(
            trace::after(
                m,
                video::push_frame_trace(s, payload_len, m[FRAME_SEQ_OFFSET as int] as u64, src),
            ),
            t1.skip(t0.len() as int),
        ),
    ensures
        r matches Some(f) && f == m[FRAME_SEQ_OFFSET as int],
        out1.len() == out0.len(),
        forall|i: int|
            0 <= i < s.frame_size ==> #[trigger] out1[i] == (if i < src.len() {
                src[i]
            } else {
                0
            }),
        forall|i: int| s.frame_size <= i < out0.len() ==> #[trigger] out1[i] == out0[i],
{
    let seq = m[FRAME_SEQ_OFFSET as int];
    let stride = s.stride();
    bits::aligned_64_is_smallest(s.frame_size);
    let mid = trace::after(m, video::push_frame_trace(s, payload_len, seq as u64, src));
    video_laws::lemma_slot_inside(s, payload_len, seq);
    push_stores_exactly_the_frame(m, s, payload_len, stride, src);
    vstd::arithmetic::div_mod::lemma_small_mod((seq + 1) as nat, 0x1_0000_0000_0000_0000);
    quiet_read_copies_the_newest_frame(
        mid,
        s,
        payload_len,
        stride,
        o,
        t0,
        t1,
        out0,
        out1,
        r,
    );
    let at = VIDEO_HEADER_SIZE + (seq % s.count) * stride;
    assert forall|i: int| 0 <= i < s.frame_size implies #[trigger] out1[i] == (if i < src.len() {
        src[i]
    } else {
        0
    }) by {
        assert(out1[i] == mid[at + i]);
    }
}

/// A frame that was copied is given exactly if the producer has completed at least two
/// frames fewer than there are slots since.
pub proof fn frames_are_given_unless_overtaken(
    s: Slots,
    payload_len: nat,
    o: FrameSample,
    t0: Seq<Access>,
    t1: Seq<Access>,
    out0: Seq<u8>,
    out1: Seq<u8>,
    r: Option<u64>,
)
    requires
        0 < s.frame_size,
        0 < s.count <= u32::MAX,
        0 < o.seq <= o.seq_after,
        s.offset(o.seq - 1) + s.frame_size <= payload_len,
        video::frame_read(s, payload_len, o, t0, t1, out0, out1, r),
    ensures
        o.seq_after - o.seq + 2 <= s.count ==> r == Some((o.seq - 1) as u64),
        o.seq_after == o.seq ==> r == Some((o.seq - 1) as u64),
        o.seq_after > o.seq && o.seq_after - o.seq + 2 > s.count ==> r is None,
{
}

/// As many slots are counted as fit: they lie in the region, and one more would not.
pub proof fn as_many_slots_as_fit(usable: int, frame_size: int, stride: int)
    requires
        0 <= usable,
        0 < frame_size,
        is_stride(stride, frame_size),
    ensures
        ({
            let n = video::slots_that_fit(usable, frame_size);
            &&& 0 <= n
            &&& n * stride <= usable < (n + 1) * stride
            &&& n <= u32::MAX ==> video::published_slots(n) == n
            &&& n > u32::MAX ==> video::published_slots(n) == u32::MAX
        }),
{
    bits::aligned_64_is_smallest(frame_size);
    let n = usable / stride;
    vstd::arithmetic::div_mod::lemma_fundamental_div_mod(usable, stride);
    vstd::arithmetic::div_mod::lemma_mod_bound(usable, stride);
    vstd::arithmetic::div_mod::lemma_div_pos_is_pos(usable, stride);
    assert(n * stride <= usable < (n + 1) * stride) by (nonlinear_arith)
        requires
            usable == stride * n + usable % stride,
            0 <= usable % stride < stride,
    ;
}

/// Publishing a geometry writes its fields, the slot count and a frame count of 0, and
/// nothing else.
pub proof fn publishing_writes_the_geometry_only(m: Memory, vf: VideoFormat, slots: u32, a: int)
    ensures
        ({
            let t = video::set_geometry_trace(vf, slots);
            let now = trace::after(m, t);
            &&& now[WIDTH_OFFSET as int] == vf.width
            &&& now[HEIGHT_OFFSET as int] == vf.height
            &&& now[STRIDE_OFFSET as int] == vf.stride
            &&& now[FOURCC_OFFSET as int] == vf.fourcc
            &&& now[FRAME_SIZE_OFFSET as int] == vf.frame_size
            &&& now[SLOT_COUNT_OFFSET as int] == slots
            &&& now[FRAME_SEQ_OFFSET as int] == 0
            &&& a != WIDTH_OFFSET && a != HEIGHT_OFFSET && a != STRIDE_OFFSET && a != FOURCC_OFFSET
                && a != FRAME_SIZE_OFFSET && a != SLOT_COUNT_OFFSET && a != FRAME_SEQ_OFFSET
                ==> now[a] == m[a]
        }),
{
    let t = video::set_geometry_trace(vf, slots);
    video_laws::lemma_geometry_fields(m, vf, slots);
    if a != WIDTH_OFFSET && a != HEIGHT_OFFSET && a != STRIDE_OFFSET && a != FOURCC_OFFSET && a
        != FRAME_SIZE_OFFSET && a != SLOT_COUNT_OFFSET && a != FRAME_SEQ_OFFSET {
        assert forall|i: int| 0 <= i < t.len() implies !trace::is_store_to(#[trigger] t[i], a) by {}
        trace::lemma_left_alone(m, t, a);
    }
}

/// What is read of the geometry in a header that nobody changes meanwhile: all of it, if
/// the frame size is set.
pub proof fn geometry_is_what_the_header_says(m: Memory, vf: VideoFormat, slots: u32)
    requires
        trace::undisturbed(m, video::geometry_trace(vf, slots)),
    ensures
        vf.frame_size == m[FRAME_SIZE_OFFSET as int],
        vf.frame_size != 0 ==> {
            &&& vf.width == m[WIDTH_OFFSET as int]
            &&& vf.height == m[HEIGHT_OFFSET as int]
            &&& vf.stride == m[STRIDE_OFFSET as int]
            &&& vf.fourcc == m[FOURCC_OFFSET as int]
            &&& slots == m[SLOT_COUNT_OFFSET as int]
        },
        trace::after(m, video::geometry_trace(vf, slots)) == m,
{
    let t = video::geometry_trace(vf, slots);
    trace::lemma_loads_store_nothing(m, t);
    trace::lemma_looks(m, t, 0);
    if vf.frame_size != 0 {
        trace::lemma_looks(m, t, 1);
        trace::lemma_looks(m, t, 2);
        trace::lemma_looks(m, t, 3);
        trace::lemma_looks(m, t, 4);
        trace::lemma_looks(m, t, 5);
    }
}

/// Initializing writes the video header and nothing else.
pub proof fn video_init_writes_the_header_only(m: Memory, a: int)
    ensures
        ({
            let now = trace::after(m, video::video_init_trace());
            &&& now[MAGIC_OFFSET as int] == VIDEO_MAGIC
            &&& now[VERSION_OFFSET as int] == VIDEO_VERSION
            &&& now[HEADER_SIZE_OFFSET as int] == VIDEO_HEADER_SIZE
            &&& now[WIDTH_OFFSET as int] == 0
            &&& now[HEIGHT_OFFSET as int] == 0
            &&& now[STRIDE_OFFSET as int] == 0
            &&& now[FOURCC_OFFSET as int] == 0
            &&& now[FRAME_SIZE_OFFSET as int] == 0
            &&& now[SLOT_COUNT_OFFSET as int] == 0
            &&& now[FRAME_SEQ_OFFSET as int] == 0
            &&& a < 0 || VIDEO_HEADER_SIZE <= a ==> now[a] == m[a]
        }),
{
    let t = video::video_init_trace();
    video_laws::video_init_leaves_no_geometry(m);
    trace::lemma_stored_once(m, t, 1, WIDTH_OFFSET as int, 0);
    trace::lemma_stored_once(m, t, 2, HEIGHT_OFFSET as int, 0);
    trace::lemma_stored_once(m, t, 3, STRIDE_OFFSET as int, 0);
    trace::lemma_stored_once(m, t, 4, FOURCC_OFFSET as int, 0);
    if a < 0 || VIDEO_HEADER_SIZE <= a {
        assert forall|i: int| 0 <= i < t.len() implies !trace::is_store_to(#[trigger] t[i], a) by {}
        trace::lemma_left_alone(m, t, a);
    }
}

/// What attaching finds in a video header that nobody changes meanwhile: nothing is wrong
/// exactly if magic, version and header size are those of this layout; otherwise the
/// first of these that is not so is named.
pub proof fn video_attach_finds_the_first_fault(
    m: Memory,
    payload_len: nat,
    magic: u64,
    version: u32,
    header_size: u32,
)
    requires
        trace::undisturbed(
            m,
            video::video_attach_trace(payload_len, magic, version, header_size),
        ),
    ensures
        ({
            let fault = video::video_attach_fault(payload_len, magic, version, header_size);
            let current = m[MAGIC_OFFSET as int] == VIDEO_MAGIC;
            let same_version = m[VERSION_OFFSET as int] == VIDEO_VERSION;
            let same_size = m[HEADER_SIZE_OFFSET as int] == VIDEO_HEADER_SIZE;
            &&& fault is None <==> 0 < payload_len && current && same_version && same_size
            &&& payload_len == 0 ==> fault == Some("video region smaller than header"@)
            &&& 0 < payload_len && !current ==> fault == Some(
                "bad video magic (region not initialized yet)"@,
            )
            &&& 0 < payload_len && current && !same_version ==> fault == Some(
                "video version mismatch"@,
            )
            &&& 0 < payload_len && current && same_version && !same_size ==> fault == Some(
                "video ABI/header_size mismatch"@,
            )
            &&& trace::after(
                m,
                video::video_attach_trace(payload_len, magic, version, header_size),
            ) == m
        }),
{
    let t = video::video_attach_trace(payload_len, magic, version, header_size);
    trace::lemma_loads_store_nothing(m, t);
    if payload_len > 0 {
        trace::lemma_looks(m, t, 0);
        if magic == VIDEO_MAGIC {
            trace::lemma_looks(m, t, 1);
            if version == VIDEO_VERSION {
                trace::lemma_looks(m, t, 2);
            }
        }
    }
}

/// How a push of a frame is ordered: a fence and then the count, released, come after all
/// bytes of the frame.
pub proof fn frame_pushes_are_fenced(s: Slots, payload_len: nat, seq: u64, src: Seq<u8>, i: int)
    requires
        s.frame_size > 0,
        s.count > 0,
        s.offset(seq as int) + s.frame_size <= payload_len,
        0 <= i < video::push_frame_trace(s, payload_len, seq, src).len(),
    ensures
        ({
            let t = video::push_frame_trace(s, payload_len, seq, src);
            let n = t.len() as int;
            &&& n == s.frame_size + 3
            &&& t[n - 2] == (Access::Fence { order: MemOrder::Release })
            &&& t[n - 1] == trace::stored64(
                FRAME_SEQ_OFFSET as int,
                seq.wrapping_add(1),
                MemOrder::Release,
            )
            &&& 0 < i < n - 2 ==> t[i] is Store
            &&& i == 0 <==> t[i] is Load
        }),
{
}

/// How a read of a frame is ordered: the count is loaded first and last, with acquire, and
/// nothing is stored.
pub proof fn frame_reads_are_ordered(
    s: Slots,
    payload_len: nat,
    len: int,
    o: FrameSample,
    i: int,
)
    requires
        s.frame_size > 0,
        s.count > 0,
        0 <= i < o.trace(s, payload_len, len).len(),
    ensures
        ({
            let t = o.trace(s, payload_len, len);
            &&& t[i] is Load
            &&& t[0] == trace::loaded64(FRAME_SEQ_OFFSET as int, o.seq, MemOrder::Acquire)
            &&& o.seq > 0 && s.offset(o.seq - 1) + len <= payload_len ==> t.len() == o.bytes.len()
                + 2 && t.last() == trace::loaded64(
                FRAME_SEQ_OFFSET as int,
                o.seq_after,
                MemOrder::Acquire,
            )
        }),
{
}

/// How the video header is published: what makes it valid is stored last, with release, and
/// loaded first, with acquire. That is the magic for the region, and the frame size for
/// the geometry.
pub proof fn video_headers_are_published_last_and_read_first(
    vf: VideoFormat,
    slots: u32,
    payload_len: nat,
    magic: u64,
    version: u32,
    header_size: u32,
)
    requires
        payload_len > 0,
    ensures
        video::video_init_trace().last() == trace::stored64(
            MAGIC_OFFSET as int,
            VIDEO_MAGIC,
            MemOrder::Release,
        ),
        trace::leaves_alone(video::video_init_trace().drop_last(), MAGIC_OFFSET as int),
        video::video_attach_trace(payload_len, magic, version, header_size)[0] == trace::loaded64(
            MAGIC_OFFSET as int,
            magic,
            MemOrder::Acquire,
        ),
        video::set_geometry_trace(vf, slots).last() == trace::stored32(
            FRAME_SIZE_OFFSET as int,
            vf.frame_size,
            MemOrder::Release,
        ),
        trace::leaves_alone(
            video::set_geometry_trace(vf, slots).drop_last(),
            FRAME_SIZE_OFFSET as int,
        ),
        video::geometry_trace(vf, slots)[0] == trace::loaded32(
            FRAME_SIZE_OFFSET as int,
            vf.frame_size,
            MemOrder::Acquire,
        ),
{
}

} // verus!
