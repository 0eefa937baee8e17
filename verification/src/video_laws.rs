//! What holds of the video ring as a whole.

use crate::bits;
use crate::format::VideoFormat;
use crate::interleave;
use crate::layout::{
    FOURCC_OFFSET, FRAME_SEQ_OFFSET, FRAME_SIZE_OFFSET, HEADER_SIZE_OFFSET, HEIGHT_OFFSET,
    MAGIC_OFFSET, SLOT_COUNT_OFFSET, STRIDE_OFFSET, VERSION_OFFSET, VIDEO_HEADER_SIZE, VIDEO_MAGIC,
    VIDEO_MIN_SLOTS, VIDEO_VERSION, WIDTH_OFFSET,
};
use crate::memory;
use crate::trace;
use crate::trace::{Access, Memory};
use crate::video;
use crate::video::{FrameSample, Slots};
use vstd::prelude::*;

verus! {

/// A geometry is set, and all of its slots lie in `payload_len` bytes.
pub open spec fn laid_out(s: Slots, payload_len: nat) -> bool {
    &&& 0 < s.frame_size <= u32::MAX
    &&& 0 < s.count <= u32::MAX
    &&& s.count * s.stride() <= payload_len
}

/// Frame `f` lies in its slot, as it was pushed.
pub open spec fn shows(m: Memory, s: Slots, f: int, src: Seq<u8>) -> bool {
    forall|i: int|
        0 <= i < s.frame_size ==> m[#[trigger] s.cell(f, i)] == video::frame_image(
            src,
            s.frame_size,
        )[i]
}

/// `frames` have been pushed and counted, and the newest ones are there, one for
/// each slot.
pub open spec fn shows_newest(m: Memory, s: Slots, frames: Seq<Seq<u8>>) -> bool {
    &&& m[FRAME_SEQ_OFFSET as int] == frames.len()
    &&& forall|f: int|
        0 <= f < frames.len() && frames.len() - s.count <= f ==> #[trigger] shows(
            m,
            s,
            f,
            frames[f],
        )
}

/// The accesses of a producer that pushes `srcs`, one after the other, from `m`
/// on.
pub open spec fn frames_pushed(m: Memory, s: Slots, payload_len: nat, srcs: Seq<Seq<u8>>) -> Seq<
    Access,
>
    decreases srcs.len(),
{
    if srcs.len() == 0 {
        Seq::empty()
    } else {
        let before = frames_pushed(m, s, payload_len, srcs.drop_last());
        before + video::push_frame_trace(
            s,
            payload_len,
            trace::after(m, before)[FRAME_SEQ_OFFSET as int] as u64,
            srcs.last(),
        )
    }
}

/// Every slot of a laid-out geometry lies in the payload.
pub proof fn lemma_slot_inside(s: Slots, payload_len: nat, f: int)
    requires
        laid_out(s, payload_len),
    ensures
        0 <= f % s.count < s.count,
        0 <= s.offset(f),
        s.offset(f) + s.stride() <= payload_len,
        s.frame_size <= s.stride(),
{
    vstd::arithmetic::div_mod::lemma_mod_bound(f, s.count);
    bits::aligned_64_is_smallest(s.frame_size);
    let slot = f % s.count;
    let stride = s.stride();
    assert(0 <= slot * stride && slot * stride + stride <= s.count * stride) by (nonlinear_arith)
        requires
            0 <= slot < s.count,
            0 <= stride,
    ;
}

/// Bytes of different slots lie in different cells.
proof fn lemma_slots_disjoint(s: Slots, payload_len: nat, f: int, i: int, g: int, k: int)
    requires
        laid_out(s, payload_len),
        f % s.count != g % s.count,
        0 <= i < s.frame_size,
        0 <= k < s.frame_size,
    ensures
        s.cell(f, i) != s.cell(g, k),
{
    lemma_slot_inside(s, payload_len, f);
    lemma_slot_inside(s, payload_len, g);
    let a = f % s.count;
    let b = g % s.count;
    let stride = s.stride();
    if a < b {
        assert(a * stride + stride <= b * stride) by (nonlinear_arith)
            requires
                a + 1 <= b,
                0 <= stride,
        ;
    } else {
        assert(b * stride + stride <= a * stride) by (nonlinear_arith)
            requires
                b + 1 <= a,
                0 <= stride,
        ;
    }
}

/// Two frames less than a round apart have different slots.
pub proof fn frames_within_a_round_have_different_slots(count: int, f: int, g: int)
    requires
        0 < count,
        f < g < f + count,
    ensures
        f % count != g % count,
{
    crate::audio::lemma_ring_index(f, count, g - f);
    assert(f + (g - f) == g);
}

/// What the memory holds at every point of a push of one frame.
proof fn lemma_push_frame_steps(
    m: Memory,
    s: Slots,
    payload_len: nat,
    src: Seq<u8>,
    r: int,
)
    requires
        laid_out(s, payload_len),
        0 <= m[FRAME_SEQ_OFFSET as int] < u64::MAX,
        0 <= r <= s.frame_size + 3,
    ensures
        ({
            let seq = m[FRAME_SEQ_OFFSET as int];
            let t = video::push_frame_trace(s, payload_len, seq as u64, src);
            let now = trace::after(m, t.take(r));
            &&& t.len() == s.frame_size + 3
            &&& now[FRAME_SEQ_OFFSET as int] == (if r < s.frame_size + 3 {
                seq
            } else {
                seq + 1
            })
            &&& forall|f: int, i: int|
                f % s.count != seq % s.count && 0 <= i < s.frame_size ==> now[#[trigger] s.cell(
                    f,
                    i,
                )] == m[s.cell(f, i)]
            &&& r >= s.frame_size + 1 ==> shows(now, s, seq, src)
        }),
    decreases r,
{
    let seq = m[FRAME_SEQ_OFFSET as int];
    let n = s.frame_size;
    let t = video::push_frame_trace(s, payload_len, seq as u64, src);
    let image = video::frame_image(src, n);
    lemma_slot_inside(s, payload_len, seq);
    assert(t.len() == n + 3);
    assert forall|i: int| 0 <= i < n implies #[trigger] t[1 + i] == trace::stored8(
        s.cell(seq, i),
        image[i],
    ) by {
        assert(t[1 + i] == memory::byte_stores(s.cell(seq, 0), image)[i]);
    }
    let now = trace::after(m, t.take(r));
    assert forall|i: int| 0 <= i < r implies (trace::is_store_to(
        #[trigger] t.take(r)[i],
        FRAME_SEQ_OFFSET as int,
    ) <==> i == n + 2) by {
        assert(t.take(r)[i] == t[i]);
        if 1 <= i < n + 1 {
            assert(t[1 + (i - 1)] == trace::stored8(s.cell(seq, i - 1), image[i - 1]));
        }
    }
    if r < n + 3 {
        trace::lemma_left_alone(m, t.take(r), FRAME_SEQ_OFFSET as int);
    } else {
        assert(t.take(r)[n + 2] == t[n + 2]);
        trace::lemma_stored_once(m, t.take(r), n + 2, FRAME_SEQ_OFFSET as int, seq + 1);
    }
    assert forall|f: int, i: int|
        f % s.count != seq % s.count && 0 <= i < s.frame_size implies now[#[trigger] s.cell(f, i)]
        == m[s.cell(f, i)] by {
        lemma_slot_inside(s, payload_len, f);
        assert forall|k: int| 0 <= k < r implies !trace::is_store_to(
            #[trigger] t.take(r)[k],
            s.cell(f, i),
        ) by {
            assert(t.take(r)[k] == t[k]);
            if 1 <= k < n + 1 {
                assert(t[1 + (k - 1)] == trace::stored8(s.cell(seq, k - 1), image[k - 1]));
                lemma_slots_disjoint(s, payload_len, f, i, seq, k - 1);
            }
        }
        trace::lemma_left_alone(m, t.take(r), s.cell(f, i));
    }
    if r >= n + 1 {
        assert forall|i: int| 0 <= i < n implies now[#[trigger] s.cell(seq, i)] == image[i] by {
            assert(t.take(r)[1 + i] == t[1 + i]);
            assert forall|k: int| 1 + i < k < r implies !trace::is_store_to(
                #[trigger] t.take(r)[k],
                s.cell(seq, i),
            ) by {
                assert(t.take(r)[k] == t[k]);
                if k < n + 1 {
                    assert(t[1 + (k - 1)] == trace::stored8(s.cell(seq, k - 1), image[k - 1]));
                }
            }
            trace::lemma_stored_once(m, t.take(r), 1 + i, s.cell(seq, i), image[i] as int);
        }
    }
}

/// The frames that are safe to read at any moment: all but the one whose slot is
/// next in line.
spec fn shows_settled(m: Memory, s: Slots, frames: Seq<Seq<u8>>, count: int) -> bool {
    &&& m[FRAME_SEQ_OFFSET as int] == count
    &&& 0 <= count <= frames.len()
    &&& forall|f: int| 0 <= f < count && count - s.count < f ==> #[trigger] shows(m, s, f, frames[f])
}

/// A pushed frame is counted and lies in its slot, and pushes no other frame out of
/// the ring than the oldest one.
pub proof fn push_shows_the_frame(
    m: Memory,
    s: Slots,
    payload_len: nat,
    frames: Seq<Seq<u8>>,
    src: Seq<u8>,
)
    requires
        laid_out(s, payload_len),
        shows_newest(m, s, frames),
        frames.len() < u64::MAX,
    ensures
        shows_newest(
            trace::after(
                m,
                video::push_frame_trace(
                    s,
                    payload_len,
                    m[FRAME_SEQ_OFFSET as int] as u64,
                    src,
                ),
            ),
            s,
            frames.push(src),
        ),
{
    let seq = m[FRAME_SEQ_OFFSET as int];
    let t = video::push_frame_trace(s, payload_len, seq as u64, src);
    let all = frames.push(src);
    lemma_push_frame_steps(m, s, payload_len, src, s.frame_size + 3);
    assert(t.take(s.frame_size + 3) =~= t);
    let now = trace::after(m, t);
    assert forall|f: int| 0 <= f < all.len() && all.len() - s.count <= f implies #[trigger] shows(
        now,
        s,
        f,
        all[f],
    ) by {
        if f < frames.len() {
            frames_within_a_round_have_different_slots(s.count, f, seq);
            assert(shows(m, s, f, frames[f]));
        }
    }
}

/// A producer that pushes `srcs` leaves the newest frames in the ring.
pub proof fn pushes_show_the_frames(
    m: Memory,
    s: Slots,
    payload_len: nat,
    frames: Seq<Seq<u8>>,
    srcs: Seq<Seq<u8>>,
)
    requires
        laid_out(s, payload_len),
        shows_newest(m, s, frames),
        frames.len() + srcs.len() <= u64::MAX,
    ensures
        shows_newest(
            trace::after(m, frames_pushed(m, s, payload_len, srcs)),
            s,
            frames + srcs,
        ),
    decreases srcs.len(),
{
    if srcs.len() == 0 {
        assert(frames + srcs =~= frames);
    } else {
        let front = srcs.drop_last();
        pushes_show_the_frames(m, s, payload_len, frames, front);
        let before = frames_pushed(m, s, payload_len, front);
        let mid = trace::after(m, before);
        push_shows_the_frame(mid, s, payload_len, frames + front, srcs.last());
        assert((frames + front).push(srcs.last()) =~= frames + srcs);
        trace::lemma_concat(
            m,
            before,
            video::push_frame_trace(
                s,
                payload_len,
                mid[FRAME_SEQ_OFFSET as int] as u64,
                srcs.last(),
            ),
        );
    }
}

/// At every point of a producer's work, all settled frames are there, and the
/// count never falls.
proof fn lemma_settled(
    m: Memory,
    s: Slots,
    payload_len: nat,
    frames: Seq<Seq<u8>>,
    srcs: Seq<Seq<u8>>,
    q: int,
)
    requires
        laid_out(s, payload_len),
        shows_newest(m, s, frames),
        frames.len() + srcs.len() <= u64::MAX,
        0 <= q <= frames_pushed(m, s, payload_len, srcs).len(),
    ensures
        ({
            let p = frames_pushed(m, s, payload_len, srcs);
            let now = trace::after(m, p.take(q));
            &&& shows_settled(now, s, frames + srcs, now[FRAME_SEQ_OFFSET as int])
            &&& q < p.len() ==> now[FRAME_SEQ_OFFSET as int] <= trace::after(m, p.take(q + 1))[
            FRAME_SEQ_OFFSET as int]
        }),
    decreases srcs.len(),
{
    let p = frames_pushed(m, s, payload_len, srcs);
    let now = trace::after(m, p.take(q));
    let all = frames + srcs;
    if srcs.len() == 0 {
        assert(p.take(q) =~= p);
        assert(all =~= frames);
    } else {
        let front = srcs.drop_last();
        let src = srcs.last();
        let before = frames_pushed(m, s, payload_len, front);
        let mid = trace::after(m, before);
        let seq = mid[FRAME_SEQ_OFFSET as int];
        let t = video::push_frame_trace(s, payload_len, seq as u64, src);
        pushes_show_the_frames(m, s, payload_len, frames, front);
        if q < before.len() {
            lemma_settled(m, s, payload_len, frames, front, q);
            assert(p.take(q) =~= before.take(q));
            assert(p.take(q + 1) =~= before.take(q + 1));
            let count = now[FRAME_SEQ_OFFSET as int];
            assert forall|f: int| 0 <= f < count && count - s.count < f implies #[trigger] shows(
                now,
                s,
                f,
                all[f],
            ) by {
                assert(shows(now, s, f, (frames + front)[f]));
                assert((frames + front)[f] == all[f]);
            }
        } else {
            let r = q - before.len();
            assert(p.take(q) =~= before + t.take(r));
            trace::lemma_concat(m, before, t.take(r));
            lemma_push_frame_steps(mid, s, payload_len, src, r);
            if r < t.len() {
                assert(p.take(q + 1) =~= before + t.take(r + 1));
                trace::lemma_concat(m, before, t.take(r + 1));
                lemma_push_frame_steps(mid, s, payload_len, src, r + 1);
            }
            let count = now[FRAME_SEQ_OFFSET as int];
            assert(seq == (frames + front).len());
            assert forall|f: int| 0 <= f < count && count - s.count < f implies #[trigger] shows(
                now,
                s,
                f,
                all[f],
            ) by {
                if f < seq {
                    frames_within_a_round_have_different_slots(s.count, f, seq);
                    assert(shows(mid, s, f, (frames + front)[f]));
                    assert((frames + front)[f] == all[f]);
                } else {
                    assert(all[f] == src);
                }
            }
        }
    }
}

proof fn lemma_count_rises(
    m: Memory,
    s: Slots,
    payload_len: nat,
    frames: Seq<Seq<u8>>,
    srcs: Seq<Seq<u8>>,
    q0: int,
    q1: int,
)
    requires
        laid_out(s, payload_len),
        shows_newest(m, s, frames),
        frames.len() + srcs.len() <= u64::MAX,
        0 <= q0 <= q1 <= frames_pushed(m, s, payload_len, srcs).len(),
    ensures
        ({
            let p = frames_pushed(m, s, payload_len, srcs);
            trace::after(m, p.take(q0))[FRAME_SEQ_OFFSET as int] <= trace::after(m, p.take(q1))[
            FRAME_SEQ_OFFSET as int]
        }),
    decreases q1,
{
    if q0 < q1 {
        lemma_count_rises(m, s, payload_len, frames, srcs, q0, q1 - 1);
        lemma_settled(m, s, payload_len, frames, srcs, q1 - 1);
    }
}

/// The slot that is read is never the one that is being written: if at most two
/// frames fewer than there are slots were completed during a copy, no frame that
/// was begun meanwhile goes to the slot of the frame that was the newest before.
pub proof fn reader_and_writer_never_share_a_slot(count: int, seq: int, seq_after: int, f: int)
    requires
        2 <= count,
        0 < seq <= seq_after,
        seq_after - seq <= count - 2,
        seq <= f <= seq_after,
    ensures
        f % count != (seq - 1) % count,
{
    frames_within_a_round_have_different_slots(count, seq - 1, f);
}

/// No torn frame. While a producer pushes `srcs` behind `frames`, and whatever the
/// order in which its accesses and those of a read fall, a read that gives a frame
/// number has copied exactly that frame, as it was pushed.
pub proof fn read_frames_are_never_torn(
    m: Memory,
    s: Slots,
    payload_len: nat,
    frames: Seq<Seq<u8>>,
    srcs: Seq<Seq<u8>>,
    turns: Seq<bool>,
    len: int,
    o: FrameSample,
)
    requires
        laid_out(s, payload_len),
        2 <= s.count,
        shows_newest(m, s, frames),
        frames.len() + srcs.len() <= u64::MAX,
        0 <= len <= s.frame_size,
        o.started(s, payload_len, len),
        o.bytes.len() == len,
        o.intact(s),
        interleave::observed(
            m,
            frames_pushed(m, s, payload_len, srcs),
            o.trace(s, payload_len, len),
            turns,
        ),
    ensures
        0 <= o.newest() < (frames + srcs).len(),
        o.bytes == video::frame_image((frames + srcs)[o.newest()], s.frame_size).take(len),
{
    let p = frames_pushed(m, s, payload_len, srcs);
    let t = o.trace(s, payload_len, len);
    let all = frames + srcs;
    let newest = o.newest();
    lemma_slot_inside(s, payload_len, newest);
    assert(t.len() == len + 2);
    assert(t[0] == trace::loaded64(
        FRAME_SEQ_OFFSET as int,
        o.seq,
        trace::MemOrder::Acquire,
    ));
    assert(t[len + 1] == trace::loaded64(
        FRAME_SEQ_OFFSET as int,
        o.seq_after,
        trace::MemOrder::Acquire,
    ));
    trace::lemma_loads_store_nothing(m, t);
    let q0 = interleave::progress(turns, 0);
    let q1 = interleave::progress(turns, len + 1);
    interleave::lemma_progress(p, t, turns, 0, len + 1);
    interleave::lemma_progress(p, t, turns, len + 1, len + 1);
    interleave::lemma_seen(m, p, t, turns, 0, FRAME_SEQ_OFFSET as int, o.seq as int);
    interleave::lemma_seen(m, p, t, turns, len + 1, FRAME_SEQ_OFFSET as int, o.seq_after as int);
    lemma_settled(m, s, payload_len, frames, srcs, q0);
    lemma_count_rises(m, s, payload_len, frames, srcs, q0, q1);
    let image = video::frame_image(all[newest], s.frame_size);
    assert forall|i: int| 0 <= i < len implies o.bytes[i] == #[trigger] image.take(len)[i] by {
        let q = interleave::progress(turns, 1 + i);
        interleave::lemma_progress(p, t, turns, 0, 1 + i);
        interleave::lemma_progress(p, t, turns, 1 + i, len + 1);
        assert(t[1 + i] == memory::byte_loads(s.cell(newest, 0), o.bytes)[i]);
        interleave::lemma_seen(m, p, t, turns, 1 + i, s.cell(newest, i), o.bytes[i] as int);
        lemma_count_rises(m, s, payload_len, frames, srcs, q0, q);
        lemma_count_rises(m, s, payload_len, frames, srcs, q, q1);
        lemma_settled(m, s, payload_len, frames, srcs, q);
        let now = trace::after(m, p.take(q));
        assert(shows(now, s, newest, all[newest]));
    }
    assert(o.bytes =~= image.take(len));
}

/// A geometry that was accepted has at least three slots, all of which lie in the
/// region.
pub proof fn accepted_geometries_are_laid_out(usable: int, frame_size: u32)
    requires
        0 <= usable,
        frame_size != 0,
        video::slots_that_fit(usable, frame_size as int) >= VIDEO_MIN_SLOTS,
    ensures
        ({
            let n = video::published_slots(video::slots_that_fit(usable, frame_size as int));
            &&& n >= VIDEO_MIN_SLOTS
            &&& laid_out(Slots { frame_size: frame_size as int, count: n as int }, usable as nat)
        }),
{
    let fit = video::slots_that_fit(usable, frame_size as int);
    let n = video::published_slots(fit) as int;
    let stride = bits::aligned_64(frame_size as int);
    bits::aligned_64_is_smallest(frame_size as int);
    vstd::arithmetic::div_mod::lemma_fundamental_div_mod(usable, stride);
    assert(n * stride <= usable) by (nonlinear_arith)
        requires
            0 <= n <= fit,
            0 < stride,
            usable == stride * fit + usable % stride,
            0 <= usable % stride,
    ;
}

/// What publishing a geometry leaves in the header.
pub proof fn lemma_geometry_fields(m: Memory, vf: VideoFormat, slot_count: u32)
    ensures
        ({
            let now = trace::after(m, video::set_geometry_trace(vf, slot_count));
            &&& now[WIDTH_OFFSET as int] == vf.width
            &&& now[HEIGHT_OFFSET as int] == vf.height
            &&& now[STRIDE_OFFSET as int] == vf.stride
            &&& now[FOURCC_OFFSET as int] == vf.fourcc
            &&& now[SLOT_COUNT_OFFSET as int] == slot_count
            &&& now[FRAME_SEQ_OFFSET as int] == 0
            &&& now[FRAME_SIZE_OFFSET as int] == vf.frame_size
        }),
{
    let t = video::set_geometry_trace(vf, slot_count);
    trace::lemma_stored_once(m, t, 0, WIDTH_OFFSET as int, vf.width as int);
    trace::lemma_stored_once(m, t, 1, HEIGHT_OFFSET as int, vf.height as int);
    trace::lemma_stored_once(m, t, 2, STRIDE_OFFSET as int, vf.stride as int);
    trace::lemma_stored_once(m, t, 3, FOURCC_OFFSET as int, vf.fourcc as int);
    trace::lemma_stored_once(m, t, 4, SLOT_COUNT_OFFSET as int, slot_count as int);
    trace::lemma_stored_once(m, t, 5, FRAME_SEQ_OFFSET as int, 0);
    trace::lemma_stored_once(m, t, 6, FRAME_SIZE_OFFSET as int, vf.frame_size as int);
}

/// A published geometry is read back as it was published, and no frame is counted
/// in it yet.
pub proof fn geometry_reads_back(
    m: Memory,
    vf: VideoFormat,
    slot_count: u32,
    seen: VideoFormat,
    seen_count: u32,
)
    requires
        vf.frame_size != 0,
        trace::undisturbed(
            trace::after(m, video::set_geometry_trace(vf, slot_count)),
            video::geometry_trace(seen, seen_count),
        ),
    ensures
        seen == vf,
        seen_count == slot_count,
        shows_newest(
            trace::after(m, video::set_geometry_trace(vf, slot_count)),
            Slots { frame_size: vf.frame_size as int, count: slot_count as int },
            Seq::empty(),
        ),
{
    let now = trace::after(m, video::set_geometry_trace(vf, slot_count));
    let t = video::geometry_trace(seen, seen_count);
    lemma_geometry_fields(m, vf, slot_count);
    trace::lemma_looks(now, t, 0);
    trace::lemma_looks(now, t, 1);
    trace::lemma_looks(now, t, 2);
    trace::lemma_looks(now, t, 3);
    trace::lemma_looks(now, t, 4);
    trace::lemma_looks(now, t, 5);
}

/// Reading the geometry while it is being published gives all of it or none.
pub proof fn geometry_is_seen_whole_or_not_at_all(
    m: Memory,
    vf: VideoFormat,
    slot_count: u32,
    turns: Seq<bool>,
    seen: VideoFormat,
    seen_count: u32,
)
    requires
        m[FRAME_SIZE_OFFSET as int] == 0,
        interleave::observed(
            m,
            video::set_geometry_trace(vf, slot_count),
            video::geometry_trace(seen, seen_count),
            turns,
        ),
    ensures
        seen.frame_size == 0 || seen == vf && seen_count == slot_count,
{
    if seen.frame_size != 0 {
        let p = video::set_geometry_trace(vf, slot_count);
        let c = video::geometry_trace(seen, seen_count);
        lemma_geometry_fields(m, vf, slot_count);
        trace::lemma_loads_store_nothing(m, c);
        let latch = FRAME_SIZE_OFFSET as int;
        interleave::lemma_latch(m, p, c, turns, latch, seen.frame_size as int, 0);
        interleave::lemma_latch(m, p, c, turns, latch, seen.frame_size as int, 1);
        interleave::lemma_latch(m, p, c, turns, latch, seen.frame_size as int, 2);
        interleave::lemma_latch(m, p, c, turns, latch, seen.frame_size as int, 3);
        interleave::lemma_latch(m, p, c, turns, latch, seen.frame_size as int, 4);
        interleave::lemma_latch(m, p, c, turns, latch, seen.frame_size as int, 5);
    }
}

/// What initializing leaves in the video header.
pub proof fn video_init_leaves_no_geometry(m: Memory)
    ensures
        ({
            let now = trace::after(m, video::video_init_trace());
            &&& now[MAGIC_OFFSET as int] == VIDEO_MAGIC
            &&& now[VERSION_OFFSET as int] == VIDEO_VERSION
            &&& now[HEADER_SIZE_OFFSET as int] == VIDEO_HEADER_SIZE
            &&& now[FRAME_SIZE_OFFSET as int] == 0
            &&& now[SLOT_COUNT_OFFSET as int] == 0
            &&& now[FRAME_SEQ_OFFSET as int] == 0
        }),
{
    let t = video::video_init_trace();
    trace::lemma_stored_once(m, t, 0, HEADER_SIZE_OFFSET as int, VIDEO_HEADER_SIZE as int);
    trace::lemma_stored_once(m, t, 5, SLOT_COUNT_OFFSET as int, 0);
    trace::lemma_stored_once(m, t, 6, FRAME_SEQ_OFFSET as int, 0);
    trace::lemma_stored_once(m, t, 7, FRAME_SIZE_OFFSET as int, 0);
    trace::lemma_stored_once(m, t, 8, VERSION_OFFSET as int, VIDEO_VERSION as int);
    trace::lemma_stored_once(m, t, 9, MAGIC_OFFSET as int, VIDEO_MAGIC as int);
}

/// A video region that was initialized can be attached to; one without the magic
/// cannot.
pub proof fn video_attach_wants_an_initialized_region(
    m: Memory,
    payload_len: nat,
    magic: u64,
    version: u32,
    header_size: u32,
)
    requires
        payload_len > 0,
    ensures
        trace::undisturbed(
            trace::after(m, video::video_init_trace()),
            video::video_attach_trace(payload_len, magic, version, header_size),
        ) ==> video::video_attach_fault(payload_len, magic, version, header_size) is None,
        m[MAGIC_OFFSET as int] != VIDEO_MAGIC && trace::undisturbed(
            m,
            video::video_attach_trace(payload_len, magic, version, header_size),
        ) ==> video::video_attach_fault(payload_len, magic, version, header_size) is Some,
{
    let now = trace::after(m, video::video_init_trace());
    let t = video::video_attach_trace(payload_len, magic, version, header_size);
    video_init_leaves_no_geometry(m);
    if trace::undisturbed(now, t) {
        trace::lemma_looks(now, t, 0);
        trace::lemma_looks(now, t, 1);
        trace::lemma_looks(now, t, 2);
    }
    if trace::undisturbed(m, t) {
        trace::lemma_looks(m, t, 0);
    }
}

/// The newest frame is read back as it was pushed, when nothing disturbs the read.
pub proof fn newest_frame_reads_back(
    m: Memory,
    s: Slots,
    payload_len: nat,
    frames: Seq<Seq<u8>>,
    len: int,
    o: FrameSample,
)
    requires
        laid_out(s, payload_len),
        shows_newest(m, s, frames),
        0 < frames.len() <= u64::MAX,
        0 <= len <= s.frame_size,
        o.started(s, payload_len, len) ==> o.bytes.len() == len,
        trace::undisturbed(m, o.trace(s, payload_len, len)),
    ensures
        o.started(s, payload_len, len),
        o.intact(s),
        o.newest() == frames.len() - 1,
        o.bytes == video::frame_image(frames.last(), s.frame_size).take(len),
{
    let t = o.trace(s, payload_len, len);
    lemma_slot_inside(s, payload_len, o.newest());
    assert(t[0] == trace::loaded64(
        FRAME_SEQ_OFFSET as int,
        o.seq,
        trace::MemOrder::Acquire,
    ));
    assert forall|k: int| 0 <= k < t.len() implies #[trigger] t[k] is Load by {}
    trace::lemma_looks(m, t, 0);
    assert(o.started(s, payload_len, len));
    assert(t[len + 1] == trace::loaded64(
        FRAME_SEQ_OFFSET as int,
        o.seq_after,
        trace::MemOrder::Acquire,
    ));
    trace::lemma_looks(m, t, len + 1);
    let image = video::frame_image(frames.last(), s.frame_size);
    assert(shows(m, s, o.newest(), frames[o.newest()]));
    assert forall|i: int| 0 <= i < len implies o.bytes[i] == #[trigger] image.take(len)[i] by {
        assert(t[1 + i] == memory::byte_loads(s.cell(o.newest(), 0), o.bytes)[i]);
        trace::lemma_looks(m, t, 1 + i);
        assert(m[s.cell(o.newest(), i)] == image[i]);
    }
    assert(o.bytes =~= image.take(len));
}

} // verus!
