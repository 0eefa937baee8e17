//! The video ring, over owned memory.

use std::sync::atomic::{AtomicU32, AtomicU64, AtomicU8, Ordering};

use lalah::format::VideoFormat;
use lalah::layout::{
    FOURCC_OFFSET, FRAME_SEQ_OFFSET, FRAME_SIZE_OFFSET, HEADER_SIZE_OFFSET, HEIGHT_OFFSET,
    MAGIC_OFFSET, SLOT_COUNT_OFFSET, STRIDE_OFFSET, VERSION_OFFSET, VIDEO_HEADER_ALIGN,
    VIDEO_HEADER_SIZE, VIDEO_MAGIC, VIDEO_VERSION, WIDTH_OFFSET,
};
use lalah::memory::{ByteCells, Cell32, Cell64};
use lalah::video::{plan_slots, video_region, ShmVideoBuffer, ShmVideoHeader, VideoMapping};

const FRAME: usize = 64; // slots are 64 bytes apart
const SLOTS: usize = 4;

struct Region {
    magic: AtomicU64,
    version: AtomicU32,
    header_size: AtomicU32,
    width: AtomicU32,
    height: AtomicU32,
    stride: AtomicU32,
    fourcc: AtomicU32,
    frame_size: AtomicU32,
    slot_count: AtomicU32,
    frame_seq: AtomicU64,
    payload: Vec<AtomicU8>,
}

fn region(payload: usize) -> Region {
    Region {
        magic: AtomicU64::new(0),
        version: AtomicU32::new(0),
        header_size: AtomicU32::new(0),
        width: AtomicU32::new(0),
        height: AtomicU32::new(0),
        stride: AtomicU32::new(0),
        fourcc: AtomicU32::new(0),
        frame_size: AtomicU32::new(0),
        slot_count: AtomicU32::new(0),
        frame_seq: AtomicU64::new(0),
        payload: (0..payload).map(|_| AtomicU8::new(0)).collect(),
    }
}

fn mapping(r: &Region) -> VideoMapping<'_> {
    let header = ShmVideoHeader {
        magic: Cell64::new(&r.magic, MAGIC_OFFSET),
        version: Cell32::new(&r.version, VERSION_OFFSET),
        header_size: Cell32::new(&r.header_size, HEADER_SIZE_OFFSET),
        width: Cell32::new(&r.width, WIDTH_OFFSET),
        height: Cell32::new(&r.height, HEIGHT_OFFSET),
        stride: Cell32::new(&r.stride, STRIDE_OFFSET),
        fourcc: Cell32::new(&r.fourcc, FOURCC_OFFSET),
        frame_size: Cell32::new(&r.frame_size, FRAME_SIZE_OFFSET),
        slot_count: Cell32::new(&r.slot_count, SLOT_COUNT_OFFSET),
        frame_seq: Cell64::new(&r.frame_seq, FRAME_SEQ_OFFSET),
    };
    VideoMapping::new(header, ByteCells::new(&r.payload, VIDEO_HEADER_SIZE))
}

fn fresh(r: &Region) -> ShmVideoBuffer<'_> {
    ShmVideoBuffer::init(mapping(r))
}

fn vfmt() -> VideoFormat {
    VideoFormat {
        width: 8,
        height: 8,
        stride: 8,
        fourcc: u32::from_le_bytes(*b"YUY2"),
        frame_size: FRAME as u32,
    }
}

#[test]
fn video_header_layout_is_frozen() {
    assert_eq!(VIDEO_HEADER_SIZE, 128);
    assert_eq!(VIDEO_HEADER_ALIGN, 64);
}

#[test]
fn video_header_fields_lie_at_their_offsets() {
    let offsets = [
        MAGIC_OFFSET,
        VERSION_OFFSET,
        HEADER_SIZE_OFFSET,
        WIDTH_OFFSET,
        HEIGHT_OFFSET,
        STRIDE_OFFSET,
        FOURCC_OFFSET,
        FRAME_SIZE_OFFSET,
        SLOT_COUNT_OFFSET,
        FRAME_SEQ_OFFSET,
    ];
    assert_eq!(offsets, [0, 8, 12, 16, 20, 24, 28, 32, 36, 64]);
}

#[test]
fn geometry_gate_unset_until_published() {
    let r = region(FRAME * SLOTS);
    let mut buf = fresh(&r);
    assert!(buf.refresh_geometry().is_none(), "geometry must start unset");
    let n = buf.set_geometry(vfmt()).expect("publish geometry");
    assert_eq!(n, SLOTS as u32);
    let vf = buf.refresh_geometry().expect("geometry published");
    assert_eq!(vf, vfmt());
}

#[test]
fn attach_validates_video_magic() {
    let r = region(FRAME * SLOTS);
    let _buf = fresh(&r);
    assert!(ShmVideoBuffer::attach(mapping(&r)).is_ok());

    let bad = region(FRAME * SLOTS);
    assert!(ShmVideoBuffer::attach(mapping(&bad)).is_err());
}

#[test]
fn region_too_small_for_three_slots_is_rejected() {
    // Only room for 2 slots -> set_geometry must refuse.
    let r = region(FRAME * 2);
    let mut buf = fresh(&r);
    assert!(buf.set_geometry(vfmt()).is_err());
}

#[test]
fn no_frame_before_push() {
    let r = region(FRAME * SLOTS);
    let mut buf = fresh(&r);
    buf.set_geometry(vfmt()).unwrap();
    let mut out = [0u8; FRAME];
    assert!(buf.read_frame(&mut out).is_none());
}

#[test]
fn push_read_roundtrip_and_newest_wins() {
    let r = region(FRAME * SLOTS);
    let mut buf = fresh(&r);
    buf.set_geometry(vfmt()).unwrap();

    let f1: Vec<u8> = (0..FRAME).map(|i| i as u8).collect();
    buf.push_frame(&f1);
    let mut out = [0u8; FRAME];
    assert_eq!(buf.read_frame(&mut out), Some(0));
    assert_eq!(&out[..], &f1[..]);

    // Newest frame wins; older ones are skipped.
    for k in 1..=5u8 {
        let f: Vec<u8> = (0..FRAME).map(|i| i as u8 ^ (k * 17)).collect();
        buf.push_frame(&f);
    }
    let n = buf.read_frame(&mut out).expect("frame");
    assert_eq!(n, 5);
    let expect: Vec<u8> = (0..FRAME).map(|i| i as u8 ^ (5 * 17)).collect();
    assert_eq!(&out[..], &expect[..]);
}

#[test]
fn short_source_is_zero_filled() {
    let r = region(FRAME * SLOTS);
    let mut buf = fresh(&r);
    buf.set_geometry(vfmt()).unwrap();
    buf.push_frame(&[0xAB; 10]); // shorter than FRAME
    let mut out = [0xFFu8; FRAME];
    assert_eq!(buf.read_frame(&mut out), Some(0));
    assert_eq!(&out[..10], &[0xAB; 10]);
    assert!(out[10..].iter().all(|&b| b == 0), "tail must be zero-filled");
}

#[test]
fn slot_wraps_around_ring() {
    let r = region(FRAME * SLOTS);
    let mut buf = fresh(&r);
    buf.set_geometry(vfmt()).unwrap(); // SLOTS slots
    // Push more than SLOTS frames so the ring wraps; the newest must still
    // round-trip cleanly.
    for k in 0..(SLOTS as u8 * 3 + 1) {
        let f: Vec<u8> = (0..FRAME).map(|i| (i as u8).wrapping_add(k)).collect();
        buf.push_frame(&f);
    }
    let last = SLOTS as u8 * 3; // last k pushed
    let mut out = [0u8; FRAME];
    let n = buf.read_frame(&mut out).expect("frame");
    assert_eq!(n, (SLOTS as u64 * 3 + 1) - 1);
    let expect: Vec<u8> = (0..FRAME).map(|i| (i as u8).wrapping_add(last)).collect();
    assert_eq!(&out[..], &expect[..]);
}

#[test]
fn video_init_publishes_the_header() {
    let r = region(FRAME * SLOTS);
    r.frame_size.store(9, Ordering::Relaxed);
    r.frame_seq.store(9, Ordering::Relaxed);
    let mut buf = fresh(&r);
    assert_eq!(r.magic.load(Ordering::Relaxed), 0x4C41_4C41_4856_4431);
    assert_eq!(&VIDEO_MAGIC.to_be_bytes(), b"LALAHVD1");
    assert_eq!(r.version.load(Ordering::Relaxed), 1);
    assert_eq!(r.header_size.load(Ordering::Relaxed), 128);
    assert_eq!(r.frame_size.load(Ordering::Relaxed), 0);
    assert_eq!(buf.frame_count(), 0);
    assert_eq!(buf.frame_size(), 0);
}

#[test]
fn video_attach_names_what_is_wrong() {
    let empty = region(0);
    assert_eq!(
        ShmVideoBuffer::attach(mapping(&empty)).err().map(|u| u.fault),
        Some("video region smaller than header")
    );
    let r = region(FRAME * SLOTS);
    assert_eq!(
        ShmVideoBuffer::attach(mapping(&r)).err().map(|u| u.fault),
        Some("bad video magic (region not initialized yet)")
    );
    r.magic.store(VIDEO_MAGIC, Ordering::Relaxed);
    assert_eq!(
        ShmVideoBuffer::attach(mapping(&r)).err().map(|u| u.fault),
        Some("video version mismatch")
    );
    r.version.store(VIDEO_VERSION, Ordering::Relaxed);
    assert_eq!(
        ShmVideoBuffer::attach(mapping(&r)).err().map(|u| u.fault),
        Some("video ABI/header_size mismatch")
    );
    r.header_size.store(128, Ordering::Relaxed);
    assert!(ShmVideoBuffer::attach(mapping(&r)).is_ok());
}

#[test]
fn a_refused_video_mapping_can_be_tried_again() {
    let r = region(FRAME * SLOTS);
    let refused = ShmVideoBuffer::attach(mapping(&r)).err().unwrap();
    assert_eq!(refused.fault, "bad video magic (region not initialized yet)");
    let mut host = fresh(&r);
    let mut guest = ShmVideoBuffer::attach(refused.shm).ok().unwrap();
    guest.set_geometry(vfmt()).unwrap();
    assert_eq!(host.refresh_geometry(), Some(vfmt()));
}

#[test]
fn attach_takes_over_a_published_geometry() {
    let r = region(FRAME * SLOTS);
    let mut host = fresh(&r);
    let mut guest = ShmVideoBuffer::attach(mapping(&r)).ok().unwrap();
    assert_eq!(guest.frame_size(), 0);
    guest.set_geometry(vfmt()).unwrap();
    let again = ShmVideoBuffer::attach(mapping(&r)).ok().unwrap();
    assert_eq!(again.frame_size(), FRAME);
    assert_eq!(host.refresh_geometry(), Some(vfmt()));
    guest.push_frame(&[7; FRAME]);
    let mut out = [0u8; FRAME];
    assert_eq!(host.frame_count(), 1);
    assert_eq!(host.read_frame(&mut out), Some(0));
    assert_eq!(out, [7; FRAME]);
}

#[test]
fn geometry_is_refused_with_a_reason() {
    let r = region(FRAME * SLOTS);
    let mut buf = fresh(&r);
    let mut zero = vfmt();
    zero.frame_size = 0;
    assert_eq!(buf.set_geometry(zero), Err("zero frame_size"));
    let mut large = vfmt();
    large.frame_size = 65; // two slots of 128 bytes
    assert_eq!(
        buf.set_geometry(large),
        Err("video region too small for >= 3 frame slots")
    );
    assert_eq!(r.frame_size.load(Ordering::Relaxed), 0, "nothing was published");
}

#[test]
fn a_new_geometry_starts_a_new_stream() {
    let r = region(FRAME * SLOTS);
    let mut buf = fresh(&r);
    buf.set_geometry(vfmt()).unwrap();
    buf.push_frame(&[1; FRAME]);
    assert_eq!(buf.frame_count(), 1);
    buf.set_geometry(vfmt()).unwrap();
    assert_eq!(buf.frame_count(), 0);
    let mut out = [0u8; FRAME];
    assert_eq!(buf.read_frame(&mut out), None);
}

#[test]
fn without_geometry_nothing_is_pushed() {
    let r = region(FRAME * SLOTS);
    let mut buf = fresh(&r);
    buf.push_frame(&[1; FRAME]);
    assert_eq!(buf.frame_count(), 0);
    assert_eq!(r.payload[0].load(Ordering::Relaxed), 0);
}

#[test]
fn longer_source_is_cut_off() {
    let r = region(FRAME * SLOTS);
    let mut buf = fresh(&r);
    buf.set_geometry(vfmt()).unwrap();
    buf.push_frame(&[3; FRAME + 20]);
    assert_eq!(r.payload[FRAME - 1].load(Ordering::Relaxed), 3);
    assert_eq!(r.payload[FRAME].load(Ordering::Relaxed), 0, "the next slot is untouched");
}

#[test]
fn short_output_takes_the_start_of_the_frame() {
    let r = region(FRAME * SLOTS);
    let mut buf = fresh(&r);
    buf.set_geometry(vfmt()).unwrap();
    let f: Vec<u8> = (0..FRAME).map(|i| i as u8).collect();
    buf.push_frame(&f);
    let mut out = [0u8; 10];
    assert_eq!(buf.read_frame(&mut out), Some(0));
    assert_eq!(&out[..], &f[..10]);
}

#[test]
fn slots_start_on_cache_lines() {
    // 65 bytes take two cache lines.
    assert_eq!(plan_slots(128 * 3, 65), Ok(3));
    assert_eq!(plan_slots(128 * 3 - 1, 65), Err("video region too small for >= 3 frame slots"));
    assert_eq!(plan_slots(64 * 10, 1), Ok(10));
    // A 1080p YUY2 frame: 4 147 200 bytes.
    let mib = 1024 * 1024;
    assert_eq!(plan_slots(48 * mib - 128, 1920 * 1080 * 2), Ok(12));
    assert_eq!(plan_slots(16 * mib - 128, 1920 * 1080 * 2), Ok(4));
}

#[test]
fn video_lies_behind_the_audio_region() {
    let mib = 1024 * 1024;
    assert_eq!(video_region(16 * mib), None);
    assert_eq!(video_region(0), None);
    assert_eq!(video_region(16 * mib + 1), Some((16 * mib, 1)));
    assert_eq!(video_region(16 * mib + 128), Some((16 * mib, 128)));
    assert_eq!(video_region(16 * mib + 129), Some((16 * mib, 129)));
    assert_eq!(video_region(64 * mib), Some((16 * mib, 48 * mib)));
}
