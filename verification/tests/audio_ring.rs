//! The audio ring, over owned memory.

use std::sync::atomic::{AtomicU32, AtomicU64, AtomicU8, Ordering};

use lalah::audio::{plan_read, read_is_intact, AudioMapping, ShmAudioBuffer, ShmHeader};
use lalah::format::{AudioFormat, SampleFormat};
use lalah::host::play_cycle;
use lalah::layout::{
    CAPACITY_OFFSET, CHANNELS_OFFSET, FORMAT_OFFSET, FRAME_BYTES_OFFSET, HEADER_SIZE_OFFSET,
    HEAD_OFFSET, MAGIC_OFFSET, SAMPLE_RATE_OFFSET, SEQ_OFFSET, SHM_HEADER_ALIGN, SHM_HEADER_SIZE,
    SHM_MAGIC, SHM_VERSION, TAIL_OFFSET, VERSION_OFFSET,
};
use lalah::memory::{ByteCells, Cell32, Cell64};

const CAP: usize = 1024;
const ATTEMPTS: u64 = 64;

struct Region {
    magic: AtomicU64,
    version: AtomicU32,
    header_size: AtomicU32,
    capacity: AtomicU64,
    sample_rate: AtomicU32,
    channels: AtomicU32,
    format: AtomicU32,
    frame_bytes: AtomicU32,
    tail: AtomicU64,
    seq: AtomicU64,
    head: AtomicU64,
    payload: Vec<AtomicU8>,
}

fn region(payload: usize) -> Region {
    Region {
        magic: AtomicU64::new(0),
        version: AtomicU32::new(0),
        header_size: AtomicU32::new(0),
        capacity: AtomicU64::new(0),
        sample_rate: AtomicU32::new(0),
        channels: AtomicU32::new(0),
        format: AtomicU32::new(0),
        frame_bytes: AtomicU32::new(0),
        tail: AtomicU64::new(0),
        seq: AtomicU64::new(0),
        head: AtomicU64::new(0),
        payload: (0..payload).map(|_| AtomicU8::new(0)).collect(),
    }
}

fn mapping(r: &Region) -> AudioMapping<'_> {
    let header = ShmHeader {
        magic: Cell64::new(&r.magic, MAGIC_OFFSET),
        version: Cell32::new(&r.version, VERSION_OFFSET),
        header_size: Cell32::new(&r.header_size, HEADER_SIZE_OFFSET),
        capacity: Cell64::new(&r.capacity, CAPACITY_OFFSET),
        sample_rate: Cell32::new(&r.sample_rate, SAMPLE_RATE_OFFSET),
        channels: Cell32::new(&r.channels, CHANNELS_OFFSET),
        format: Cell32::new(&r.format, FORMAT_OFFSET),
        frame_bytes: Cell32::new(&r.frame_bytes, FRAME_BYTES_OFFSET),
        tail: Cell64::new(&r.tail, TAIL_OFFSET),
        seq: Cell64::new(&r.seq, SEQ_OFFSET),
        head: Cell64::new(&r.head, HEAD_OFFSET),
    };
    AudioMapping::new(header, ByteCells::new(&r.payload, SHM_HEADER_SIZE))
}

fn fresh(r: &Region) -> ShmAudioBuffer<'_> {
    ShmAudioBuffer::init(mapping(r), CAP)
}

fn fmt() -> AudioFormat {
    AudioFormat {
        sample_rate: 48_000,
        channels: 2,
        format: SampleFormat::S16Le,
        frame_bytes: 4,
    }
}

fn read(buf: &mut ShmAudioBuffer<'_>, out: &mut [u8], max_latency_bytes: u64) -> usize {
    buf.read_quantum(out, max_latency_bytes, ATTEMPTS)
        .expect("nobody writes meanwhile")
}

#[test]
fn header_layout_is_frozen() {
    assert_eq!(SHM_HEADER_SIZE, 192);
    assert_eq!(SHM_HEADER_ALIGN, 64);
}

#[test]
fn header_fields_lie_at_their_offsets() {
    let offsets = [
        MAGIC_OFFSET,
        VERSION_OFFSET,
        HEADER_SIZE_OFFSET,
        CAPACITY_OFFSET,
        SAMPLE_RATE_OFFSET,
        CHANNELS_OFFSET,
        FORMAT_OFFSET,
        FRAME_BYTES_OFFSET,
        TAIL_OFFSET,
        SEQ_OFFSET,
        HEAD_OFFSET,
    ];
    assert_eq!(offsets, [0, 8, 12, 16, 24, 28, 32, 36, 64, 72, 128]);
}

#[test]
fn format_gate_unset_until_published() {
    let r = region(CAP);
    let mut buf = fresh(&r);
    assert!(buf.format().is_none(), "format must be unset after init");
    buf.set_format(fmt());
    let f = buf.format().expect("format published");
    assert_eq!(f.sample_rate, 48_000);
    assert_eq!(f.channels, 2);
    assert_eq!(f.frame_bytes, 4);
    assert_eq!(f.format, SampleFormat::S16Le);
}

#[test]
fn attach_validates_magic_and_capacity() {
    let r = region(CAP);
    let _buf = fresh(&r);
    assert!(ShmAudioBuffer::attach(mapping(&r)).is_ok());

    let bad = region(CAP);
    assert!(ShmAudioBuffer::attach(mapping(&bad)).is_err());
}

#[test]
fn push_then_read_roundtrips() {
    let r = region(CAP);
    let mut buf = fresh(&r);
    buf.set_format(fmt());
    let data: Vec<u8> = (0..16).collect();
    buf.push_overwrite(&data);

    let mut out = [0u8; 16];
    let n = read(&mut buf, &mut out, 1 << 20);
    assert_eq!(n, 16);
    assert_eq!(&out, data.as_slice());

    // Nothing new -> read returns 0 and zero-fills.
    let mut out2 = [0xAAu8; 16];
    let n2 = read(&mut buf, &mut out2, 1 << 20);
    assert_eq!(n2, 0);
    assert!(out2.iter().all(|&b| b == 0), "remainder must be silence");
}

#[test]
fn read_is_frame_aligned() {
    let r = region(CAP);
    let mut buf = fresh(&r);
    buf.set_format(fmt()); // frame_bytes = 4
    buf.push_overwrite(&[1, 2, 3, 4, 5, 6, 7, 8, 9, 10]); // 10 bytes = 2.5 frames

    // out holds 3 bytes (< 1 frame): nothing whole can be delivered.
    let mut tiny = [0u8; 3];
    assert_eq!(read(&mut buf, &mut tiny, 1 << 20), 0);

    // out holds 7 bytes -> only 4 (one frame) delivered.
    let mut seven = [0u8; 7];
    let n = read(&mut buf, &mut seven, 1 << 20);
    assert_eq!(n, 4);
    assert_eq!(&seven[..4], &[1, 2, 3, 4]);
}

#[test]
fn wraps_around_ring_boundary() {
    let r = region(CAP);
    let mut buf = fresh(&r);
    buf.set_format(fmt());
    // Advance tail near the end so the next write straddles the boundary.
    let filler = vec![0u8; CAP - 8];
    buf.push_overwrite(&filler);
    let mut drain = vec![0u8; CAP - 8];
    assert_eq!(read(&mut buf, &mut drain, 1 << 24), CAP - 8);

    // This 16-byte write wraps: 8 bytes at the tail, 8 at the front.
    let payload: Vec<u8> = (100..116).collect();
    buf.push_overwrite(&payload);
    let mut out = [0u8; 16];
    let n = read(&mut buf, &mut out, 1 << 24);
    assert_eq!(n, 16);
    assert_eq!(&out, payload.as_slice());
    assert_eq!(r.payload[CAP - 1].load(Ordering::Relaxed), 107);
    assert_eq!(r.payload[0].load(Ordering::Relaxed), 108);
}

#[test]
fn bounded_latency_drops_oldest() {
    let r = region(CAP);
    let mut buf = fresh(&r);
    buf.set_format(fmt()); // frame_bytes = 4

    // Write 256 bytes (64 frames) but only allow ~16 bytes of backlog.
    let data: Vec<u8> = (0..=255).collect();
    buf.push_overwrite(&data);

    let mut out = [0u8; 64];
    let budget = 16u64; // 4 frames
    let n = read(&mut buf, &mut out, budget);
    // Head jumps to tail-16, so we get the newest 16 bytes only.
    assert_eq!(n, 16);
    assert_eq!(&out[..16], &data[240..256]);
}

#[test]
fn oversized_push_keeps_newest() {
    let r = region(CAP);
    let mut buf = fresh(&r);
    buf.set_format(fmt());
    // 2*CAP bytes; only the newest CAP can survive in the ring.
    let data: Vec<u8> = (0..(2 * CAP)).map(|i| (i & 0xff) as u8).collect();
    buf.push_overwrite(&data);
    let mut out = vec![0u8; CAP];
    let n = read(&mut buf, &mut out, (4 * CAP) as u64);
    assert_eq!(n, CAP);
    assert_eq!(&out[..], &data[CAP..]);
}

#[test]
fn two_handles_share_state() {
    let cap = 4096usize;
    let r = region(cap);
    let mut host = ShmAudioBuffer::init(mapping(&r), cap);
    let mut guest =
        ShmAudioBuffer::attach(mapping(&r)).ok().expect("guest must attach to the host-initialized region");
    assert!(host.format().is_none());

    guest.set_format(fmt());
    let seen = host.format().expect("host sees the guest's format");
    assert_eq!(seen.sample_rate, 48_000);
    assert_eq!(seen.frame_bytes, 4);
    assert_eq!(seen.format, SampleFormat::S16Le);

    let payload: Vec<u8> = (0..64).map(|i| (i * 3) as u8).collect();
    guest.push_overwrite(&payload);
    let mut out = vec![0u8; 64];
    let n = read(&mut host, &mut out, 1 << 20);
    assert_eq!(n, 64, "host must read all 64 bytes the guest wrote");
    assert_eq!(out, payload, "payload must survive the round-trip");
}

#[test]
fn init_publishes_the_header() {
    let r = region(CAP);
    r.frame_bytes.store(9, Ordering::Relaxed);
    r.tail.store(77, Ordering::Relaxed);
    r.head.store(7, Ordering::Relaxed);
    r.seq.store(5, Ordering::Relaxed);
    let mut buf = fresh(&r);
    assert_eq!(r.magic.load(Ordering::Relaxed), SHM_MAGIC);
    assert_eq!(r.magic.load(Ordering::Relaxed), 0x4C41_4C41_4853_4D31);
    assert_eq!(r.version.load(Ordering::Relaxed), 1);
    assert_eq!(r.header_size.load(Ordering::Relaxed), 192);
    assert_eq!(r.capacity.load(Ordering::Relaxed), 1024);
    assert_eq!(r.frame_bytes.load(Ordering::Relaxed), 0);
    assert_eq!(r.seq.load(Ordering::Relaxed), 0);
    assert_eq!(buf.pointers(), (0, 0));
    assert_eq!(buf.capacity(), 1024);
}

#[test]
fn attach_names_what_is_wrong() {
    let empty = region(0);
    assert_eq!(
        ShmAudioBuffer::attach(mapping(&empty)).err().map(|u| u.fault),
        Some("region smaller than header")
    );

    let r = region(CAP);
    assert_eq!(
        ShmAudioBuffer::attach(mapping(&r)).err().map(|u| u.fault),
        Some("bad magic (region not initialized yet)")
    );
    r.magic.store(SHM_MAGIC, Ordering::Relaxed);
    assert_eq!(ShmAudioBuffer::attach(mapping(&r)).err().map(|u| u.fault), Some("version mismatch"));
    r.version.store(SHM_VERSION, Ordering::Relaxed);
    assert_eq!(
        ShmAudioBuffer::attach(mapping(&r)).err().map(|u| u.fault),
        Some("ABI/header_size mismatch")
    );
    r.header_size.store(192, Ordering::Relaxed);
    // 0 is no power of two, 1000 neither, and 2048 does not fit.
    for capacity in [0u64, 1000, 2048] {
        r.capacity.store(capacity, Ordering::Relaxed);
        assert_eq!(ShmAudioBuffer::attach(mapping(&r)).err().map(|u| u.fault), Some("bad capacity"));
    }
    r.capacity.store(512, Ordering::Relaxed);
    assert_eq!(
        ShmAudioBuffer::attach(mapping(&r)).ok().map(|b| b.capacity()),
        Some(512)
    );
}

#[test]
fn unknown_sample_format_is_no_format() {
    let r = region(CAP);
    let mut buf = fresh(&r);
    buf.set_format(fmt());
    r.format.store(3, Ordering::Relaxed);
    assert!(buf.format().is_none());
}

#[test]
fn counters_follow_pushes_and_reads() {
    let r = region(CAP);
    let mut buf = fresh(&r);
    buf.set_format(fmt());
    buf.push_overwrite(&[]);
    assert_eq!(r.seq.load(Ordering::Relaxed), 0, "an empty push touches nothing");
    buf.push_overwrite(&[1; 10]);
    assert_eq!(r.seq.load(Ordering::Relaxed), 2);
    assert_eq!(buf.pointers(), (0, 10));
    let mut out = [9u8; 16];
    assert_eq!(read(&mut buf, &mut out, 1 << 20), 8);
    assert_eq!(&out[..8], &[1; 8]);
    assert_eq!(&out[8..], &[0; 8]);
    assert_eq!(buf.pointers(), (8, 10));
}

#[test]
fn read_gives_way_to_a_busy_producer() {
    let r = region(CAP);
    let mut buf = fresh(&r);
    buf.set_format(fmt());
    buf.push_overwrite(&[1; 8]);
    // The producer is inside a push.
    r.seq.store(3, Ordering::Relaxed);
    let mut out = [7u8; 8];
    assert_eq!(buf.read_quantum(&mut out, 1 << 20, ATTEMPTS), None);
    assert_eq!(out, [0; 8], "there is silence");
    assert_eq!(buf.pointers(), (0, 8), "nothing was consumed");
    r.seq.store(4, Ordering::Relaxed);
    assert_eq!(read(&mut buf, &mut out, 1 << 20), 8);
}

#[test]
fn read_without_attempts_reads_nothing() {
    let r = region(CAP);
    let mut buf = fresh(&r);
    let mut out = [7u8; 8];
    assert_eq!(buf.read_quantum(&mut out, 1 << 20, 0), None);
    assert_eq!(out, [0; 8]);
}

#[test]
fn unset_format_reads_single_bytes() {
    let r = region(CAP);
    let mut buf = fresh(&r);
    buf.push_overwrite(&[1, 2, 3]);
    let mut out = [9u8; 5];
    assert_eq!(read(&mut buf, &mut out, 1 << 20), 3);
    assert_eq!(out, [1, 2, 3, 0, 0]);
}

#[test]
fn streams_of_pushes_read_back_in_order() {
    let r = region(CAP);
    let mut buf = fresh(&r);
    buf.set_format(fmt());
    let mut sent: Vec<u8> = Vec::new();
    let mut got: Vec<u8> = Vec::new();
    for k in 0..200usize {
        let chunk: Vec<u8> = (0..(k % 37) * 4).map(|i| (i * 7 + k) as u8).collect();
        buf.push_overwrite(&chunk);
        sent.extend_from_slice(&chunk);
        let mut out = vec![0u8; 256];
        let n = read(&mut buf, &mut out, 1 << 20);
        got.extend_from_slice(&out[..n]);
    }
    assert_eq!(got, sent);
}

#[test]
fn a_cycle_fills_whole_frames_and_plays_on() {
    let r = region(CAP);
    let mut buf = fresh(&r);
    buf.set_format(fmt());
    buf.push_overwrite(&[1, 2, 3, 4, 5, 6, 7, 8]);
    let mut buffer = [9u8; 15];
    let played = play_cycle(&mut buf, &mut buffer, 4, 1 << 20, ATTEMPTS);
    assert_eq!((played.size, played.live), (12, 8));
    assert_eq!((played.head, played.tail), (0, 8));
    assert_eq!(buffer, [1, 2, 3, 4, 5, 6, 7, 8, 0, 0, 0, 0, 9, 9, 9]);
    let played = play_cycle(&mut buf, &mut buffer, 4, 1 << 20, ATTEMPTS);
    assert_eq!((played.size, played.live, played.head), (12, 0, 8));
    r.seq.store(1, Ordering::Relaxed);
    let mut buffer = [9u8; 15];
    let played = play_cycle(&mut buf, &mut buffer, 4, 1 << 20, ATTEMPTS);
    assert_eq!((played.size, played.live, played.missed), (12, 0, true));
    assert_eq!(buffer, [0, 0, 0, 0, 0, 0, 0, 0, 0, 0, 0, 0, 9, 9, 9]);
}

#[test]
fn plans_keep_to_frames_and_budget() {
    let p = plan_read(100, 0, 1024, 8, 64, 40);
    assert_eq!((p.from, p.want), (60, 40));
    let p = plan_read(100, 0, 1024, 8, 64, 43);
    assert_eq!((p.from, p.want), (60, 40));
    let p = plan_read(100, 80, 1024, 8, 64, 40);
    assert_eq!((p.from, p.want), (80, 16));
    // The ring holds less than the budget allows.
    let p = plan_read(100, 0, 32, 8, 64, 40);
    assert_eq!((p.from, p.want), (68, 32));
    let p = plan_read(100, 0, 4, 8, 64, 40);
    assert_eq!((p.from, p.want), (100, 0));
}

#[test]
fn a_full_ring_within_the_budget_loses_nothing() {
    // 1024 bytes are no whole number of 12-byte frames, but none of them is lost.
    let p = plan_read(1024, 0, 1024, 12, 1024, 4096);
    assert_eq!((p.from, p.want), (0, 1020));
    let p = plan_read(1025, 0, 1024, 12, 1024, 4096);
    assert_eq!((p.from, p.want), (5, 1020));

    let r = region(CAP);
    let mut buf = fresh(&r);
    let mut odd = fmt();
    odd.frame_bytes = 12;
    buf.set_format(odd);
    let data: Vec<u8> = (0..CAP).map(|i| (i % 251) as u8).collect();
    buf.push_overwrite(&data);
    let mut out = [9u8; 1024];
    assert_eq!(buf.read_quantum(&mut out, 4096, 1), Some(1020));
    assert_eq!(&out[..1020], &data[..1020]);
    assert_eq!(&out[1020..], &[0; 4][..]);
    assert_eq!(buf.pointers(), (1020, 1024));

    // The rest of the frame comes with the next push.
    buf.push_overwrite(&[7u8; 8]);
    let mut out = [9u8; 12];
    assert_eq!(buf.read_quantum(&mut out, 4096, 1), Some(12));
    assert_eq!(&out[..4], &data[1020..]);
    assert_eq!(&out[4..], &[7; 8][..]);
    assert_eq!(buf.pointers(), (1032, 1032));
}

#[test]
fn a_refused_mapping_can_be_tried_again() {
    let r = region(CAP);
    let refused = ShmAudioBuffer::attach(mapping(&r)).err().expect("nothing is initialized");
    assert_eq!(refused.fault, "bad magic (region not initialized yet)");
    let mut host = fresh(&r);
    let mut guest = ShmAudioBuffer::attach(refused.shm).ok().expect("the host is there now");
    guest.push_overwrite(&[5; 3]);
    assert_eq!(host.pointers(), (0, 3));
}

#[test]
fn a_late_read_gets_what_the_ring_still_holds() {
    let r = region(CAP);
    let mut buf = fresh(&r);
    buf.set_format(fmt());
    buf.push_overwrite(&[1u8; 1024]);
    buf.push_overwrite(&[2u8; 1024]);
    let mut out = [0u8; 1024];
    let n = buf.read_quantum(&mut out, 4096, 1).expect("one attempt is enough");
    assert_eq!(n, 1024);
    assert!(out.iter().all(|&b| b == 2));
    assert_eq!(buf.pointers(), (2048, 2048));

    // A frame of 12 bytes: 1020 bytes are the most whole frames that fit the ring.
    let mut odd = fmt();
    odd.frame_bytes = 12;
    buf.set_format(odd);
    buf.push_overwrite(&[3u8; 1024]);
    buf.push_overwrite(&[4u8; 512]);
    let mut out = [9u8; 1030];
    assert_eq!(buf.read_quantum(&mut out, 1 << 20, 1), Some(1020));
    assert_eq!(&out[..508], &[3; 508][..]);
    assert_eq!(&out[508..1020], &[4; 512][..]);
    assert_eq!(&out[1020..], &[0; 10]);
}

#[test]
fn reads_are_checked_after_the_copy() {
    assert!(read_is_intact(2, 2, 100, 60, 64));
    assert!(!read_is_intact(2, 4, 100, 60, 64), "the producer wrote meanwhile");
    assert!(!read_is_intact(2, 2, 125, 60, 64), "the producer lapped the reader");
}
