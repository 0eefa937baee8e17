//! The host's command line, its region, its playback and its video forwarding.

use lalah::format::{AudioFormat, SampleFormat};
use lalah::forward::{
    fifo_is_there, frame_fits, settled_pipe_size, write_outcome, ForwardEvent, ForwardStep,
    Forwarder, Notice, WriteOutcome, FILE_EXISTS, NO_READER,
};
use lalah::host::{
    channel_position, latency_budget, node_latency, plan_region, playback_start, playback_window,
    HostStart, Position, SlipCounter,
};
use lalah::host_args::{parse_args, HostArgs};

fn host(words: &[&str]) -> Result<HostArgs, Option<String>> {
    let args: Vec<String> = words.iter().map(|s| s.to_string()).collect();
    parse_args(&args).map_err(|e| e.message())
}

#[test]
fn host_defaults_are_documented_ones() {
    let a = host(&[]).ok().unwrap();
    assert_eq!(a.shm_path, "/dev/shm/lalah");
    assert_eq!(a.latency_ms, 20);
    assert_eq!(a.quantum, 256);
    assert_eq!(a.video_fifo, None);
    assert_eq!(a.video_read_delay_us, 500);
    assert_eq!(a.video_pipe_size, 4_194_304);
}

#[test]
fn host_options() {
    let a = host(&[
        "--shm", "/dev/shm/x", "--latency-ms", "10", "--quantum", "64", "--video-fifo", "/tmp/v",
        "--video-read-delay-us", "0", "--video-pipe-size", "8388608", "--latency-ms", "+5",
    ])
    .ok()
    .unwrap();
    assert_eq!(a.shm_path, "/dev/shm/x");
    assert_eq!(a.latency_ms, 5, "the last one counts");
    assert_eq!(a.quantum, 64);
    assert_eq!(a.video_fifo.as_deref(), Some("/tmp/v"));
    assert_eq!(a.video_read_delay_us, 0);
    assert_eq!(a.video_pipe_size, 8_388_608);
}

#[test]
fn host_refusals() {
    for words in [
        &["--shm"][..],
        &["--quantum", "0"],
        &["--quantum", "-1"],
        &["--quantum", "x"],
        &["--latency-ms", "4294967296"],
        &["--latency-ms"],
        &["--video-pipe-size", "18446744073709551616"],
        &["--video-read-delay-us", ""],
        &["-h"],
        &["--help"],
        &["--shm", "a", "-h"],
    ] {
        assert_eq!(host(words).err(), Some(None), "{words:?}");
    }
    assert_eq!(host(&["shm"]).err(), Some(Some("unknown argument: shm".to_string())));
    assert_eq!(host(&["--latency-ms", "0"]).ok().map(|a| a.latency_ms), Some(0));
}

#[test]
fn regions_are_divided() {
    let mib = 1024 * 1024;
    let p = plan_region(2 * mib, false).unwrap();
    assert_eq!((p.audio_len, p.capacity, p.video), (2 * mib, mib, None));
    let p = plan_region(2 * mib, true).unwrap();
    assert_eq!((p.audio_len, p.capacity, p.video), (2 * mib, mib, None));
    // No room for a video header and anything behind it.
    let p = plan_region(16 * mib + 128, true).unwrap();
    assert_eq!((p.audio_len, p.capacity, p.video), (16 * mib + 128, 8 * mib, None));
    let p = plan_region(16 * mib + 129, true).unwrap();
    assert_eq!((p.audio_len, p.capacity, p.video), (16 * mib, 8 * mib, Some((16 * mib, 129))));
    let p = plan_region(64 * mib, true).unwrap();
    assert_eq!(
        (p.audio_len, p.capacity, p.video),
        (16 * mib, 8 * mib, Some((16 * mib, 48 * mib)))
    );
    let p = plan_region(64 * mib, false).unwrap();
    assert_eq!((p.audio_len, p.capacity, p.video), (64 * mib, 32 * mib, None));
    let p = plan_region(193, false).unwrap();
    assert_eq!(p.capacity, 1);
    assert_eq!(
        plan_region(192, false).err(),
        Some("shm region 192 B too small for header 192 B".to_string())
    );
    assert_eq!(
        plan_region(0, true).err(),
        Some("shm region 0 B too small for header 192 B".to_string())
    );
}

#[test]
fn latency_budgets() {
    assert_eq!(latency_budget(20, 48_000, 4), Some(3840));
    assert_eq!(latency_budget(0, 48_000, 4), Some(0));
    assert_eq!(latency_budget(1, 44_100, 2), Some(88));
    assert_eq!(latency_budget(u32::MAX, u32::MAX, u32::MAX), None);
    assert_eq!(latency_budget(u32::MAX, u32::MAX, 1), Some(18_446_744_065_119_617));
}

#[test]
fn playback_waits_for_a_format() {
    let f = AudioFormat {
        sample_rate: 48_000,
        channels: 2,
        format: SampleFormat::S16Le,
        frame_bytes: 4,
    };
    assert_eq!(playback_start(None, 20), HostStart::Wait);
    assert_eq!(playback_start(Some(f), 20), HostStart::Play(f, 3840));
    let odd = AudioFormat { sample_rate: u32::MAX, frame_bytes: u32::MAX, ..f };
    assert_eq!(playback_start(Some(odd), u32::MAX), HostStart::BudgetTooLarge);
}

#[test]
fn playback_is_told_what_it_needs() {
    assert_eq!(playback_window(1026, 4), 1024);
    assert_eq!(playback_window(3, 4), 0);
    assert_eq!(node_latency(256, 48_000), "256/48000");
    assert_eq!(channel_position(0, 1), Position::FrontLeft);
    assert_eq!(channel_position(1, 1), Position::Unknown);
    assert_eq!(channel_position(1, 2), Position::FrontRight);
    assert_eq!(channel_position(2, 8), Position::Unknown);
    assert_eq!(channel_position(0, 0), Position::Unknown);
}

#[test]
fn slips_are_counted_and_reported() {
    let mut c = SlipCounter::new();
    assert_eq!(c.report(), None);
    c.note(0, 100, 1000, 64, 64);
    assert_eq!(c.report(), None);
    c.note(0, 2000, 1000, 64, 64);
    c.note(2000, 2000, 1000, 0, 64);
    c.note(u64::MAX, 9, 1000, 60, 64);
    // A head beyond the tail: nothing waits.
    c.note(10, 9, 1000, 64, 64);
    assert_eq!(
        c.report().as_deref(),
        Some("Underflows (Producer/VM slow): 2 / Overflows (Consumer/Host slow): 1")
    );
    assert_eq!(c.report(), None);
}

// The pipe.

#[test]
fn pipe_errors_are_those_of_the_system() {
    assert_eq!(NO_READER, libc::EPIPE);
    assert_eq!(FILE_EXISTS, libc::EEXIST);
}

#[test]
fn frames_are_written_whole_or_dropped() {
    assert!(frame_fits(65_536, Some(0), 65_536));
    assert!(!frame_fits(65_536, Some(1), 65_536));
    assert!(!frame_fits(10, Some(20), 0), "more is queued than fits");
    assert!(frame_fits(65_536, None, 1 << 30), "the write decides");
    assert!(frame_fits(-1, Some(0), 1 << 30), "the write decides");
    assert!(frame_fits(0, Some(0), 1));

    assert_eq!(write_outcome(100, 100, None), WriteOutcome::Wrote);
    assert_eq!(write_outcome(0, 0, None), WriteOutcome::Wrote);
    assert_eq!(write_outcome(60, 100, None), WriteOutcome::Partial(60));
    assert_eq!(write_outcome(0, 100, None), WriteOutcome::Dropped);
    assert_eq!(write_outcome(-1, 100, Some(libc::EPIPE)), WriteOutcome::ReaderGone);
    assert_eq!(write_outcome(-1, 100, Some(libc::EAGAIN)), WriteOutcome::Dropped);
    assert_eq!(write_outcome(-1, 100, None), WriteOutcome::Dropped);
    assert_eq!(write_outcome(60, 100, Some(libc::EPIPE)), WriteOutcome::Partial(60));
}

#[test]
fn pipes_are_made_and_sized() {
    assert!(fifo_is_there(true, None));
    assert!(fifo_is_there(false, Some(libc::EEXIST)));
    assert!(!fifo_is_there(false, Some(libc::EACCES)));
    assert!(!fifo_is_there(false, None));
    assert_eq!(settled_pipe_size(4_194_304, 65_536), 4_194_304);
    assert_eq!(settled_pipe_size(-1, 65_536), 65_536);
    assert_eq!(settled_pipe_size(-1, -1), 0);
}

fn forwarder() -> Forwarder {
    Forwarder::new(4_147_200, 4_194_304, 500, 0)
}

fn connect(f: &mut Forwarder, actual: usize) -> Option<Notice> {
    assert_eq!(f.step, ForwardStep::OpenPipe);
    assert_eq!(f.advance(ForwardEvent::Opened(true)), None);
    assert_eq!(f.step, ForwardStep::SizePipe);
    f.advance(ForwardEvent::Sized(actual))
}

fn one_frame(f: &mut Forwarder, count: u64, outcome: WriteOutcome) -> Option<Notice> {
    assert_eq!(f.step, ForwardStep::Poll);
    f.advance(ForwardEvent::Count(count));
    assert_eq!((f.step, f.pause_us()), (ForwardStep::Stagger, 500));
    f.advance(ForwardEvent::Done);
    assert_eq!(f.step, ForwardStep::ReadFrame);
    f.advance(ForwardEvent::Read(true));
    assert_eq!(f.step, ForwardStep::NoteFrame);
    f.advance(ForwardEvent::Count(count));
    assert_eq!(f.step, ForwardStep::WriteFrame);
    f.advance(ForwardEvent::Wrote(outcome))
}

#[test]
fn forwarding_retries_until_a_reader_comes() {
    let mut f = forwarder();
    f.advance(ForwardEvent::Opened(false));
    assert_eq!(f.step, ForwardStep::SkipFrames);
    f.advance(ForwardEvent::Count(7));
    assert_eq!((f.step, f.pause_us()), (ForwardStep::WaitForReader, 100_000));
    f.advance(ForwardEvent::Done);
    assert_eq!(connect(&mut f, 4_194_304), Some(Notice::Connected(4_194_304)));
    // The frames up to the seventh are stale.
    f.advance(ForwardEvent::Count(7));
    assert_eq!((f.step, f.pause_us()), (ForwardStep::WaitForFrame, 500));
    f.advance(ForwardEvent::Done);
    assert_eq!(one_frame(&mut f, 8, WriteOutcome::Wrote), None);
    assert_eq!(f.step, ForwardStep::Poll);
}

#[test]
fn a_small_pipe_is_reported_once() {
    let mut f = forwarder();
    assert_eq!(connect(&mut f, 65_536), Some(Notice::TooSmall(65_536, 4_194_304)));
    assert_eq!(one_frame(&mut f, 1, WriteOutcome::ReaderGone), None);
    assert_eq!(f.step, ForwardStep::ClosePipe);
    assert_eq!(f.advance(ForwardEvent::Done), Some(Notice::Disconnected));
    assert_eq!(connect(&mut f, 65_536), Some(Notice::Connected(65_536)));
    let mut large = Forwarder::new(100, 1 << 23, 0, 0);
    assert_eq!(connect(&mut large, 50), Some(Notice::TooSmall(50, 1 << 23)));
}

#[test]
fn drops_are_reported_now_and_then() {
    let mut f = forwarder();
    connect(&mut f, 4_194_304);
    let mut reported = Vec::new();
    for k in 1..=250u64 {
        if let Some(n) = one_frame(&mut f, k, WriteOutcome::Dropped) {
            reported.push(n);
        }
    }
    assert_eq!(
        reported,
        vec![Notice::Dropped(1), Notice::Dropped(120), Notice::Dropped(240)]
    );
    assert_eq!(f.dropped, 250);
}

#[test]
fn a_frame_that_went_out_in_part_is_finished() {
    let mut f = forwarder();
    connect(&mut f, 4_194_304);
    assert_eq!(one_frame(&mut f, 1, WriteOutcome::Partial(1000)), None);
    assert_eq!((f.step, f.written), (ForwardStep::FinishFrame, 1000));
    // The pipe is full.
    f.advance(ForwardEvent::Wrote(WriteOutcome::Dropped));
    assert_eq!((f.step, f.pause_us()), (ForwardStep::WaitForRoom, 500));
    f.advance(ForwardEvent::Done);
    f.advance(ForwardEvent::Wrote(WriteOutcome::Partial(200)));
    assert_eq!((f.step, f.written), (ForwardStep::FinishFrame, 1200));
    f.advance(ForwardEvent::Wrote(WriteOutcome::Wrote));
    assert_eq!((f.step, f.written, f.dropped), (ForwardStep::Poll, 0, 0));
    assert!(f.open);

    one_frame(&mut f, 2, WriteOutcome::Partial(5));
    f.advance(ForwardEvent::Wrote(WriteOutcome::ReaderGone));
    assert_eq!((f.step, f.written), (ForwardStep::ClosePipe, 0));
}

#[test]
fn torn_frames_are_passed_over() {
    let mut f = Forwarder::new(64, 64, 0, 0);
    connect(&mut f, 64);
    f.advance(ForwardEvent::Count(3));
    assert_eq!(f.step, ForwardStep::ReadFrame, "without a delay nothing is staggered");
    f.advance(ForwardEvent::Read(false));
    assert_eq!((f.step, f.last_count), (ForwardStep::Poll, 3));
}

#[test]
fn events_out_of_turn_change_nothing() {
    let mut f = forwarder();
    let before = f;
    assert_eq!(f.advance(ForwardEvent::Wrote(WriteOutcome::Dropped)), None);
    assert_eq!(f, before);
}
