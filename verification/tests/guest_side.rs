//! The guest's sequences of calls, its command line and its choice of devices.

use std::sync::atomic::{AtomicU32, AtomicU64, AtomicU8};

use lalah::audio::{AudioMapping, ShmAudioBuffer, ShmHeader};
use lalah::capture::{
    candidate, candidate_wave, classify_packet, push_silence, CaptureStep, ExclusiveCapture,
    Packet, PacketStream, StreamEvent, StreamStep, BUFFER_SIZE_NOT_ALIGNED, CANDIDATES, S_OK,
    UNSUPPORTED_FORMAT, WAIT_SIGNALLED,
};
use lalah::devices::{friendly_name, name_passes, DeviceSearch};
use lalah::dshow::{
    delivered, outcome_code, GraphSetup, GraphStep, Renderer, GRAPH_FAILURE, GRAPH_OK,
};
use lalah::format::SampleFormat;
use lalah::guest::{GuestRun, GuestStage};
use lalah::ivshmem::{
    ctl_code, parse_mmap_reply, MapStep, RegionMap, FILE_ANY_ACCESS, FILE_DEVICE_UNKNOWN,
    IOCTL_IVSHMEM_REQUEST_MMAP, IOCTL_IVSHMEM_REQUEST_SIZE, METHOD_BUFFERED,
};
use lalah::keepalive::{
    after_poll, open_failure, start_outcome, KeepAliveAction, KeepAliveGraph, KeepAliveStep,
    EVENT_COMPLETE, EVENT_ERROR_ABORT, EVENT_USER_ABORT, NOTHING_THERE,
};
use lalah::layout::{
    CAPACITY_OFFSET, CHANNELS_OFFSET, FORMAT_OFFSET, FRAME_BYTES_OFFSET, HEADER_SIZE_OFFSET,
    HEAD_OFFSET, MAGIC_OFFSET, SAMPLE_RATE_OFFSET, SEQ_OFFSET, SHM_HEADER_SIZE, TAIL_OFFSET,
    VERSION_OFFSET,
};
use lalah::memory::{ByteCells, Cell32, Cell64};
use lalah::videoinfo::{FORMAT_VIDEO_INFO, VIDEO_INFO_HEADER_SIZE};
use lalah::vm_args::{parse_args, CapturePlan, VmArgs};
use lalah::wave::{
    FORMAT_WAVE_FORMAT_EX, SUBTYPE_IEEE_FLOAT_BYTES, WAVE_FORMAT_EXTENSIBLE_SIZE,
    WAVE_FORMAT_EXTENSIBLE_TAG, WAVE_FORMAT_EX_SIZE, WAVE_FORMAT_IEEE_FLOAT_TAG,
    WAVE_FORMAT_PCM_TAG,
};
use windows_core::GUID;

/// The codes and events of the system's headers.
const E_FAIL: i32 = 0x8000_4005u32 as i32;
const EC_COMPLETE: u32 = 1;
const EC_USERABORT: u32 = 2;
const EC_ERRORABORT: u32 = 3;
const E_OTHER: i32 = -1;

#[test]
fn numbers_are_those_of_the_system() {
    assert_eq!(UNSUPPORTED_FORMAT as u32, 0x8889_0008);
    assert_eq!(BUFFER_SIZE_NOT_ALIGNED as u32, 0x8889_0019);
    assert_eq!(GRAPH_FAILURE, E_FAIL);
    assert_eq!(NOTHING_THERE, 1);
    assert_eq!(WAIT_SIGNALLED, 0);
    assert_eq!(EVENT_COMPLETE, EC_COMPLETE);
    assert_eq!(EVENT_ERROR_ABORT, EC_ERRORABORT);
    assert_eq!(EVENT_USER_ABORT, EC_USERABORT);
    assert_eq!(WAVE_FORMAT_PCM_TAG, 1);
    assert_eq!(WAVE_FORMAT_IEEE_FLOAT_TAG, 3);
    assert_eq!(WAVE_FORMAT_EXTENSIBLE_TAG, 65_534);
    assert_eq!(WAVE_FORMAT_EX_SIZE, 18);
    assert_eq!(WAVE_FORMAT_EXTENSIBLE_SIZE, 40);
    assert_eq!(VIDEO_INFO_HEADER_SIZE, 88);
    assert_eq!(
        GUID::from_u128(FORMAT_WAVE_FORMAT_EX),
        GUID::try_from("05589f81-c356-11ce-bf01-00aa0055595a").unwrap()
    );
    assert_eq!(
        GUID::from_u128(FORMAT_VIDEO_INFO),
        GUID::try_from("05589f80-c356-11ce-bf01-00aa0055595a").unwrap()
    );
    let g = GUID::try_from("00000003-0000-0010-8000-00aa00389b71").unwrap();
    let mut memory = Vec::new();
    memory.extend_from_slice(&g.data1.to_le_bytes());
    memory.extend_from_slice(&g.data2.to_le_bytes());
    memory.extend_from_slice(&g.data3.to_le_bytes());
    memory.extend_from_slice(&g.data4);
    assert_eq!(memory, SUBTYPE_IEEE_FLOAT_BYTES);
}

// Exclusive capture.

fn at_first_probe() -> ExclusiveCapture {
    let mut c = ExclusiveCapture::new();
    for step in [
        CaptureStep::InitCom,
        CaptureStep::OpenEnumerator,
        CaptureStep::OpenDevice,
        CaptureStep::Activate,
        CaptureStep::QueryPeriod,
    ] {
        assert_eq!(c.step, step);
        c.advance(S_OK);
    }
    assert_eq!(c.step, CaptureStep::Probe(0));
    c
}

#[test]
fn candidates_are_listed_best_first() {
    let listed: Vec<(u32, u16, u16, bool, bool)> = (0..CANDIDATES)
        .map(candidate)
        .map(|c| (c.rate, c.channels, c.bits, c.is_float, c.extensible))
        .collect();
    assert_eq!(
        listed,
        vec![
            (48_000, 2, 16, false, false),
            (48_000, 2, 16, false, true),
            (44_100, 2, 16, false, false),
            (44_100, 2, 16, false, true),
            (48_000, 1, 16, false, false),
            (48_000, 1, 16, false, true),
            (48_000, 2, 32, false, false),
            (48_000, 2, 32, false, true),
            (48_000, 2, 32, true, false),
            (48_000, 2, 32, true, true),
        ]
    );
    assert_eq!(candidate_wave(0).avg_bytes_per_sec, 192_000);
    assert_eq!(candidate_wave(9).tag, 0xFFFE);
}

#[test]
fn capture_goes_through_all_its_calls() {
    let mut c = at_first_probe();
    // A close match is no match.
    c.advance(1);
    assert_eq!(c.step, CaptureStep::Probe(1));
    c.advance(UNSUPPORTED_FORMAT);
    c.advance(S_OK);
    assert_eq!((c.step, c.chosen), (CaptureStep::Initialize, Some(2)));
    let f = c.format().unwrap();
    assert_eq!((f.sample_rate, f.channels, f.frame_bytes), (44_100, 2, 4));
    assert_eq!(f.format, SampleFormat::S16Le);
    for step in [
        CaptureStep::Initialize,
        CaptureStep::CreateEvent,
        CaptureStep::SetEvent,
        CaptureStep::QueryBuffer,
        CaptureStep::OpenCapture,
        CaptureStep::Publish,
        CaptureStep::Start,
    ] {
        assert_eq!(c.step, step);
        c.advance(S_OK);
    }
    assert_eq!(c.step, CaptureStep::Stream);
    c.advance(E_OTHER);
    assert_eq!(c.step, CaptureStep::Stop);
    c.advance(-2);
    assert_eq!(c.step, CaptureStep::CloseEvent);
    c.advance(-3);
    assert_eq!((c.step, c.result), (CaptureStep::Done, E_OTHER));
    c.advance(-4);
    assert_eq!(c.result, E_OTHER);
}

#[test]
fn capture_gives_up_without_a_format() {
    let mut c = at_first_probe();
    for i in 0..CANDIDATES {
        assert_eq!(c.step, CaptureStep::Probe(i));
        c.advance(UNSUPPORTED_FORMAT);
    }
    assert_eq!((c.step, c.result), (CaptureStep::Done, UNSUPPORTED_FORMAT));
    assert_eq!(c.format(), None);
}

#[test]
fn capture_realigns_once() {
    let mut c = at_first_probe();
    c.advance(S_OK);
    c.advance(BUFFER_SIZE_NOT_ALIGNED);
    assert_eq!(c.step, CaptureStep::QueryAlignedSize);
    c.advance(S_OK);
    assert_eq!(c.step, CaptureStep::Reactivate);
    c.advance(S_OK);
    assert_eq!(c.step, CaptureStep::InitializeAligned);
    let mut twice = c;
    c.advance(S_OK);
    assert_eq!(c.step, CaptureStep::CreateEvent);
    twice.advance(BUFFER_SIZE_NOT_ALIGNED);
    assert_eq!((twice.step, twice.result), (CaptureStep::Done, BUFFER_SIZE_NOT_ALIGNED));
}

#[test]
fn capture_ends_at_the_first_failure() {
    let mut c = ExclusiveCapture::new();
    c.advance(1); // COM was initialized before
    assert_eq!(c.step, CaptureStep::OpenEnumerator);
    c.advance(E_OTHER);
    assert_eq!((c.step, c.result), (CaptureStep::Done, E_OTHER));
}

#[test]
fn packets_are_told_apart() {
    assert_eq!(classify_packet(0, 2, 4), Packet::Drained);
    assert_eq!(classify_packet(480, 0, 4), Packet::Data(1920));
    assert_eq!(classify_packet(480, 2, 4), Packet::Silence(1920));
    assert_eq!(classify_packet(480, 1 | 4, 4), Packet::Data(1920));
    assert_eq!(classify_packet(1, 3, 8), Packet::Silence(8));
    assert_eq!(
        classify_packet(u32::MAX, 0, u32::MAX),
        Packet::Data(u32::MAX as u64 * u32::MAX as u64)
    );
}

#[test]
fn packets_are_drained_before_the_next_wait() {
    let mut s = PacketStream::new(4);
    assert_eq!(s.step, StreamStep::Wait);
    s.advance(StreamEvent::Waited(0));
    assert_eq!(s.step, StreamStep::Fetch);
    s.advance(StreamEvent::Fetched(0, 480, 2));
    assert_eq!(s.step, StreamStep::Push(Packet::Silence(1920)));
    s.advance(StreamEvent::Pushed);
    assert_eq!(s.step, StreamStep::Release(480));
    s.advance(StreamEvent::Released(0));
    assert_eq!(s.step, StreamStep::Fetch);
    s.advance(StreamEvent::Waited(0));
    assert_eq!(s.step, StreamStep::Fetch, "out of turn");
    s.advance(StreamEvent::Fetched(0, 0, 0));
    assert_eq!(s.step, StreamStep::Wait);
    s.advance(StreamEvent::Waited(0x102)); // timeout
    assert_eq!((s.step, s.result), (StreamStep::Ended, 0));
}

#[test]
fn streams_end_with_the_failure() {
    let mut s = PacketStream::new(4);
    s.advance(StreamEvent::Waited(0));
    s.advance(StreamEvent::Fetched(E_OTHER, 480, 0));
    assert_eq!((s.step, s.result), (StreamStep::Ended, E_OTHER));
    let mut s = PacketStream::new(4);
    s.advance(StreamEvent::Waited(0));
    s.advance(StreamEvent::Fetched(0, 480, 0));
    s.advance(StreamEvent::Pushed);
    s.advance(StreamEvent::Released(-7));
    assert_eq!((s.step, s.result), (StreamStep::Ended, -7));
}

#[test]
fn silence_is_pushed_as_zeros() {
    let words: Vec<AtomicU64> = (0..5).map(|_| AtomicU64::new(0)).collect();
    let halves: Vec<AtomicU32> = (0..6).map(|_| AtomicU32::new(0)).collect();
    let payload: Vec<AtomicU8> = (0..64).map(|_| AtomicU8::new(9)).collect();
    let header = ShmHeader {
        magic: Cell64::new(&words[0], MAGIC_OFFSET),
        version: Cell32::new(&halves[0], VERSION_OFFSET),
        header_size: Cell32::new(&halves[1], HEADER_SIZE_OFFSET),
        capacity: Cell64::new(&words[1], CAPACITY_OFFSET),
        sample_rate: Cell32::new(&halves[2], SAMPLE_RATE_OFFSET),
        channels: Cell32::new(&halves[3], CHANNELS_OFFSET),
        format: Cell32::new(&halves[4], FORMAT_OFFSET),
        frame_bytes: Cell32::new(&halves[5], FRAME_BYTES_OFFSET),
        tail: Cell64::new(&words[2], TAIL_OFFSET),
        seq: Cell64::new(&words[3], SEQ_OFFSET),
        head: Cell64::new(&words[4], HEAD_OFFSET),
    };
    let m = AudioMapping::new(header, ByteCells::new(&payload, SHM_HEADER_SIZE));
    let mut ring = ShmAudioBuffer::init(m, 64);
    let mut silence = Vec::new();
    push_silence(&mut ring, &mut silence, 10);
    push_silence(&mut ring, &mut silence, 4);
    assert_eq!(silence, vec![0; 10]);
    assert_eq!(ring.pointers(), (0, 14));
    let mut out = [7u8; 14];
    assert_eq!(ring.read_quantum(&mut out, 1 << 20, 8), Some(14));
    assert_eq!(out, [0; 14]);
}

// The filter graph.

fn run_graph(g: &mut GraphSetup, fail: &[GraphStep]) -> Vec<GraphStep> {
    let mut steps = Vec::new();
    while g.step != GraphStep::Running && g.step != GraphStep::Failed {
        steps.push(g.step);
        g.advance(if fail.contains(&g.step) { E_OTHER } else { GRAPH_OK });
    }
    steps
}

#[test]
fn audio_graph_without_video() {
    let mut g = GraphSetup::new(None, false, false);
    let steps = run_graph(&mut g, &[]);
    assert_eq!(g.step, GraphStep::Running);
    assert!(!g.has_video && g.has_audio && !g.forwards_video);
    assert_eq!(
        steps,
        vec![
            GraphStep::InitCom,
            GraphStep::CreateGraph,
            GraphStep::CreateBuilder,
            GraphStep::SetFiltergraph,
            GraphStep::QueryControl,
            GraphStep::CreateGrabber,
            GraphStep::QueryGrabber,
            GraphStep::SetGrabberType,
            GraphStep::SetOneShot,
            GraphStep::SetBuffering,
            GraphStep::AddGrabber,
            GraphStep::CreateNull,
            GraphStep::AddNull,
            GraphStep::FindAudio,
            GraphStep::AddAudio,
            GraphStep::RouteFromAudio,
            GraphStep::QueryAudioType,
            GraphStep::ParseAudioType,
            GraphStep::PublishFormat,
            GraphStep::SetCallback,
            GraphStep::Run,
        ]
    );
}

#[test]
fn video_device_carries_the_audio() {
    let mut g = GraphSetup::new(Some(Renderer::Null), false, false);
    let steps = run_graph(&mut g, &[]);
    assert!(g.has_video && !g.forwards_video);
    assert!(steps.contains(&GraphStep::RouteFromVideo));
    assert!(!steps.contains(&GraphStep::FindAudio));
    assert!(steps.contains(&GraphStep::CreateKeepNull));
    let mut w = GraphSetup::new(Some(Renderer::Window), false, false);
    let steps = run_graph(&mut w, &[]);
    assert!(!steps.contains(&GraphStep::CreateKeepNull));
    assert!(steps.contains(&GraphStep::RenderKeepAlive));
}

#[test]
fn a_named_audio_device_is_used() {
    let mut g = GraphSetup::new(Some(Renderer::Null), true, true);
    let steps = run_graph(&mut g, &[]);
    assert_eq!(g.step, GraphStep::Running);
    assert!(g.has_video && g.has_audio && g.forwards_video);
    assert!(!steps.contains(&GraphStep::RouteFromVideo));
    assert!(steps.contains(&GraphStep::FindAudio) && steps.contains(&GraphStep::RouteFromAudio));
    let mut g = GraphSetup::new(None, true, true);
    run_graph(&mut g, &[GraphStep::FindAudio]);
    assert_eq!((g.step, g.result), (GraphStep::Failed, E_OTHER));
}

#[test]
fn passthrough_forwards_frames() {
    let mut g = GraphSetup::new(Some(Renderer::Null), true, false);
    let steps = run_graph(&mut g, &[]);
    assert_eq!(g.step, GraphStep::Running);
    assert!(g.forwards_video);
    assert!(!steps.contains(&GraphStep::RenderKeepAlive), "forwarding comes first");
    let publish = steps.iter().position(|s| *s == GraphStep::PublishGeometry).unwrap();
    let callback = steps.iter().position(|s| *s == GraphStep::SetVideoCallback).unwrap();
    assert_eq!(publish + 1, callback);
}

#[test]
fn video_trouble_costs_the_video_only() {
    let mut g = GraphSetup::new(None, true, false);
    let steps = run_graph(&mut g, &[GraphStep::FindVideo]);
    assert_eq!(g.step, GraphStep::Running);
    assert!(!g.has_video && !g.forwards_video);
    assert!(steps.contains(&GraphStep::FindAudio));

    let mut g = GraphSetup::new(None, true, false);
    let steps = run_graph(&mut g, &[GraphStep::RouteFromVideo]);
    assert_eq!(g.step, GraphStep::Running);
    assert!(g.forwards_video && steps.contains(&GraphStep::RouteFromAudio));

    let mut g = GraphSetup::new(None, true, false);
    let steps = run_graph(&mut g, &[GraphStep::PublishGeometry]);
    assert_eq!(g.step, GraphStep::Running);
    assert!(!g.forwards_video && !steps.contains(&GraphStep::SetVideoCallback));
}

#[test]
fn other_trouble_ends_the_setup() {
    for step in [GraphStep::FindAudio, GraphStep::ParseAudioType, GraphStep::Run] {
        let mut g = GraphSetup::new(None, false, false);
        let steps = run_graph(&mut g, &[step]);
        assert_eq!((g.step, g.result), (GraphStep::Failed, E_OTHER));
        assert_eq!(steps.last(), Some(&step));
    }
    let mut g = GraphSetup::new(None, true, false);
    run_graph(&mut g, &[GraphStep::ParseVideoType]);
    assert_eq!((g.step, g.result), (GraphStep::Failed, E_OTHER));
}

#[test]
fn callbacks_deliver_what_is_there() {
    assert_eq!(delivered(true, 1920), Some(1920));
    assert_eq!(delivered(true, 0), None);
    assert_eq!(delivered(true, -1), None);
    assert_eq!(delivered(false, 1920), None);
    assert_eq!(outcome_code(true), 0);
    assert_eq!(outcome_code(false), E_FAIL);
}

// The keep-alive.

#[test]
fn keep_alive_opens_its_graph() {
    for (renderer, calls) in [(Renderer::Null, 14), (Renderer::Window, 12)] {
        let mut g = KeepAliveGraph::new(renderer);
        let mut n = 0;
        while g.step != KeepAliveStep::Running {
            assert!(renderer == Renderer::Null || g.step != KeepAliveStep::CreateNull);
            g.advance(0);
            n += 1;
        }
        assert_eq!(n, calls);
        assert_eq!(g.result, 0);
    }
}

#[test]
fn keep_alive_needs_a_device() {
    for code in [NOTHING_THERE, E_OTHER] {
        let mut g = KeepAliveGraph::new(Renderer::Null);
        g.advance(0);
        assert_eq!(g.step, KeepAliveStep::OpenCategory);
        g.advance(code);
        assert_eq!((g.step, g.result), (KeepAliveStep::Failed, E_FAIL));
    }
    let mut g = KeepAliveGraph::new(Renderer::Null);
    g.advance(0);
    g.advance(0);
    assert_eq!(g.step, KeepAliveStep::Search);
    g.advance(outcome_code(false));
    assert_eq!((g.step, g.result), (KeepAliveStep::Failed, E_FAIL));
}

#[test]
fn keep_alive_restarts_a_halted_graph() {
    assert_eq!(after_poll(true, Some(EC_COMPLETE)), KeepAliveAction::Quit);
    for code in [EC_COMPLETE, EC_ERRORABORT, EC_USERABORT] {
        assert_eq!(after_poll(false, Some(code)), KeepAliveAction::Restart);
    }
    assert_eq!(after_poll(false, Some(0x0E)), KeepAliveAction::Poll);
    assert_eq!(after_poll(false, None), KeepAliveAction::Sleep);
}

#[test]
fn keep_alive_reports_how_it_started() {
    assert_eq!(start_outcome(Some(Ok("cam".to_string()))), Ok("cam".to_string()));
    assert_eq!(
        start_outcome(Some(Err(open_failure("E_FAIL")))),
        Err("open video device: E_FAIL".to_string())
    );
    assert_eq!(
        start_outcome(None),
        Err("video keep-alive thread exited before reporting".to_string())
    );
}

// Devices.

#[test]
fn device_names_match_in_any_case() {
    assert!(name_passes(None, ""));
    assert!(name_passes(Some("live gamer"), "AVerMedia Live Gamer 4K"));
    assert!(name_passes(Some("AVERMEDIA"), "avermedia"));
    assert!(name_passes(Some("\u{c9}CRAN"), "mon \u{e9}cran"));
    assert!(!name_passes(Some("elgato"), "AVerMedia"));
    assert!(name_passes(Some(""), "anything"));
}

#[test]
fn first_matching_device_is_taken() {
    let mut d = DeviceSearch::new(Some("cam".to_string()));
    assert!(!d.offer(Some("Microphone".to_string())));
    assert!(!d.offer(None));
    assert!(!d.found());
    assert!(d.offer(Some("Front Camera".to_string())));
    assert!(!d.offer(Some("Rear Camera".to_string())));
    assert!(d.found());
    assert_eq!(d.names(), &["Microphone", "", "Front Camera", "Rear Camera"]);

    let mut any = DeviceSearch::new(None);
    assert!(any.offer(None));
    assert!(!any.offer(Some("Second".to_string())));
}

#[test]
fn friendly_names_are_not_empty() {
    assert_eq!(friendly_name(Some("x".to_string())), Some("x".to_string()));
    assert_eq!(friendly_name(Some(String::new())), None);
    assert_eq!(friendly_name(None), None);
}

// The shared region.

#[test]
fn driver_codes() {
    assert_eq!(
        ctl_code(FILE_DEVICE_UNKNOWN, 0x801, METHOD_BUFFERED, FILE_ANY_ACCESS),
        IOCTL_IVSHMEM_REQUEST_SIZE
    );
    assert_eq!(
        ctl_code(FILE_DEVICE_UNKNOWN, 0x802, METHOD_BUFFERED, FILE_ANY_ACCESS),
        IOCTL_IVSHMEM_REQUEST_MMAP
    );
    assert_eq!(ctl_code(0x22, 0x801, 3, 1), 0x0022_6007);
}

#[test]
fn mapping_replies_are_parsed() {
    let mut reply = [0xEEu8; 32];
    reply[8..16].copy_from_slice(&0x0400_0000u64.to_le_bytes());
    reply[16..24].copy_from_slice(&0x7FFF_1234_0000u64.to_le_bytes());
    let r = parse_mmap_reply(&reply);
    assert_eq!((r.address, r.len), (0x7FFF_1234_0000, 0x0400_0000));
}

#[test]
fn mapping_closes_its_list_on_every_path() {
    for fail in [
        None,
        Some(MapStep::OpenList),
        Some(MapStep::EnumFirst),
        Some(MapStep::ProbeDetail),
        Some(MapStep::ReadDetail),
        Some(MapStep::OpenDevice),
        Some(MapStep::CloseList),
        Some(MapStep::RequestSize),
        Some(MapStep::RequestMmap),
    ] {
        let mut m = RegionMap::new();
        let mut closed = 0;
        while m.step != MapStep::Mapped && m.step != MapStep::Failed {
            if m.step == MapStep::CloseList {
                closed += 1;
            }
            m.advance(if fail == Some(m.step) { E_OTHER } else { 0 });
        }
        let harmless = matches!(fail, None | Some(MapStep::ProbeDetail) | Some(MapStep::CloseList));
        assert_eq!(m.step == MapStep::Mapped, harmless, "{fail:?}");
        assert_eq!(m.result, if harmless { 0 } else { E_OTHER });
        assert_eq!(closed, if fail == Some(MapStep::OpenList) { 0 } else { 1 });
    }
}

// The command line and the run.

fn vm(words: &[&str], default_device: &str) -> Result<VmArgs, Option<String>> {
    let args: Vec<String> = words.iter().map(|s| s.to_string()).collect();
    parse_args(&args, default_device).map_err(|e| e.message())
}

#[test]
fn guest_options() {
    let a = vm(&["--device", "{0.0.1.00000000}.{guid}", "--video-device", "Live Gamer"], "")
        .ok()
        .unwrap();
    assert_eq!(a.device_id, "{0.0.1.00000000}.{guid}");
    assert_eq!(a.video_device.as_deref(), Some("Live Gamer"));
    assert!(a.video_keepalive && !a.ds_audio);
    assert_eq!(a.plan(), CapturePlan::Endpoint(Some(Renderer::Null)));

    let a = vm(&["--audio-device", "AVerMedia"], "").ok().unwrap();
    assert!(a.ds_audio && !a.video_keepalive);
    assert_eq!(a.plan(), CapturePlan::Graph(None, false));

    let a = vm(
        &["--video-passthrough", "--video-device", "Live Gamer", "--video-renderer", "window"],
        "",
    )
    .ok()
    .unwrap();
    assert_eq!(a.plan(), CapturePlan::Graph(Some(Renderer::Window), true));

    let a = vm(&[], "default").ok().unwrap();
    assert_eq!(a.device_id, "default");
    assert_eq!(a.plan(), CapturePlan::Endpoint(None));
    let a = vm(&["--ds-audio", "--video-keepalive", "--video-renderer", "null"], "").ok().unwrap();
    assert_eq!(a.plan(), CapturePlan::Graph(Some(Renderer::Null), false));
}

#[test]
fn guest_refusals() {
    assert_eq!(vm(&["--help"], "d").err(), Some(None));
    assert_eq!(vm(&["-h"], "d").err(), Some(None));
    assert_eq!(vm(&["--device"], "d").err(), Some(None));
    assert_eq!(vm(&["--loud"], "d").err(), Some(Some("unknown argument: --loud".to_string())));
    assert_eq!(
        vm(&["--video-renderer", "big"], "d").err(),
        Some(Some("error: --video-renderer must be 'null' or 'window'".to_string()))
    );
    assert_eq!(
        vm(&["--video-keepalive"], "").err(),
        Some(Some(
            "error: no capture device id (pass --device, --ds-audio, or set DEFAULT_DEVICE_ID)"
                .to_string()
        ))
    );
}

#[test]
fn guest_waits_for_the_host_and_starts_video_first() {
    let mut g = GuestRun::new(CapturePlan::Endpoint(Some(Renderer::Null)));
    let mut stages = Vec::new();
    for ok in [true, false, true, true, true, true, true, true] {
        stages.push((g.stage, g.pause_ms()));
        g.advance(ok);
    }
    assert_eq!(
        stages,
        vec![
            (GuestStage::MapRegion, 0),
            (GuestStage::Attach, 0),
            (GuestStage::WaitForHost, 500),
            (GuestStage::Attach, 0),
            (GuestStage::StartKeepAlive, 0),
            (GuestStage::SpinUp, 700),
            (GuestStage::Settle, 3000),
            (GuestStage::CaptureEndpoint, 0),
        ]
    );
    assert_eq!(g.stage, GuestStage::Done);
    assert!(g.kept_alive);
}

#[test]
fn guest_goes_on_without_video() {
    let mut g = GuestRun::new(CapturePlan::Endpoint(Some(Renderer::Window)));
    g.advance(true);
    g.advance(true);
    g.advance(false);
    assert_eq!(g.stage, GuestStage::Settle);
    assert!(!g.kept_alive);
    g.advance(true);
    g.advance(false);
    assert_eq!(g.stage, GuestStage::Failed);

    let mut g = GuestRun::new(CapturePlan::Graph(None, true));
    g.advance(true);
    g.advance(true);
    assert_eq!(g.stage, GuestStage::CaptureGraph);
    let mut g = GuestRun::new(CapturePlan::Graph(None, true));
    g.advance(false);
    assert_eq!(g.stage, GuestStage::Failed);
}
