//! Exclusive-mode capture of an audio endpoint, as a sequence of calls.
//!
//! [`ExclusiveCapture`] says which call comes next and takes its result code; the
//! caller makes the calls. Once the client runs, [`PacketStream`] does the same for
//! its packets, which go into the ring.

use crate::audio;
use crate::audio::ShmAudioBuffer;
use crate::format::AudioFormat;
use crate::wave;
use crate::wave::{Candidate, WaveFormat};
use vstd::prelude::*;

verus! {

/// The result code of a call that did what it was asked to, without reservations.
pub const S_OK: i32 = 0;

/// No candidate is supported (`AUDCLNT_E_UNSUPPORTED_FORMAT`).
pub const UNSUPPORTED_FORMAT: i32 = -2004287480;

/// The period does not match the buffer alignment of the device
/// (`AUDCLNT_E_BUFFER_SIZE_NOT_ALIGNED`).
pub const BUFFER_SIZE_NOT_ALIGNED: i32 = -2004287463;

/// The result of a wait that ended with a signal.
pub const WAIT_SIGNALLED: u32 = 0;

/// The number of formats that are probed.
pub const CANDIDATES: usize = 10;

/// A failure is a negative code.
pub open spec fn failed(code: i32) -> bool {
    code < 0
}

/// The formats to probe, best first. Each is tried in the plain form, then in the
/// extensible one: many capture cards take only the plain form.
pub open spec fn candidate_at(i: int) -> Candidate {
    let base = i / 2;
    Candidate {
        rate: if base == 1 {
            44_100
        } else {
            48_000
        },
        channels: if base == 2 {
            1
        } else {
            2
        },
        bits: if base < 3 {
            16
        } else {
            32
        },
        is_float: base == 4,
        extensible: i % 2 == 1,
    }
}

/// Gives the format to probe as number `i`.
pub fn candidate(i: usize) -> (c: Candidate)
    requires
        i < CANDIDATES,
    ensures
        c == candidate_at(i as int),
{
    let base: usize = i / 2;
    let extensible: bool = i % 2 == 1;
    if base == 0 {
        Candidate { rate: 48_000, channels: 2, bits: 16, is_float: false, extensible }
    } else if base == 1 {
        Candidate { rate: 44_100, channels: 2, bits: 16, is_float: false, extensible }
    } else if base == 2 {
        Candidate { rate: 48_000, channels: 1, bits: 16, is_float: false, extensible }
    } else if base == 3 {
        Candidate { rate: 48_000, channels: 2, bits: 32, is_float: false, extensible }
    } else {
        Candidate { rate: 48_000, channels: 2, bits: 32, is_float: true, extensible }
    }
}

/// The wave format to hand to the device for candidate `i`.
pub fn candidate_wave(i: usize) -> (w: WaveFormat)
    requires
        i < CANDIDATES,
    ensures
        w == wave::wave_of(candidate_at(i as int)),
{
    let c: Candidate = candidate(i);
    proof {
        lemma_candidates_fit(i as int);
    }
    wave::make_wfx(c)
}

proof fn lemma_candidates_fit(i: int)
    requires
        0 <= i < CANDIDATES,
    ensures
        wave::block_align(candidate_at(i)) <= u16::MAX,
        candidate_at(i).rate * wave::block_align(candidate_at(i)) <= u32::MAX,
        wave::audio_format_of(wave::wave_of(candidate_at(i))) is Some,
{
    let c = candidate_at(i);
    assert(c.channels * (c.bits / 8) <= 8) by (nonlinear_arith)
        requires
            c.channels <= 2,
            c.bits <= 32,
    ;
    assert(c.channels * (c.bits / 8) >= 0) by (nonlinear_arith);
    let block = wave::block_align(c);
    assert(c.rate * block <= 48_000 * 8) by (nonlinear_arith)
        requires
            0 <= c.rate <= 48_000,
            0 <= block <= 8,
    ;
    wave::built_formats_read_back(c);
}

/// The call to make next.
#[derive(Clone, Copy, Debug, PartialEq, Eq, Structural)]
pub enum CaptureStep {
    /// Initialize COM.
    InitCom,
    /// Create the device enumerator.
    OpenEnumerator,
    /// Resolve the endpoint by its id.
    OpenDevice,
    /// Activate an audio client on the endpoint.
    Activate,
    /// Ask for the minimum device period.
    QueryPeriod,
    /// Ask whether the candidate with this number is supported in exclusive mode.
    Probe(usize),
    /// Initialize the client with the minimum period.
    Initialize,
    /// Ask the client for the buffer size that it wants.
    QueryAlignedSize,
    /// Activate a fresh client, the first one being unusable by now.
    Reactivate,
    /// Initialize the fresh client with the period of that buffer size.
    InitializeAligned,
    /// Create the event that signals packets.
    CreateEvent,
    /// Hand the event to the client.
    SetEvent,
    /// Ask for the buffer size.
    QueryBuffer,
    /// Ask for the capture service.
    OpenCapture,
    /// Publish the format in the ring.
    Publish,
    /// Start the client.
    Start,
    /// Forward packets until the stream stalls or fails.
    Stream,
    /// Stop the client.
    Stop,
    /// Close the event.
    CloseEvent,
    /// Nothing is left to do.
    Done,
}

/// A capture session between two calls.
#[derive(Clone, Copy, Debug, PartialEq, Eq, Structural)]
pub struct ExclusiveCapture {
    /// The call to make next.
    pub step: CaptureStep,
    /// The number of the candidate that the device accepted.
    pub chosen: Option<usize>,
    /// What the session ends with; negative if it failed.
    pub result: i32,
}

/// The step after `s` where `s` succeeded and nothing has to be decided.
pub open spec fn successor(s: CaptureStep) -> CaptureStep {
    match s {
        CaptureStep::InitCom => CaptureStep::OpenEnumerator,
        CaptureStep::OpenEnumerator => CaptureStep::OpenDevice,
        CaptureStep::OpenDevice => CaptureStep::Activate,
        CaptureStep::Activate => CaptureStep::QueryPeriod,
        CaptureStep::QueryPeriod => CaptureStep::Probe(0),
        CaptureStep::Initialize => CaptureStep::CreateEvent,
        CaptureStep::QueryAlignedSize => CaptureStep::Reactivate,
        CaptureStep::Reactivate => CaptureStep::InitializeAligned,
        CaptureStep::InitializeAligned => CaptureStep::CreateEvent,
        CaptureStep::CreateEvent => CaptureStep::SetEvent,
        CaptureStep::SetEvent => CaptureStep::QueryBuffer,
        CaptureStep::QueryBuffer => CaptureStep::OpenCapture,
        CaptureStep::OpenCapture => CaptureStep::Publish,
        CaptureStep::Publish => CaptureStep::Start,
        CaptureStep::Start => CaptureStep::Stream,
        CaptureStep::Stream => CaptureStep::Stop,
        CaptureStep::Stop => CaptureStep::CloseEvent,
        _ => CaptureStep::Done,
    }
}

impl ExclusiveCapture {
    /// A session that has made no call yet.
    pub open spec fn fresh() -> Self {
        ExclusiveCapture { step: CaptureStep::InitCom, chosen: None, result: S_OK }
    }

    /// The candidate is in the list, and there is one whenever a call needs it.
    pub open spec fn wf(self) -> bool {
        &&& self.chosen matches Some(i) ==> i < CANDIDATES
        &&& self.step matches CaptureStep::Probe(i) ==> i < CANDIDATES
        &&& match self.step {
            CaptureStep::InitCom
            | CaptureStep::OpenEnumerator
            | CaptureStep::OpenDevice
            | CaptureStep::Activate
            | CaptureStep::QueryPeriod
            | CaptureStep::Probe(_) => self.chosen is None,
            CaptureStep::Done => true,
            _ => self.chosen is Some,
        }
    }

    /// The session after the call that was due returned `code`.
    pub open spec fn after(self, code: i32) -> Self {
        let over = ExclusiveCapture { step: CaptureStep::Done, chosen: self.chosen, result: code };
        let on = ExclusiveCapture {
            step: successor(self.step),
            chosen: self.chosen,
            result: self.result,
        };
        match self.step {
            CaptureStep::Probe(i) => if code == S_OK {
                ExclusiveCapture {
                    step: CaptureStep::Initialize,
                    chosen: Some(i),
                    result: self.result,
                }
            } else if i + 1 < CANDIDATES {
                ExclusiveCapture {
                    step: CaptureStep::Probe((i + 1) as usize),
                    chosen: None,
                    result: self.result,
                }
            } else {
                ExclusiveCapture {
                    step: CaptureStep::Done,
                    chosen: None,
                    result: UNSUPPORTED_FORMAT,
                }
            },
            CaptureStep::Initialize if code == BUFFER_SIZE_NOT_ALIGNED => ExclusiveCapture {
                step: CaptureStep::QueryAlignedSize,
                chosen: self.chosen,
                result: self.result,
            },
            // What the stream ended with is kept; nothing after it changes that.
            CaptureStep::Stream => ExclusiveCapture {
                step: CaptureStep::Stop,
                chosen: self.chosen,
                result: code,
            },
            CaptureStep::Publish
            | CaptureStep::Stop
            | CaptureStep::CloseEvent => on,
            CaptureStep::Done => self,
            _ => if failed(code) {
                over
            } else {
                on
            },
        }
    }

    /// The session after calls that returned `codes`.
    pub open spec fn after_all(self, codes: Seq<i32>) -> Self
        decreases codes.len(),
    {
        if codes.len() == 0 {
            self
        } else {
            self.after_all(codes.drop_last()).after(codes.last())
        }
    }

    /// A bound on the calls that are left.
    pub open spec fn calls_left(self) -> int {
        match self.step {
            CaptureStep::InitCom => 33,
            CaptureStep::OpenEnumerator => 32,
            CaptureStep::OpenDevice => 31,
            CaptureStep::Activate => 30,
            CaptureStep::QueryPeriod => 29,
            CaptureStep::Probe(i) => 28 - i,
            CaptureStep::Initialize => 13,
            CaptureStep::QueryAlignedSize => 12,
            CaptureStep::Reactivate => 11,
            CaptureStep::InitializeAligned => 10,
            CaptureStep::CreateEvent => 9,
            CaptureStep::SetEvent => 8,
            CaptureStep::QueryBuffer => 7,
            CaptureStep::OpenCapture => 6,
            CaptureStep::Publish => 5,
            CaptureStep::Start => 4,
            CaptureStep::Stream => 3,
            CaptureStep::Stop => 2,
            CaptureStep::CloseEvent => 1,
            CaptureStep::Done => 0,
        }
    }

    /// A new session.
    pub fn new() -> (c: Self)
        ensures
            c == ExclusiveCapture::fresh(),
            c.wf(),
    {
        ExclusiveCapture { step: CaptureStep::InitCom, chosen: None, result: S_OK }
    }

    /// Takes the result code of the call that was due.
    pub fn advance(&mut self, code: i32)
        requires
            old(self).wf(),
        ensures
            *final(self) == old(self).after(code),
            final(self).wf(),
    {
        match self.step {
            CaptureStep::Probe(i) => {
                if code == S_OK {
                    self.chosen = Some(i);
                    self.step = CaptureStep::Initialize;
                } else if i + 1 < CANDIDATES {
                    self.step = CaptureStep::Probe(i + 1);
                } else {
                    self.end(UNSUPPORTED_FORMAT);
                }
            },
            CaptureStep::Initialize => {
                if code == BUFFER_SIZE_NOT_ALIGNED {
                    self.step = CaptureStep::QueryAlignedSize;
                } else {
                    self.proceed(code, CaptureStep::CreateEvent);
                }
            },
            CaptureStep::Stream => {
                self.result = code;
                self.step = CaptureStep::Stop;
            },
            CaptureStep::Publish => self.step = CaptureStep::Start,
            CaptureStep::Stop => self.step = CaptureStep::CloseEvent,
            CaptureStep::CloseEvent => self.step = CaptureStep::Done,
            CaptureStep::Done => {},
            CaptureStep::InitCom => self.proceed(code, CaptureStep::OpenEnumerator),
            CaptureStep::OpenEnumerator => self.proceed(code, CaptureStep::OpenDevice),
            CaptureStep::OpenDevice => self.proceed(code, CaptureStep::Activate),
            CaptureStep::Activate => self.proceed(code, CaptureStep::QueryPeriod),
            CaptureStep::QueryPeriod => self.proceed(code, CaptureStep::Probe(0)),
            CaptureStep::QueryAlignedSize => self.proceed(code, CaptureStep::Reactivate),
            CaptureStep::Reactivate => self.proceed(code, CaptureStep::InitializeAligned),
            CaptureStep::InitializeAligned => self.proceed(code, CaptureStep::CreateEvent),
            CaptureStep::CreateEvent => self.proceed(code, CaptureStep::SetEvent),
            CaptureStep::SetEvent => self.proceed(code, CaptureStep::QueryBuffer),
            CaptureStep::QueryBuffer => self.proceed(code, CaptureStep::OpenCapture),
            CaptureStep::OpenCapture => self.proceed(code, CaptureStep::Publish),
            CaptureStep::Start => self.proceed(code, CaptureStep::Stream),
        }
    }

    fn end(&mut self, code: i32)
        ensures
            *final(self) == (ExclusiveCapture {
                step: CaptureStep::Done,
                chosen: old(self).chosen,
                result: code,
            }),
    {
        self.step = CaptureStep::Done;
        self.result = code;
    }

    fn proceed(&mut self, code: i32, next: CaptureStep)
        ensures
            *final(self) == (if failed(code) {
                ExclusiveCapture {
                    step: CaptureStep::Done,
                    chosen: old(self).chosen,
                    result: code,
                }
            } else {
                ExclusiveCapture { step: next, chosen: old(self).chosen, result: old(self).result }
            }),
    {
        if code < 0 {
            self.end(code);
        } else {
            self.step = next;
        }
    }

    /// The format to publish: that of the candidate which the device accepted.
    pub fn format(&self) -> (r: Option<AudioFormat>)
        requires
            self.wf(),
        ensures
            r == (match self.chosen {
                Some(i) => wave::audio_format_of(wave::wave_of(candidate_at(i as int))),
                None => None,
            }),
            r is Some == self.chosen is Some,
    {
        match self.chosen {
            Some(i) => {
                proof {
                    lemma_candidates_fit(i as int);
                }
                let w: WaveFormat = candidate_wave(i);
                wave::parse_audio_format(&w)
            },
            None => None,
        }
    }
}

/// Whatever the calls return, every call leaves fewer to make, so a session ends.
pub proof fn capture_ends(c: ExclusiveCapture, code: i32)
    requires
        c.wf(),
    ensures
        c.after(code).wf(),
        c.step != CaptureStep::Done ==> 0 <= c.after(code).calls_left() < c.calls_left(),
        c.calls_left() == 0 <==> c.step == CaptureStep::Done,
{
}

/// The format is published before the client is started: the call before `Start` is
/// always `Publish`, and what it publishes is the format of the candidate that the
/// device accepted.
pub proof fn format_is_published_before_start(codes: Seq<i32>)
    requires
        ExclusiveCapture::fresh().after_all(codes).step == CaptureStep::Start,
    ensures
        codes.len() > 0,
        ExclusiveCapture::fresh().after_all(codes.drop_last()).step == CaptureStep::Publish,
        ExclusiveCapture::fresh().after_all(codes.drop_last()).chosen
            == ExclusiveCapture::fresh().after_all(codes).chosen,
        ExclusiveCapture::fresh().after_all(codes).chosen is Some,
{
    lemma_sessions_are_wf(codes);
}

proof fn lemma_sessions_are_wf(codes: Seq<i32>)
    ensures
        ExclusiveCapture::fresh().after_all(codes).wf(),
    decreases codes.len(),
{
    if codes.len() > 0 {
        lemma_sessions_are_wf(codes.drop_last());
        capture_ends(ExclusiveCapture::fresh().after_all(codes.drop_last()), codes.last());
    }
}

/// Once the client has been started it is stopped and the event is closed, however
/// the stream ended, and the session ends with what the stream ended with.
pub proof fn teardown_always_runs(c: ExclusiveCapture, stream: i32, stop: i32, close: i32)
    requires
        c.step == CaptureStep::Stream,
    ensures
        c.after(stream).step == CaptureStep::Stop,
        c.after(stream).after(stop).step == CaptureStep::CloseEvent,
        c.after(stream).after(stop).after(close).step == CaptureStep::Done,
        c.after(stream).after(stop).after(close).result == stream,
{
}

/// The first candidate that the device accepts is taken: if the probes before
/// number `i` returned something else than success and number `i` returned success,
/// the session goes on with number `i`.
pub proof fn first_supported_candidate_wins(verdicts: Seq<i32>, c: ExclusiveCapture)
    requires
        c == (ExclusiveCapture { step: CaptureStep::Probe(0), chosen: None, result: S_OK }),
        0 < verdicts.len() <= CANDIDATES,
        forall|j: int| 0 <= j < verdicts.len() - 1 ==> verdicts[j] != S_OK,
    ensures
        verdicts.last() == S_OK ==> c.after_all(verdicts) == (ExclusiveCapture {
            step: CaptureStep::Initialize,
            chosen: Some((verdicts.len() - 1) as usize),
            result: S_OK,
        }),
        verdicts.last() != S_OK && verdicts.len() == CANDIDATES ==> c.after_all(verdicts) == (
        ExclusiveCapture { step: CaptureStep::Done, chosen: None, result: UNSUPPORTED_FORMAT }),
        verdicts.last() != S_OK && verdicts.len() < CANDIDATES ==> c.after_all(verdicts) == (
        ExclusiveCapture {
            step: CaptureStep::Probe(verdicts.len() as usize),
            chosen: None,
            result: S_OK,
        }),
    decreases verdicts.len(),
{
    let before = verdicts.drop_last();
    if before.len() > 0 {
        assert(before.last() == verdicts[verdicts.len() - 2]);
        first_supported_candidate_wins(before, c);
    } else {
        assert(c.after_all(before) == c);
    }
    assert(c.after_all(verdicts) == c.after_all(before).after(verdicts.last()));
}

/// An alignment complaint is answered by one retry on a fresh client, and a second
/// complaint ends the session.
pub proof fn realigned_at_most_once(c: ExclusiveCapture, size: i32, activate: i32)
    requires
        c.step == CaptureStep::Initialize,
        !failed(size),
        !failed(activate),
    ensures
        ({
            let retry = c.after_all(seq![BUFFER_SIZE_NOT_ALIGNED, size, activate]);
            &&& retry.step == CaptureStep::InitializeAligned
            &&& retry.after(BUFFER_SIZE_NOT_ALIGNED).step == CaptureStep::Done
            &&& retry.after(BUFFER_SIZE_NOT_ALIGNED).result == BUFFER_SIZE_NOT_ALIGNED
            &&& retry.after(S_OK).step == CaptureStep::CreateEvent
        }),
{
    let codes = seq![BUFFER_SIZE_NOT_ALIGNED, size, activate];
    let two = seq![BUFFER_SIZE_NOT_ALIGNED, size];
    let one = seq![BUFFER_SIZE_NOT_ALIGNED];
    assert(codes.drop_last() =~= two);
    assert(two.drop_last() =~= one);
    assert(one.drop_last() =~= Seq::<i32>::empty());
    reveal_with_fuel(ExclusiveCapture::after_all, 4);
    assert(c.after_all(one) == c.after(BUFFER_SIZE_NOT_ALIGNED));
    assert(c.after_all(two) == c.after_all(one).after(size));
    assert(c.after_all(codes) == c.after_all(two).after(activate));
}

/// What a packet is.
#[derive(Clone, Copy, Debug, PartialEq, Eq, Structural)]
pub enum Packet {
    /// No packet is queued: wait again.
    Drained,
    /// That many bytes of silence; the data pointer says nothing.
    Silence(u64),
    /// That many bytes of data.
    Data(u64),
}

/// What a packet of `frames` frames of `block` bytes is. The bit of value 2 in its
/// flags marks silence.
pub open spec fn packet_of(frames: u32, flags: u32, block: u32) -> Packet {
    if frames == 0 {
        Packet::Drained
    } else if flags / 2 % 2 == 1 {
        Packet::Silence((frames * block) as u64)
    } else {
        Packet::Data((frames * block) as u64)
    }
}

/// Tells what a packet is.
pub fn classify_packet(frames: u32, flags: u32, block: u32) -> (p: Packet)
    ensures
        p == packet_of(frames, flags, block),
{
    if frames == 0 {
        return Packet::Drained;
    }
    proof {
        assert(0 <= frames * block <= u32::MAX * u32::MAX) by (nonlinear_arith)
            requires
                0 <= frames <= u32::MAX,
                0 <= block <= u32::MAX,
        ;
    }
    let bytes: u64 = frames as u64 * block as u64;
    let silent: bool = (flags & 2) != 0;
    assert(((flags & 2) != 0) == (flags / 2 % 2 == 1)) by (bit_vector);
    if silent {
        Packet::Silence(bytes)
    } else {
        Packet::Data(bytes)
    }
}

/// What to do next while the client runs.
#[derive(Clone, Copy, Debug, PartialEq, Eq, Structural)]
pub enum StreamStep {
    /// Wait for the event, with a timeout.
    Wait,
    /// Fetch the next queued packet.
    Fetch,
    /// Push the packet into the ring.
    Push(Packet),
    /// Hand that many frames back.
    Release(u32),
    /// The stream has ended.
    Ended,
}

/// What came of it.
#[derive(Clone, Copy, Debug, PartialEq, Eq, Structural)]
pub enum StreamEvent {
    /// What the wait returned.
    Waited(u32),
    /// What the fetch returned: its code, and the packet's frames and flags.
    Fetched(i32, u32, u32),
    /// The packet is in the ring.
    Pushed,
    /// The code of handing the frames back.
    Released(i32),
}

/// A running stream between two actions.
#[derive(Clone, Copy, Debug, PartialEq, Eq, Structural)]
pub struct PacketStream {
    /// Bytes per frame.
    pub block: u32,
    /// What to do next.
    pub step: StreamStep,
    /// Frames of the packet in hand.
    pub frames: u32,
    /// What the stream ended with; negative if a call failed.
    pub result: i32,
}

impl PacketStream {
    /// A stream that has done nothing yet.
    pub open spec fn fresh(block: u32) -> Self {
        PacketStream { block, step: StreamStep::Wait, frames: 0, result: S_OK }
    }

    /// The same stream at another step.
    pub open spec fn at(self, step: StreamStep) -> Self {
        PacketStream { step, ..self }
    }

    /// The stream ended with `code`.
    pub open spec fn ended(self, code: i32) -> Self {
        PacketStream { step: StreamStep::Ended, result: code, ..self }
    }

    /// The stream after `event`. Only a signal keeps it going: a wait that ends
    /// otherwise is a clean stop. Every queued packet is pushed and handed back before
    /// the next wait. An event that does not belong to what was due changes nothing.
    pub open spec fn after(self, event: StreamEvent) -> Self {
        match (self.step, event) {
            (StreamStep::Wait, StreamEvent::Waited(w)) => if w == WAIT_SIGNALLED {
                self.at(StreamStep::Fetch)
            } else {
                self.ended(S_OK)
            },
            (StreamStep::Fetch, StreamEvent::Fetched(code, frames, flags)) => if failed(code) {
                self.ended(code)
            } else {
                match packet_of(frames, flags, self.block) {
                    Packet::Drained => self.at(StreamStep::Wait),
                    packet => (PacketStream { frames, ..self }).at(StreamStep::Push(packet)),
                }
            },
            (StreamStep::Push(_), StreamEvent::Pushed) => self.at(
                StreamStep::Release(self.frames),
            ),
            (StreamStep::Release(_), StreamEvent::Released(code)) => if failed(code) {
                self.ended(code)
            } else {
                self.at(StreamStep::Fetch)
            },
            _ => self,
        }
    }

    /// A packet that is to be pushed has frames, and those are handed back.
    pub open spec fn wf(self) -> bool {
        match self.step {
            StreamStep::Push(p) => p != Packet::Drained && self.frames > 0,
            StreamStep::Release(n) => n == self.frames && n > 0,
            _ => true,
        }
    }

    /// A new stream of frames of `block` bytes.
    pub fn new(block: u32) -> (s: Self)
        ensures
            s == PacketStream::fresh(block),
            s.wf(),
    {
        PacketStream { block, step: StreamStep::Wait, frames: 0, result: S_OK }
    }

    fn end(&mut self, code: i32)
        ensures
            *final(self) == old(self).ended(code),
    {
        self.step = StreamStep::Ended;
        self.result = code;
    }

    /// Takes what came of the action that was due.
    pub fn advance(&mut self, event: StreamEvent)
        requires
            old(self).wf(),
        ensures
            *final(self) == old(self).after(event),
            final(self).wf(),
    {
        match (self.step, event) {
            (StreamStep::Wait, StreamEvent::Waited(w)) => {
                if w == WAIT_SIGNALLED {
                    self.step = StreamStep::Fetch;
                } else {
                    self.end(S_OK);
                }
            },
            (StreamStep::Fetch, StreamEvent::Fetched(code, frames, flags)) => {
                if code < 0 {
                    self.end(code);
                } else {
                    match classify_packet(frames, flags, self.block) {
                        Packet::Drained => self.step = StreamStep::Wait,
                        packet => {
                            self.frames = frames;
                            self.step = StreamStep::Push(packet);
                        },
                    }
                }
            },
            (StreamStep::Push(_), StreamEvent::Pushed) => {
                self.step = StreamStep::Release(self.frames);
            },
            (StreamStep::Release(_), StreamEvent::Released(code)) => {
                if code < 0 {
                    self.end(code);
                } else {
                    self.step = StreamStep::Fetch;
                }
            },
            _ => {},
        }
    }
}

/// Every packet that was fetched with frames in it is pushed, then handed back whole,
/// before anything else is fetched or waited for.
pub proof fn packets_are_pushed_and_handed_back(s: PacketStream, code: i32, frames: u32, flags: u32)
    requires
        s.step == StreamStep::Fetch,
        !failed(code),
        frames > 0,
    ensures
        ({
            let held = s.after(StreamEvent::Fetched(code, frames, flags));
            &&& held.step == StreamStep::Push(packet_of(frames, flags, s.block))
            &&& held.after(StreamEvent::Pushed).step == StreamStep::Release(frames)
            &&& held.after(StreamEvent::Pushed).after(StreamEvent::Released(S_OK)).step
                == StreamStep::Fetch
        }),
{
}

/// A stream ends with success exactly if a wait was not signalled.
pub proof fn streams_end_cleanly_on_a_stall(s: PacketStream, event: StreamEvent)
    requires
        s.step != StreamStep::Ended,
        s.after(event).step == StreamStep::Ended,
    ensures
        s.after(event).result >= 0 <==> s.step == StreamStep::Wait,
        s.step == StreamStep::Wait ==> (event matches StreamEvent::Waited(w) && w
            != WAIT_SIGNALLED),
{
}

/// `n` bytes of silence.
pub open spec fn silence_of(n: nat) -> Seq<u8> {
    Seq::new(n, |i: int| 0u8)
}

/// Makes `silence` at least `bytes` long.
fn grow_silence(silence: &mut Vec<u8>, bytes: usize)
    requires
        old(silence)@ == silence_of(old(silence)@.len()),
    ensures
        final(silence)@ == silence_of(final(silence)@.len()),
        final(silence)@.len() == (if old(silence)@.len() < bytes {
            bytes as nat
        } else {
            old(silence)@.len()
        }),
{
    let ghost len0 = silence@.len();
    while silence.len() < bytes
        invariant
            silence@ == silence_of(silence@.len()),
            len0 <= silence@.len(),
            silence@.len() <= bytes || silence@.len() == len0,
        decreases bytes - silence@.len(),
    {
        silence.push(0);
        assert(silence@ =~= silence_of(silence@.len()));
    }
}

/// Pushes a packet of silence, so that the timeline stays continuous. `silence`
/// is kept between packets; it holds nothing but zeros.
pub fn push_silence(ring: &mut ShmAudioBuffer, silence: &mut Vec<u8>, bytes: usize)
    requires
        old(ring).wf(),
        old(silence)@ == silence_of(old(silence)@.len()),
    ensures
        final(ring).wf(),
        final(ring).cap() == old(ring).cap(),
        final(ring).region() == old(ring).region(),
        final(silence)@ == silence_of(final(silence)@.len()),
        exists|tail: u64, seq: u64|
            final(ring).trace() == old(ring).trace() + #[trigger] audio::push_trace(
                old(ring).cap() as int,
                tail,
                seq,
                silence_of(bytes as nat),
            ),
{
    grow_silence(silence, bytes);
    let zeros: &[u8] = &silence.as_slice()[0..bytes];
    assert(zeros@ =~= silence_of(bytes as nat));
    ring.push_overwrite(zeros);
}

/// A session in which no call fails makes its calls in this order: COM, the enumerator,
/// the endpoint, a client on it and its period come before the first candidate is probed.
pub proof fn probing_starts_with_a_client(a: i32, b: i32, c: i32, d: i32, e: i32)
    requires
        a >= 0,
        b >= 0,
        c >= 0,
        d >= 0,
        e >= 0,
    ensures
        ({
            let s = ExclusiveCapture::fresh();
            &&& s.step == CaptureStep::InitCom
            &&& s.after(a).step == CaptureStep::OpenEnumerator
            &&& s.after(a).after(b).step == CaptureStep::OpenDevice
            &&& s.after(a).after(b).after(c).step == CaptureStep::Activate
            &&& s.after(a).after(b).after(c).after(d).step == CaptureStep::QueryPeriod
            &&& s.after(a).after(b).after(c).after(d).after(e) == (ExclusiveCapture {
                step: CaptureStep::Probe(0),
                chosen: None,
                result: S_OK,
            })
        }),
{
}

/// Once a client is initialized, and while no call fails, it gets its event, its buffer is
/// asked for, its packets are opened, the format is published whatever that returns, and
/// the client is started and streams; the candidate stays the one that was accepted.
pub proof fn initialized_clients_are_started(
    s: ExclusiveCapture,
    a: i32,
    b: i32,
    c: i32,
    d: i32,
    e: i32,
    publish: i32,
    start: i32,
)
    requires
        s.step == CaptureStep::Initialize || s.step == CaptureStep::InitializeAligned,
        a >= 0,
        b >= 0,
        c >= 0,
        d >= 0,
        e >= 0,
        start >= 0,
    ensures
        ({
            let event = s.after(a);
            let set = event.after(b);
            let buffer = set.after(c);
            let service = buffer.after(d);
            let ready = service.after(e);
            let published = ready.after(publish);
            &&& event.step == CaptureStep::CreateEvent
            &&& set.step == CaptureStep::SetEvent
            &&& buffer.step == CaptureStep::QueryBuffer
            &&& service.step == CaptureStep::OpenCapture
            &&& ready.step == CaptureStep::Publish
            &&& published.step == CaptureStep::Start
            &&& published.after(start) == (ExclusiveCapture { step: CaptureStep::Stream, ..s })
        }),
{
}

/// Where a call must succeed, its failure ends the session with the code of the failure:
/// everywhere but where formats are probed, where the complaint is about alignment, where
/// the format is published, and where the client streams or is being stopped.
pub proof fn failures_end_the_session(s: ExclusiveCapture, code: i32)
    requires
        code < 0,
        !(s.step is Probe),
        s.step != CaptureStep::Publish,
        s.step != CaptureStep::Stream,
        s.step != CaptureStep::Stop,
        s.step != CaptureStep::CloseEvent,
        s.step != CaptureStep::Done,
        s.step == CaptureStep::Initialize ==> code != BUFFER_SIZE_NOT_ALIGNED,
    ensures
        s.after(code) == (ExclusiveCapture { step: CaptureStep::Done, result: code, ..s }),
{
}

/// A session that is over stays over, and a complaint about alignment is followed by the
/// question for the size, a fresh client, and its initialization.
pub proof fn finished_sessions_stay_finished(s: ExclusiveCapture, code: i32, size: i32, client: i32)
    requires
        size >= 0,
        client >= 0,
    ensures
        s.step == CaptureStep::Done ==> s.after(code) == s,
        s.step == CaptureStep::Initialize ==> {
            let asked = s.after(BUFFER_SIZE_NOT_ALIGNED);
            &&& asked == (ExclusiveCapture { step: CaptureStep::QueryAlignedSize, ..s })
            &&& asked.after(size) == (ExclusiveCapture { step: CaptureStep::Reactivate, ..s })
            &&& asked.after(size).after(client) == (ExclusiveCapture {
                step: CaptureStep::InitializeAligned,
                ..s
            })
        },
{
}

/// The formats are probed in pairs, each in the plain form and then in the extensible one,
/// and are otherwise the same in both. Stereo at 48 kHz comes first, and formats of 16 bits
/// before those of 32; every candidate is one that the ring carries.
pub proof fn candidates_come_in_pairs(i: int)
    requires
        0 <= i < 5,
    ensures
        ({
            let plain = candidate_at(2 * i);
            let extensible = candidate_at(2 * i + 1);
            &&& !plain.extensible
            &&& extensible == (Candidate { extensible: true, ..plain })
            &&& plain.rate == (if i == 1 {
                44_100int
            } else {
                48_000
            })
            &&& plain.channels == (if i == 2 {
                1int
            } else {
                2
            })
            &&& plain.bits == 16 <==> i < 3
            &&& plain.bits == 32 <==> i >= 3
            &&& plain.is_float <==> i == 4
            &&& wave::audio_format_of(wave::wave_of(plain)) is Some
            &&& wave::audio_format_of(wave::wave_of(plain)) == wave::audio_format_of(
                wave::wave_of(extensible),
            )
        }),
{
    lemma_candidates_fit(2 * i);
    lemma_candidates_fit(2 * i + 1);
    wave::built_formats_read_back(candidate_at(2 * i));
    wave::built_formats_read_back(candidate_at(2 * i + 1));
}

/// What a packet is: nothing if it has no frames; silence exactly if the second lowest bit
/// of its flags is set, and data otherwise; and as long as its frames are.
pub proof fn packets_are_as_long_as_their_frames(frames: u32, flags: u32, block: u32)
    ensures
        ({
            let p = packet_of(frames, flags, block);
            &&& p == Packet::Drained <==> frames == 0
            &&& frames > 0 ==> (p is Silence <==> flags & 2 != 0)
            &&& frames > 0 ==> (p is Data <==> flags & 2 == 0)
            &&& p matches Packet::Silence(n) ==> n == frames * block
            &&& p matches Packet::Data(n) ==> n == frames * block
        }),
{
    assert(((flags & 2) != 0) == (flags / 2 % 2 == 1)) by (bit_vector);
    assert(0 <= frames * block <= u32::MAX * u32::MAX) by (nonlinear_arith)
        requires
            0 <= frames <= u32::MAX,
            0 <= block <= u32::MAX,
    ;
}

/// A stream goes on as long as its waits are signalled and its calls succeed: a signal is
/// followed by a fetch, an empty queue by the next wait, and a failure ends the stream with
/// its code. What has ended stays so, the frame size stays as it is, and an event of another
/// kind than what is due changes nothing.
pub proof fn streams_go_on_while_signalled(
    s: PacketStream,
    event: StreamEvent,
    wait: u32,
    code: i32,
    frames: u32,
    flags: u32,
)
    ensures
        s.after(event).block == s.block,
        s.step == StreamStep::Ended ==> s.after(event) == s,
        s.step == StreamStep::Wait ==> s.after(StreamEvent::Waited(wait)) == (if wait == 0 {
            PacketStream { step: StreamStep::Fetch, ..s }
        } else {
            PacketStream { step: StreamStep::Ended, result: 0, ..s }
        }),
        s.step == StreamStep::Fetch && code < 0 ==> s.after(
            StreamEvent::Fetched(code, frames, flags),
        ) == (PacketStream { step: StreamStep::Ended, result: code, ..s }),
        s.step == StreamStep::Fetch && code >= 0 && frames == 0 ==> s.after(
            StreamEvent::Fetched(code, frames, flags),
        ) == (PacketStream { step: StreamStep::Wait, ..s }),
        s.step == StreamStep::Fetch && code >= 0 && frames > 0 ==> s.after(
            StreamEvent::Fetched(code, frames, flags),
        ).frames == frames,
        s.step is Release && code < 0 ==> s.after(StreamEvent::Released(code)) == (PacketStream {
            step: StreamStep::Ended,
            result: code,
            ..s
        }),
        s.step is Release && code >= 0 ==> s.after(StreamEvent::Released(code)) == (PacketStream {
            step: StreamStep::Fetch,
            ..s
        }),
        s.step == StreamStep::Wait && !(event is Waited) ==> s.after(event) == s,
        s.step == StreamStep::Fetch && !(event is Fetched) ==> s.after(event) == s,
        s.step is Push && !(event is Pushed) ==> s.after(event) == s,
        s.step is Release && !(event is Released) ==> s.after(event) == s,
{
}

/// Silence is as long as it is to be, and holds nothing but zeros.
pub proof fn silence_is_zeros(n: nat)
    ensures
        silence_of(n).len() == n,
        forall|i: int| 0 <= i < n ==> #[trigger] silence_of(n)[i] == 0,
{
}

} // verus!
