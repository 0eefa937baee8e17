//! Forwarding video frames into a named pipe, as a sequence of actions.
//!
//! [`Forwarder`] says what to do next and takes what came of it. The pipe is opened
//! without blocking, again and again until a reader is there. A frame goes out whole
//! or not at all: one of which the pipe took a part is finished before anything else
//! goes out. A reader that is behind costs frames, and no write ever blocks.

use crate::bits;
use vstd::prelude::*;

verus! {

/// The error of writing to a pipe without a reader.
pub const NO_READER: i32 = 32;

/// The error of creating a file that exists.
pub const FILE_EXISTS: i32 = 17;

/// Microseconds between two looks at the frame count.
pub const POLL_US: u64 = 500;

/// Microseconds between two attempts to open the pipe.
pub const REOPEN_US: u64 = 100_000;

/// Every that many dropped frames there is a message.
pub const DROP_REPORT_EVERY: u64 = 120;

/// `libc::EPIPE`, the error number of a pipe without a reader, which is 32 on Linux.
#[verifier::external_body]
fn epipe() -> (e: i32)
    ensures
        e == NO_READER,
{
    libc::EPIPE
}

/// `libc::EEXIST`, the error number of a file that exists, which is 17 on Linux.
#[verifier::external_body]
fn eexist() -> (e: i32)
    ensures
        e == FILE_EXISTS,
{
    libc::EEXIST
}

/// What became of a frame that was to be written.
#[derive(Clone, Copy, Debug, PartialEq, Eq, Structural)]
pub enum WriteOutcome {
    /// It went out whole.
    Wrote,
    /// That many bytes of it went out, and more are left.
    Partial(usize),
    /// It was dropped: no byte of it went out.
    Dropped,
    /// The reader has gone: no byte of it went out.
    ReaderGone,
}

/// Whether a frame may be written into a pipe of `pipe_size` bytes: it must fit into
/// what is free. `queued` is how many bytes wait in the pipe; where that or the size
/// is not known, the write decides.
pub fn frame_fits(pipe_size: i32, queued: Option<i32>, frame_len: usize) -> (yes: bool)
    ensures
        yes == (match queued {
            Some(q) if pipe_size > 0 => pipe_size - q >= frame_len,
            _ => true,
        }),
        pipe_size <= 0 || queued is None ==> yes,
        pipe_size > 0 ==> (queued matches Some(q) ==> (yes <==> q + frame_len <= pipe_size)),
{
    match queued {
        Some(q) => {
            if pipe_size > 0 {
                let free: i64 = pipe_size as i64 - q as i64;
                free >= 0 && free as u64 >= frame_len as u64
            } else {
                true
            }
        },
        None => true,
    }
}

/// What a write of `len` bytes came to: `written` is what the write returned, `errno`
/// the error if it failed. A write that took nothing is a drop, and a pipe without a
/// reader is a reader gone.
pub open spec fn outcome_of(written: int, len: int, errno: Option<i32>) -> WriteOutcome {
    if written == len {
        WriteOutcome::Wrote
    } else if 0 < written < len {
        WriteOutcome::Partial(written as usize)
    } else if written < 0 && errno == Some(NO_READER) {
        WriteOutcome::ReaderGone
    } else {
        WriteOutcome::Dropped
    }
}

/// Tells what a write of `len` bytes came to.
pub fn write_outcome(written: i64, len: usize, errno: Option<i32>) -> (o: WriteOutcome)
    ensures
        o == outcome_of(written as int, len as int, errno),
{
    if written >= 0 {
        if written as u64 == len as u64 {
            WriteOutcome::Wrote
        } else if written > 0 && (written as u64) < len as u64 {
            WriteOutcome::Partial(written as usize)
        } else {
            WriteOutcome::Dropped
        }
    } else {
        match errno {
            Some(e) => {
                if e == epipe() {
                    WriteOutcome::ReaderGone
                } else {
                    WriteOutcome::Dropped
                }
            },
            None => WriteOutcome::Dropped,
        }
    }
}

/// Whether the pipe is there after an attempt to create it: it was created, or
/// something was at that path before.
pub fn fifo_is_there(created: bool, errno: Option<i32>) -> (yes: bool)
    ensures
        yes == (created || errno == Some(FILE_EXISTS)),
{
    if created {
        return true;
    }
    match errno {
        Some(e) => e == eexist(),
        None => false,
    }
}

/// The size of a pipe buffer after an attempt to enlarge it: what the attempt gave
/// or, if it failed, what the pipe has, and 0 if that is not known either.
pub fn settled_pipe_size(enlarged: i32, current: i32) -> (n: usize)
    ensures
        n == (if enlarged >= 0 {
            enlarged as int
        } else if current >= 0 {
            current as int
        } else {
            0
        }),
{
    if enlarged >= 0 {
        enlarged as usize
    } else if current >= 0 {
        current as usize
    } else {
        0
    }
}

/// What to do next.
#[derive(Clone, Copy, Debug, PartialEq, Eq, Structural)]
pub enum ForwardStep {
    /// Open the pipe for writing, without blocking.
    OpenPipe,
    /// Enlarge the pipe buffer.
    SizePipe,
    /// Look at the frame count, to pass over the frames that nobody could read.
    SkipFrames,
    /// Wait before the next attempt to open the pipe.
    WaitForReader,
    /// Look at the frame count.
    Poll,
    /// Wait before the next look at the frame count.
    WaitForFrame,
    /// Wait before the fresh frame is read.
    Stagger,
    /// Copy the newest frame out of the ring.
    ReadFrame,
    /// Look at the frame count, to note that the frame was read.
    NoteFrame,
    /// Write the frame into the pipe, if it fits.
    WriteFrame,
    /// Write the rest of a frame of which a part went out.
    FinishFrame,
    /// Wait before the next attempt to write the rest.
    WaitForRoom,
    /// Close the pipe.
    ClosePipe,
}

/// What came of it.
#[derive(Clone, Copy, Debug, PartialEq, Eq, Structural)]
pub enum ForwardEvent {
    /// Whether the pipe could be opened.
    Opened(bool),
    /// The size of the pipe buffer.
    Sized(usize),
    /// The frame count.
    Count(u64),
    /// Whether a frame was copied intact.
    Read(bool),
    /// What became of the frame.
    Wrote(WriteOutcome),
    /// It is done.
    Done,
}

/// Something to tell the user.
#[derive(Clone, Copy, Debug, PartialEq, Eq, Structural)]
pub enum Notice {
    /// A reader is there, with a pipe buffer of that many bytes.
    Connected(usize),
    /// A reader is there, with a pipe buffer that is smaller than a frame; and the
    /// limit to raise it to.
    TooSmall(usize, usize),
    /// That many frames were dropped so far.
    Dropped(u64),
    /// The reader has gone.
    Disconnected,
}

/// The state of the forwarding between two actions.
#[derive(Clone, Copy, Debug, PartialEq, Eq, Structural)]
pub struct Forwarder {
    /// Bytes per frame.
    pub frame_size: usize,
    /// The pipe buffer to ask for.
    pub pipe_size: usize,
    /// How long to wait before a fresh frame is read.
    pub read_delay_us: u64,
    /// What to do next.
    pub step: ForwardStep,
    /// Whether the pipe is open.
    pub open: bool,
    /// Whether the user was told that the pipe buffer is too small.
    pub warned: bool,
    /// The frame count at which nothing new is there.
    pub last_count: u64,
    /// The frame count that was seen.
    pub seen_count: u64,
    /// Frames dropped because the reader was behind.
    pub dropped: u64,
    /// Bytes of an unfinished frame that are in the pipe.
    pub written: usize,
}

/// `limit` is what the pipe limit must be raised to: a power of two that holds a
/// frame, but no less than was asked for.
pub open spec fn is_limit_for(limit: usize, frame_size: usize, pipe_size: usize) -> bool {
    exists|p: int|
        #[trigger] bits::smallest_power_from(p, frame_size as int) && limit == (if p
            >= pipe_size {
            p
        } else {
            pipe_size as int
        })
}

impl Forwarder {
    /// The forwarding before anything was done, where `count` frames had been
    /// published.
    pub open spec fn fresh(
        frame_size: usize,
        pipe_size: usize,
        read_delay_us: u64,
        count: u64,
    ) -> Self {
        Forwarder {
            frame_size,
            pipe_size,
            read_delay_us,
            step: ForwardStep::OpenPipe,
            open: false,
            warned: false,
            last_count: count,
            seen_count: count,
            dropped: 0,
            written: 0,
        }
    }

    /// The same forwarding at another step.
    pub open spec fn at(self, step: ForwardStep) -> Self {
        Forwarder { step, ..self }
    }

    /// The pipe is open exactly from where it was opened to where it is closed; a
    /// frame is read only when the count moved; a frame is unfinished exactly while its
    /// rest is being written; and the largest frame has a power of two above it.
    pub open spec fn wf(self) -> bool {
        &&& self.frame_size <= usize::MAX / 2 + 1
        &&& self.open == (match self.step {
            ForwardStep::OpenPipe | ForwardStep::SkipFrames | ForwardStep::WaitForReader => false,
            _ => true,
        })
        &&& match self.step {
            ForwardStep::Stagger | ForwardStep::ReadFrame | ForwardStep::NoteFrame =>
            self.seen_count != self.last_count,
            _ => true,
        }
        &&& match self.step {
            ForwardStep::FinishFrame | ForwardStep::WaitForRoom => 0 < self.written
                < self.frame_size,
            _ => self.written == 0,
        }
    }

    /// `n` more bytes of the frame can have gone out without finishing it.
    pub open spec fn is_part(self, n: usize) -> bool {
        0 < n && self.written + n < self.frame_size
    }

    /// Whether a pipe buffer of `actual` bytes is reason for a warning: it is too small
    /// for a frame, and the user has not been told yet.
    pub open spec fn warns(self, actual: usize) -> bool {
        actual < self.frame_size && !self.warned
    }

    /// The forwarding after `event`. An event that does not belong to what was due
    /// changes nothing.
    pub open spec fn after(self, event: ForwardEvent) -> Self {
        match (self.step, event) {
            (ForwardStep::OpenPipe, ForwardEvent::Opened(true)) => (Forwarder {
                open: true,
                ..self
            }).at(ForwardStep::SizePipe),
            (ForwardStep::OpenPipe, ForwardEvent::Opened(false)) => self.at(
                ForwardStep::SkipFrames,
            ),
            (ForwardStep::SizePipe, ForwardEvent::Sized(actual)) => (Forwarder {
                warned: self.warned || self.warns(actual),
                ..self
            }).at(ForwardStep::Poll),
            (ForwardStep::SkipFrames, ForwardEvent::Count(n)) => (Forwarder {
                last_count: n,
                ..self
            }).at(ForwardStep::WaitForReader),
            (ForwardStep::WaitForReader, ForwardEvent::Done) => self.at(ForwardStep::OpenPipe),
            (ForwardStep::Poll, ForwardEvent::Count(n)) => if n == self.last_count {
                self.at(ForwardStep::WaitForFrame)
            } else {
                (Forwarder { seen_count: n, ..self }).at(
                    if self.read_delay_us > 0 {
                        ForwardStep::Stagger
                    } else {
                        ForwardStep::ReadFrame
                    },
                )
            },
            (ForwardStep::WaitForFrame, ForwardEvent::Done) => self.at(ForwardStep::Poll),
            (ForwardStep::Stagger, ForwardEvent::Done) => self.at(ForwardStep::ReadFrame),
            (ForwardStep::ReadFrame, ForwardEvent::Read(true)) => self.at(ForwardStep::NoteFrame),
            (ForwardStep::ReadFrame, ForwardEvent::Read(false)) => (Forwarder {
                last_count: self.seen_count,
                ..self
            }).at(ForwardStep::Poll),
            (ForwardStep::NoteFrame, ForwardEvent::Count(n)) => (Forwarder {
                last_count: n,
                ..self
            }).at(ForwardStep::WriteFrame),
            (ForwardStep::WriteFrame, ForwardEvent::Wrote(WriteOutcome::Wrote)) => self.at(
                ForwardStep::Poll,
            ),
            (ForwardStep::WriteFrame, ForwardEvent::Wrote(WriteOutcome::Dropped)) => (Forwarder {
                dropped: bits::one_more(self.dropped),
                ..self
            }).at(ForwardStep::Poll),
            (ForwardStep::WriteFrame, ForwardEvent::Wrote(WriteOutcome::ReaderGone)) => self.at(
                ForwardStep::ClosePipe,
            ),
            (
                ForwardStep::WriteFrame | ForwardStep::FinishFrame,
                ForwardEvent::Wrote(WriteOutcome::Partial(n)),
            ) => if self.is_part(n) {
                (Forwarder { written: (self.written + n) as usize, ..self }).at(
                    ForwardStep::FinishFrame,
                )
            } else {
                self
            },
            (ForwardStep::FinishFrame, ForwardEvent::Wrote(WriteOutcome::Wrote)) => (Forwarder {
                written: 0,
                ..self
            }).at(ForwardStep::Poll),
            (ForwardStep::FinishFrame, ForwardEvent::Wrote(WriteOutcome::Dropped)) => self.at(
                ForwardStep::WaitForRoom,
            ),
            (ForwardStep::FinishFrame, ForwardEvent::Wrote(WriteOutcome::ReaderGone)) => (
            Forwarder { written: 0, ..self }).at(ForwardStep::ClosePipe),
            (ForwardStep::WaitForRoom, ForwardEvent::Done) => self.at(ForwardStep::FinishFrame),
            (ForwardStep::ClosePipe, ForwardEvent::Done) => (Forwarder { open: false, ..self }).at(
                ForwardStep::OpenPipe,
            ),
            _ => self,
        }
    }

    /// The forwarding after `events`.
    pub open spec fn after_all(self, events: Seq<ForwardEvent>) -> Self
        decreases events.len(),
    {
        if events.len() == 0 {
            self
        } else {
            self.after_all(events.drop_last()).after(events.last())
        }
    }

    /// Whether `notice` is what there is to say about `event`: a connection, with a
    /// warning if the pipe buffer is too small; the first dropped frame and every
    /// hundred and twentieth; a reader that has gone.
    pub open spec fn notices(self, event: ForwardEvent, notice: Option<Notice>) -> bool {
        match (self.step, event) {
            (ForwardStep::SizePipe, ForwardEvent::Sized(actual)) => if self.warns(actual) {
                notice matches Some(Notice::TooSmall(a, limit)) && a == actual && is_limit_for(
                    limit,
                    self.frame_size,
                    self.pipe_size,
                )
            } else {
                notice == Some(Notice::Connected(actual))
            },
            (ForwardStep::WriteFrame, ForwardEvent::Wrote(WriteOutcome::Dropped)) => {
                let n = bits::one_more(self.dropped);
                notice == (if n == 1 || n % DROP_REPORT_EVERY == 0 {
                    Some(Notice::Dropped(n))
                } else {
                    None
                })
            },
            (ForwardStep::ClosePipe, ForwardEvent::Done) => notice == Some(Notice::Disconnected),
            _ => notice is None,
        }
    }

    /// Starts forwarding frames of `frame_size` bytes, where `count` frames have been
    /// published already.
    pub fn new(frame_size: usize, pipe_size: usize, read_delay_us: u64, count: u64) -> (f: Self)
        requires
            frame_size <= usize::MAX / 2 + 1,
        ensures
            f == Forwarder::fresh(frame_size, pipe_size, read_delay_us, count),
            f.wf(),
    {
        Forwarder {
            frame_size,
            pipe_size,
            read_delay_us,
            step: ForwardStep::OpenPipe,
            open: false,
            warned: false,
            last_count: count,
            seen_count: count,
            dropped: 0,
            written: 0,
        }
    }

    /// What the pipe limit must be raised to for a frame to fit.
    fn needed_limit(&self) -> (n: usize)
        requires
            self.frame_size <= usize::MAX / 2 + 1,
        ensures
            is_limit_for(n, self.frame_size, self.pipe_size),
    {
        let p: usize = bits::next_power_of_two(self.frame_size);
        assert(bits::smallest_power_from(p as int, self.frame_size as int));
        if p >= self.pipe_size {
            p
        } else {
            self.pipe_size
        }
    }

    /// Takes note of a part of the frame that went out.
    fn note_part(&mut self, n: usize)
        requires
            old(self).written <= old(self).frame_size,
        ensures
            *final(self) == (if old(self).is_part(n) {
                (Forwarder { written: (old(self).written + n) as usize, ..*old(self) }).at(
                    ForwardStep::FinishFrame,
                )
            } else {
                *old(self)
            }),
    {
        if 0 < n && n < self.frame_size - self.written {
            self.written = self.written + n;
            self.step = ForwardStep::FinishFrame;
        }
    }

    /// Takes what came of the action that was due, and gives what there is to tell
    /// the user.
    pub fn advance(&mut self, event: ForwardEvent) -> (notice: Option<Notice>)
        requires
            old(self).wf(),
        ensures
            *final(self) == old(self).after(event),
            final(self).wf(),
            old(self).notices(event, notice),
    {
        match (self.step, event) {
            (ForwardStep::OpenPipe, ForwardEvent::Opened(yes)) => {
                if yes {
                    self.open = true;
                    self.step = ForwardStep::SizePipe;
                } else {
                    self.step = ForwardStep::SkipFrames;
                }
                None
            },
            (ForwardStep::SizePipe, ForwardEvent::Sized(actual)) => {
                self.step = ForwardStep::Poll;
                if actual < self.frame_size && !self.warned {
                    self.warned = true;
                    Some(Notice::TooSmall(actual, self.needed_limit()))
                } else {
                    Some(Notice::Connected(actual))
                }
            },
            (ForwardStep::SkipFrames, ForwardEvent::Count(n)) => {
                self.last_count = n;
                self.step = ForwardStep::WaitForReader;
                None
            },
            (ForwardStep::WaitForReader, ForwardEvent::Done) => {
                self.step = ForwardStep::OpenPipe;
                None
            },
            (ForwardStep::Poll, ForwardEvent::Count(n)) => {
                if n == self.last_count {
                    self.step = ForwardStep::WaitForFrame;
                } else {
                    self.seen_count = n;
                    self.step = if self.read_delay_us > 0 {
                        ForwardStep::Stagger
                    } else {
                        ForwardStep::ReadFrame
                    };
                }
                None
            },
            (ForwardStep::WaitForFrame, ForwardEvent::Done) => {
                self.step = ForwardStep::Poll;
                None
            },
            (ForwardStep::Stagger, ForwardEvent::Done) => {
                self.step = ForwardStep::ReadFrame;
                None
            },
            (ForwardStep::ReadFrame, ForwardEvent::Read(intact)) => {
                if intact {
                    self.step = ForwardStep::NoteFrame;
                } else {
                    self.last_count = self.seen_count;
                    self.step = ForwardStep::Poll;
                }
                None
            },
            (ForwardStep::NoteFrame, ForwardEvent::Count(n)) => {
                self.last_count = n;
                self.step = ForwardStep::WriteFrame;
                None
            },
            (ForwardStep::WriteFrame, ForwardEvent::Wrote(outcome)) => match outcome {
                WriteOutcome::Wrote => {
                    self.step = ForwardStep::Poll;
                    None
                },
                WriteOutcome::Dropped => {
                    self.step = ForwardStep::Poll;
                    if self.dropped < u64::MAX {
                        self.dropped = self.dropped + 1;
                    }
                    if self.dropped == 1 || self.dropped % DROP_REPORT_EVERY == 0 {
                        Some(Notice::Dropped(self.dropped))
                    } else {
                        None
                    }
                },
                WriteOutcome::ReaderGone => {
                    self.step = ForwardStep::ClosePipe;
                    None
                },
                WriteOutcome::Partial(n) => {
                    self.note_part(n);
                    None
                },
            },
            (ForwardStep::FinishFrame, ForwardEvent::Wrote(outcome)) => {
                match outcome {
                    WriteOutcome::Wrote => {
                        self.written = 0;
                        self.step = ForwardStep::Poll;
                    },
                    WriteOutcome::Dropped => self.step = ForwardStep::WaitForRoom,
                    WriteOutcome::ReaderGone => {
                        self.written = 0;
                        self.step = ForwardStep::ClosePipe;
                    },
                    WriteOutcome::Partial(n) => self.note_part(n),
                }
                None
            },
            (ForwardStep::WaitForRoom, ForwardEvent::Done) => {
                self.step = ForwardStep::FinishFrame;
                None
            },
            (ForwardStep::ClosePipe, ForwardEvent::Done) => {
                self.open = false;
                self.step = ForwardStep::OpenPipe;
                Some(Notice::Disconnected)
            },
            _ => None,
        }
    }

    /// How long to sleep where waiting is due, in microseconds.
    pub fn pause_us(&self) -> (us: u64)
        ensures
            us == (match self.step {
                ForwardStep::WaitForReader => REOPEN_US,
                ForwardStep::WaitForFrame => POLL_US,
                ForwardStep::WaitForRoom => POLL_US,
                ForwardStep::Stagger => self.read_delay_us,
                _ => 0,
            }),
    {
        match self.step {
            ForwardStep::WaitForReader => REOPEN_US,
            ForwardStep::WaitForFrame => POLL_US,
            ForwardStep::WaitForRoom => POLL_US,
            ForwardStep::Stagger => self.read_delay_us,
            _ => 0,
        }
    }
}

proof fn lemma_forwarding_is_wf(f: Forwarder, events: Seq<ForwardEvent>)
    requires
        f.wf(),
    ensures
        f.after_all(events).wf(),
        f.after_all(events).frame_size == f.frame_size,
        f.after_all(events).read_delay_us == f.read_delay_us,
    decreases events.len(),
{
    if events.len() > 0 {
        lemma_forwarding_is_wf(f, events.drop_last());
    }
}

/// A frame is written only through an open pipe, and only one that was noted: what
/// comes before a write is the count that notes the frame.
pub proof fn only_noted_frames_are_written(f: Forwarder, events: Seq<ForwardEvent>)
    requires
        f.wf(),
        f.step == ForwardStep::OpenPipe,
        f.after_all(events).step == ForwardStep::WriteFrame,
        f.after_all(events.drop_last()).step != ForwardStep::WriteFrame,
    ensures
        f.after_all(events).open,
        events.len() >= 2,
        f.after_all(events.drop_last()).step == ForwardStep::NoteFrame,
        events.last() == ForwardEvent::Count(f.after_all(events).last_count),
{
    lemma_forwarding_is_wf(f, events);
    lemma_forwarding_is_wf(f, events.drop_last());
    assert(f.after_all(events) == f.after_all(events.drop_last()).after(events.last()));
    if events.len() == 1 {
        assert(f.after_all(events.drop_last()) == f);
    }
}

/// A frame is noted only if it was copied intact.
pub proof fn only_intact_frames_are_noted(f: Forwarder, event: ForwardEvent)
    requires
        f.step != ForwardStep::NoteFrame,
        f.after(event).step == ForwardStep::NoteFrame,
    ensures
        f.step == ForwardStep::ReadFrame,
        event == ForwardEvent::Read(true),
{
}

/// Frames that were published while no reader was there are passed over: when a
/// reader comes, a frame is read only once the count moves past the one that was
/// seen in the last attempt without a reader.
pub proof fn stale_frames_are_passed_over(f: Forwarder, count: u64, actual: usize, later: u64)
    requires
        f.step == ForwardStep::OpenPipe,
    ensures
        ({
            let waiting = f.after(ForwardEvent::Opened(false)).after(ForwardEvent::Count(count));
            let connected = waiting.after(ForwardEvent::Done).after(
                ForwardEvent::Opened(true),
            ).after(ForwardEvent::Sized(actual));
            &&& waiting.step == ForwardStep::WaitForReader
            &&& connected.step == ForwardStep::Poll
            &&& connected.last_count == count
            &&& connected.after(ForwardEvent::Count(later)).step == ForwardStep::WaitForFrame
                <==> later == count
        }),
{
}

/// The user is told at most once that the pipe buffer is too small: a warning is
/// given only while none has been, and from then on none is.
pub proof fn small_pipe_is_reported_once(f: Forwarder, event: ForwardEvent, notice: Option<Notice>)
    requires
        f.notices(event, notice),
    ensures
        notice matches Some(Notice::TooSmall(_, _)) ==> !f.warned && f.after(event).warned,
        f.warned ==> f.after(event).warned,
{
}

/// How many of `events` report a dropped frame while a write was due.
pub open spec fn drops(f: Forwarder, events: Seq<ForwardEvent>) -> int
    decreases events.len(),
{
    if events.len() == 0 {
        0
    } else {
        drops(f, events.drop_last()) + if f.after_all(events.drop_last()).step
            == ForwardStep::WriteFrame && events.last() == ForwardEvent::Wrote(
            WriteOutcome::Dropped,
        ) {
            1int
        } else {
            0
        }
    }
}

/// The count of dropped frames is the number of frames that were dropped, as long as
/// it fits.
pub proof fn every_drop_is_counted(f: Forwarder, events: Seq<ForwardEvent>)
    requires
        f.dropped + drops(f, events) <= u64::MAX,
    ensures
        f.after_all(events).dropped == f.dropped + drops(f, events),
        drops(f, events) >= 0,
    decreases events.len(),
{
    if events.len() > 0 {
        lemma_drops_grow(f, events.drop_last());
        every_drop_is_counted(f, events.drop_last());
    }
}

proof fn lemma_drops_grow(f: Forwarder, events: Seq<ForwardEvent>)
    ensures
        drops(f, events) >= 0,
    decreases events.len(),
{
    if events.len() > 0 {
        lemma_drops_grow(f, events.drop_last());
    }
}

/// How many bytes went into the pipe since it was opened.
pub open spec fn piped(f: Forwarder, events: Seq<ForwardEvent>) -> int
    decreases events.len(),
{
    if events.len() == 0 {
        0
    } else {
        let g = f.after_all(events.drop_last());
        let before = piped(f, events.drop_last());
        match (g.step, events.last()) {
            (ForwardStep::OpenPipe, ForwardEvent::Opened(true)) => 0,
            (
                ForwardStep::WriteFrame | ForwardStep::FinishFrame,
                ForwardEvent::Wrote(WriteOutcome::Wrote),
            ) => before + g.frame_size - g.written,
            (
                ForwardStep::WriteFrame | ForwardStep::FinishFrame,
                ForwardEvent::Wrote(WriteOutcome::Partial(n)),
            ) => if g.is_part(n) {
                before + n
            } else {
                before
            },
            _ => before,
        }
    }
}

/// How many frames went out whole since the pipe was opened.
pub open spec fn whole_frames_piped(f: Forwarder, events: Seq<ForwardEvent>) -> int
    decreases events.len(),
{
    if events.len() == 0 {
        0
    } else {
        let g = f.after_all(events.drop_last());
        let before = whole_frames_piped(f, events.drop_last());
        match (g.step, events.last()) {
            (ForwardStep::OpenPipe, ForwardEvent::Opened(true)) => 0,
            (
                ForwardStep::WriteFrame | ForwardStep::FinishFrame,
                ForwardEvent::Wrote(WriteOutcome::Wrote),
            ) => before + 1,
            _ => before,
        }
    }
}

/// The pipe carries whole frames only. What went into it since it was opened is a whole
/// number of frames and the part of the frame that is being finished, and a next frame
/// is looked for, read and written only when there is no such part: a reader never loses
/// the frame boundaries. Only the pipe of a reader that has gone may end within a frame,
/// and it is closed.
pub proof fn the_pipe_carries_whole_frames(f: Forwarder, events: Seq<ForwardEvent>)
    requires
        f.wf(),
        f.step == ForwardStep::OpenPipe,
    ensures
        ({
            let g = f.after_all(events);
            &&& g.wf()
            &&& g.open ==> piped(f, events) == whole_frames_piped(f, events) * g.frame_size
                + g.written || g.step == ForwardStep::ClosePipe
            &&& g.step != ForwardStep::FinishFrame && g.step != ForwardStep::WaitForRoom
                ==> g.written == 0
        }),
    decreases events.len(),
{
    if events.len() > 0 {
        let before = events.drop_last();
        the_pipe_carries_whole_frames(f, before);
        let g = f.after_all(before);
        let n = whole_frames_piped(f, before);
        let size = g.frame_size as int;
        assert(f.after_all(events) == g.after(events.last()));
        assert((n + 1) * size == n * size + size) by (nonlinear_arith);
        assert(0 * size == 0);
    } else {
        assert(0 * (f.frame_size as int) == 0);
    }
}

/// A reader that is behind never stops the forwarding: after a frame was dropped the
/// next thing to do is to look for another, without waiting.
pub proof fn a_slow_reader_never_blocks(f: Forwarder)
    requires
        f.step == ForwardStep::WriteFrame,
    ensures
        f.after(ForwardEvent::Wrote(WriteOutcome::Dropped)).step == ForwardStep::Poll,
        f.after(ForwardEvent::Wrote(WriteOutcome::Dropped)).open == f.open,
{
}

/// What a write came to: it went out whole exactly if all bytes were taken, in part
/// exactly if some but not all were, the reader has gone exactly if the write failed with
/// that error, and in every other case the frame was dropped.
pub proof fn writes_are_what_was_taken(written: int, len: int, errno: Option<i32>)
    requires
        0 <= len <= usize::MAX,
    ensures
        ({
            let o = outcome_of(written, len, errno);
            &&& o == WriteOutcome::Wrote <==> written == len
            &&& o is Partial <==> 0 < written < len
            &&& o matches WriteOutcome::Partial(n) ==> n == written
            &&& o == WriteOutcome::ReaderGone <==> written < 0 && errno == Some(32i32)
            &&& o == WriteOutcome::Dropped <==> (written < 0 && errno != Some(32i32)) || written
                > len || (written == 0 && len != 0)
        }),
{
}

/// A frame that has not been seen yet is read, after the delay if there is one, noted and
/// written; the count at which it was noted is the one beyond which the next frame is
/// looked for.
pub proof fn a_fresh_frame_is_forwarded(f: Forwarder, seen: u64, noted: u64)
    requires
        f.step == ForwardStep::Poll,
        seen != f.last_count,
    ensures
        ({
            let polled = f.after(ForwardEvent::Count(seen));
            let due = if f.read_delay_us > 0 {
                polled.after(ForwardEvent::Done)
            } else {
                polled
            };
            let copied = due.after(ForwardEvent::Read(true));
            let ready = copied.after(ForwardEvent::Count(noted));
            let gone = ready.after(ForwardEvent::Wrote(WriteOutcome::Wrote));
            &&& f.read_delay_us > 0 ==> polled.step == ForwardStep::Stagger
            &&& due.step == ForwardStep::ReadFrame
            &&& copied.step == ForwardStep::NoteFrame
            &&& ready == (Forwarder {
                step: ForwardStep::WriteFrame,
                last_count: noted,
                seen_count: seen,
                ..f
            })
            &&& gone == (Forwarder { step: ForwardStep::Poll, ..ready })
        }),
{
}

/// A frame that was overtaken while it was copied is not looked for again: the next one
/// is. And a count that has not moved is looked at again after a pause.
pub proof fn nothing_is_read_twice(f: Forwarder, seen: u64)
    requires
        f.step == ForwardStep::Poll,
    ensures
        seen != f.last_count ==> {
            let polled = f.after(ForwardEvent::Count(seen));
            let due = if f.read_delay_us > 0 {
                polled.after(ForwardEvent::Done)
            } else {
                polled
            };
            let missed = due.after(ForwardEvent::Read(false));
            &&& missed == (Forwarder { last_count: seen, seen_count: seen, ..f })
            &&& missed.after(ForwardEvent::Count(seen)).step == ForwardStep::WaitForFrame
        },
        seen == f.last_count ==> {
            let idle = f.after(ForwardEvent::Count(seen));
            &&& idle == (Forwarder { step: ForwardStep::WaitForFrame, ..f })
            &&& idle.after(ForwardEvent::Done) == f
        },
{
}

/// What becomes of a write that was not whole: a dropped frame is counted and the next one
/// looked for; a reader that has gone has its pipe closed, and another is waited for; a
/// frame of which a part went out is finished, part by part, with a pause where the pipe
/// takes nothing, before the next one is looked for.
pub proof fn unfinished_writes_are_followed_up(f: Forwarder, n: usize, k: usize)
    requires
        f.wf(),
        f.step == ForwardStep::WriteFrame,
        0 < n < f.frame_size,
    ensures
        ({
            let dropped = f.after(ForwardEvent::Wrote(WriteOutcome::Dropped));
            let gone = f.after(ForwardEvent::Wrote(WriteOutcome::ReaderGone));
            let part = f.after(ForwardEvent::Wrote(WriteOutcome::Partial(n)));
            let stuck = part.after(ForwardEvent::Wrote(WriteOutcome::Dropped));
            let more = part.after(ForwardEvent::Wrote(WriteOutcome::Partial(k)));
            let lost = part.after(ForwardEvent::Wrote(WriteOutcome::ReaderGone));
            &&& f.dropped < u64::MAX ==> dropped == (Forwarder {
                step: ForwardStep::Poll,
                dropped: (f.dropped + 1) as u64,
                ..f
            })
            &&& f.dropped == u64::MAX ==> dropped == (Forwarder { step: ForwardStep::Poll, ..f })
            &&& gone == (Forwarder { step: ForwardStep::ClosePipe, ..f })
            &&& gone.after(ForwardEvent::Done) == (Forwarder {
                step: ForwardStep::OpenPipe,
                open: false,
                ..f
            })
            &&& part == (Forwarder { step: ForwardStep::FinishFrame, written: n, ..f })
            &&& part.after(ForwardEvent::Wrote(WriteOutcome::Wrote)) == (Forwarder {
                step: ForwardStep::Poll,
                ..f
            })
            &&& stuck == (Forwarder { step: ForwardStep::WaitForRoom, ..part })
            &&& stuck.after(ForwardEvent::Done) == part
            &&& 0 < k && n + k < f.frame_size ==> more == (Forwarder {
                written: (n + k) as usize,
                ..part
            })
            &&& k == 0 || n + k >= f.frame_size ==> more == part
            &&& k == 0 || k >= f.frame_size ==> f.after(
                ForwardEvent::Wrote(WriteOutcome::Partial(k)),
            ) == f
            &&& lost == gone
        }),
{
}

/// A pipe that cannot be opened is tried again after a pause, and frames meanwhile are
/// passed over; one that can be opened is sized, and then frames are looked for.
pub proof fn pipes_are_opened_until_a_reader_is_there(f: Forwarder, count: u64, actual: usize)
    requires
        f.step == ForwardStep::OpenPipe,
    ensures
        ({
            let alone = f.after(ForwardEvent::Opened(false));
            let passed = alone.after(ForwardEvent::Count(count));
            let opened = f.after(ForwardEvent::Opened(true));
            let sized = opened.after(ForwardEvent::Sized(actual));
            &&& alone == (Forwarder { step: ForwardStep::SkipFrames, ..f })
            &&& passed == (Forwarder {
                step: ForwardStep::WaitForReader,
                last_count: count,
                ..f
            })
            &&& passed.after(ForwardEvent::Done) == (Forwarder { last_count: count, ..f })
            &&& opened == (Forwarder { step: ForwardStep::SizePipe, open: true, ..f })
            &&& sized == (Forwarder {
                step: ForwardStep::Poll,
                open: true,
                warned: f.warned || actual < f.frame_size,
                ..f
            })
        }),
{
}

/// What was asked for never changes, and an event of another kind than what is due
/// changes nothing.
pub proof fn only_what_was_due_counts(f: Forwarder, event: ForwardEvent)
    ensures
        ({
            let g = f.after(event);
            let due = match f.step {
                ForwardStep::OpenPipe => event is Opened,
                ForwardStep::SizePipe => event is Sized,
                ForwardStep::SkipFrames | ForwardStep::Poll | ForwardStep::NoteFrame => event is Count,
                ForwardStep::ReadFrame => event is Read,
                ForwardStep::WriteFrame | ForwardStep::FinishFrame => event is Wrote,
                _ => event is Done,
            };
            &&& g.frame_size == f.frame_size
            &&& g.pipe_size == f.pipe_size
            &&& g.read_delay_us == f.read_delay_us
            &&& !due ==> g == f
        }),
{
}

/// What the user is told: of a reader that is there with the size of its pipe buffer, once
/// that a buffer is too small and what would do, of the first drop and of every hundred
/// and twentieth, of a reader that has gone, and of nothing else.
pub proof fn notices_are_these(f: Forwarder, event: ForwardEvent, notice: Option<Notice>)
    requires
        f.notices(event, notice),
        f.dropped < u64::MAX,
    ensures
        ({
            let sized = f.step == ForwardStep::SizePipe && event is Sized;
            let dropped = f.step == ForwardStep::WriteFrame && event == ForwardEvent::Wrote(
                WriteOutcome::Dropped,
            );
            let closed = f.step == ForwardStep::ClosePipe && event == ForwardEvent::Done;
            &&& sized && (event->Sized_0 >= f.frame_size || f.warned) ==> notice == Some(
                Notice::Connected(event->Sized_0),
            )
            &&& sized && event->Sized_0 < f.frame_size && !f.warned ==> {
                notice matches Some(Notice::TooSmall(actual, limit)) && actual == event->Sized_0
                    && limit >= f.frame_size && limit >= f.pipe_size && (limit == f.pipe_size || (
                bits::power_of_two(limit as int) && limit < 2 * f.frame_size))
            }
            &&& dropped && (f.dropped == 0 || (f.dropped + 1) % 120 == 0) ==> notice == Some(
                Notice::Dropped((f.dropped + 1) as u64),
            )
            &&& dropped && f.dropped != 0 && (f.dropped + 1) % 120 != 0 ==> notice is None
            &&& closed ==> notice == Some(Notice::Disconnected)
            &&& !sized && !dropped && !closed ==> notice is None
        }),
{
    if f.step == ForwardStep::SizePipe && event is Sized && f.warns(event->Sized_0) {
        if let Some(Notice::TooSmall(_, limit)) = notice {
            let p = choose|p: int|
                #[trigger] bits::smallest_power_from(p, f.frame_size as int) && limit == (if p
                    >= f.pipe_size {
                    p
                } else {
                    f.pipe_size as int
                });
            bits::nearest_powers_are_within_a_double(p, f.frame_size as int);
        }
    }
}

/// A forwarding starts with the pipe to be opened and nothing counted but the frames that
/// were there before.
pub proof fn forwarding_starts_at_the_pipe(
    frame_size: usize,
    pipe_size: usize,
    read_delay_us: u64,
    count: u64,
)
    ensures
        ({
            let f = Forwarder::fresh(frame_size, pipe_size, read_delay_us, count);
            &&& f.frame_size == frame_size
            &&& f.pipe_size == pipe_size
            &&& f.read_delay_us == read_delay_us
            &&& f.step == ForwardStep::OpenPipe
            &&& f.last_count == count
            &&& !f.open && !f.warned && f.dropped == 0 && f.written == 0
        }),
{
}

} // verus!
