//! Capture of a capture card through a filter graph, as a sequence of calls.
//!
//! [`GraphSetup`] says which call comes next and takes its result code; the caller
//! makes the calls. Some calls may fail without ending the setup: a video device
//! that is not there costs the video only. Audio comes from the audio device that the
//! user named; where none was named it is routed from the video device if that has an
//! audio pin, and from a device of its own otherwise.

use vstd::prelude::*;

verus! {

/// A call that did what it was asked to.
pub const GRAPH_OK: i32 = 0;

/// An unspecified failure (`E_FAIL`).
pub const GRAPH_FAILURE: i32 = -2147467259;

/// What becomes of video that nobody forwards.
#[derive(Clone, Copy, Debug, PartialEq, Eq, Structural)]
pub enum Renderer {
    /// It is discarded, without a window.
    Null,
    /// It is shown in a window.
    Window,
}

/// The call to make next.
#[derive(Clone, Copy, Debug, PartialEq, Eq, Structural)]
pub enum GraphStep {
    /// Initialize COM.
    InitCom,
    /// Create the filter graph.
    CreateGraph,
    /// Create the capture graph builder.
    CreateBuilder,
    /// Attach the builder to the graph.
    SetFiltergraph,
    /// Ask the graph for its media control.
    QueryControl,
    /// Find and bind the video device.
    FindVideo,
    /// Add the video device to the graph.
    AddVideo,
    /// Create the audio sample grabber.
    CreateGrabber,
    /// Ask that filter for its grabber interface.
    QueryGrabber,
    /// Ask the grabber for uncompressed audio.
    SetGrabberType,
    /// Let the grabber run on after the first sample.
    SetOneShot,
    /// Keep the grabber from buffering samples.
    SetBuffering,
    /// Add the grabber to the graph.
    AddGrabber,
    /// Create the null renderer that ends the audio branch.
    CreateNull,
    /// Add that renderer to the graph.
    AddNull,
    /// Route audio from the video device to the grabber.
    RouteFromVideo,
    /// Find and bind a separate audio device.
    FindAudio,
    /// Add the audio device to the graph.
    AddAudio,
    /// Route audio from the audio device to the grabber.
    RouteFromAudio,
    /// Create the video sample grabber.
    CreateVideoGrabber,
    /// Ask that filter for its grabber interface.
    QueryVideoGrabber,
    /// Ask the video grabber for its preferred pixel format.
    SetVideoType,
    /// Let the video grabber run on after the first frame.
    SetVideoOneShot,
    /// Keep the video grabber from buffering frames.
    SetVideoBuffering,
    /// Add the video grabber to the graph.
    AddVideoGrabber,
    /// Create the null renderer that ends the video branch.
    CreateVideoNull,
    /// Add that renderer to the graph.
    AddVideoNull,
    /// Route video to the video grabber.
    RouteVideo,
    /// Ask for the video type that was negotiated.
    QueryVideoType,
    /// Read the geometry out of it.
    ParseVideoType,
    /// Publish the geometry in the video region.
    PublishGeometry,
    /// Hand the video callback to its grabber.
    SetVideoCallback,
    /// Create the null renderer for frames that nobody wants.
    CreateKeepNull,
    /// Add that renderer to the graph.
    AddKeepNull,
    /// Render the video, to keep the device streaming.
    RenderKeepAlive,
    /// Ask for the audio type that was negotiated.
    QueryAudioType,
    /// Read the format out of it.
    ParseAudioType,
    /// Publish the format in the ring.
    PublishFormat,
    /// Hand the audio callback to its grabber.
    SetCallback,
    /// Run the graph.
    Run,
    /// The graph runs; nothing is left to do.
    Running,
    /// The setup failed.
    Failed,
}

/// A graph between two calls of its setup.
#[derive(Clone, Copy, Debug, PartialEq, Eq, Structural)]
pub struct GraphSetup {
    /// How to keep the video device streaming, if that was asked for.
    pub renderer: Option<Renderer>,
    /// Whether frames are to be forwarded.
    pub passthrough: bool,
    /// Whether the user named an audio device.
    pub named_audio: bool,
    /// The call to make next.
    pub step: GraphStep,
    /// Whether a video device is in the graph.
    pub has_video: bool,
    /// Whether audio has been routed to the grabber.
    pub has_audio: bool,
    /// Whether frames are forwarded.
    pub forwards_video: bool,
    /// What the setup ends with; negative if it failed.
    pub result: i32,
}

/// The step after `s` where `s` must succeed and nothing has to be decided.
pub open spec fn graph_successor(s: GraphStep) -> GraphStep {
    match s {
        GraphStep::InitCom => GraphStep::CreateGraph,
        GraphStep::CreateGraph => GraphStep::CreateBuilder,
        GraphStep::CreateBuilder => GraphStep::SetFiltergraph,
        GraphStep::SetFiltergraph => GraphStep::QueryControl,
        GraphStep::AddVideo => GraphStep::CreateGrabber,
        GraphStep::CreateGrabber => GraphStep::QueryGrabber,
        GraphStep::QueryGrabber => GraphStep::SetGrabberType,
        GraphStep::SetGrabberType => GraphStep::SetOneShot,
        GraphStep::SetOneShot => GraphStep::SetBuffering,
        GraphStep::SetBuffering => GraphStep::AddGrabber,
        GraphStep::AddGrabber => GraphStep::CreateNull,
        GraphStep::CreateNull => GraphStep::AddNull,
        GraphStep::FindAudio => GraphStep::AddAudio,
        GraphStep::AddAudio => GraphStep::RouteFromAudio,
        GraphStep::CreateVideoGrabber => GraphStep::QueryVideoGrabber,
        GraphStep::QueryVideoGrabber => GraphStep::SetVideoType,
        GraphStep::SetVideoType => GraphStep::SetVideoOneShot,
        GraphStep::SetVideoOneShot => GraphStep::SetVideoBuffering,
        GraphStep::SetVideoBuffering => GraphStep::AddVideoGrabber,
        GraphStep::AddVideoGrabber => GraphStep::CreateVideoNull,
        GraphStep::CreateVideoNull => GraphStep::AddVideoNull,
        GraphStep::AddVideoNull => GraphStep::RouteVideo,
        GraphStep::RouteVideo => GraphStep::QueryVideoType,
        GraphStep::QueryVideoType => GraphStep::ParseVideoType,
        GraphStep::ParseVideoType => GraphStep::PublishGeometry,
        GraphStep::CreateKeepNull => GraphStep::AddKeepNull,
        GraphStep::AddKeepNull => GraphStep::RenderKeepAlive,
        GraphStep::RenderKeepAlive => GraphStep::QueryAudioType,
        GraphStep::QueryAudioType => GraphStep::ParseAudioType,
        GraphStep::ParseAudioType => GraphStep::PublishFormat,
        GraphStep::SetCallback => GraphStep::Run,
        GraphStep::Run => GraphStep::Running,
        _ => s,
    }
}

impl GraphSetup {
    /// A setup that has made no call yet.
    pub open spec fn fresh(
        renderer: Option<Renderer>,
        passthrough: bool,
        named_audio: bool,
    ) -> Self {
        GraphSetup {
            renderer,
            passthrough,
            named_audio,
            step: GraphStep::InitCom,
            has_video: false,
            has_audio: false,
            forwards_video: false,
            result: GRAPH_OK,
        }
    }

    /// Video is opened if it is to be forwarded or only kept alive.
    pub open spec fn wants_video(self) -> bool {
        self.passthrough || self.renderer is Some
    }

    /// The same setup at another step.
    pub open spec fn at(self, step: GraphStep) -> Self {
        GraphSetup { step, ..self }
    }

    /// The setup ended by a failure.
    pub open spec fn failed_with(self, code: i32) -> Self {
        GraphSetup { step: GraphStep::Failed, result: code, ..self }
    }

    /// The step that follows once audio is routed: the video branch, if there is
    /// anything to be done with a video device.
    pub open spec fn after_audio(self) -> GraphStep {
        if self.has_video && self.passthrough {
            GraphStep::CreateVideoGrabber
        } else if self.has_video && self.renderer == Some(Renderer::Null) {
            GraphStep::CreateKeepNull
        } else if self.has_video && self.renderer == Some(Renderer::Window) {
            GraphStep::RenderKeepAlive
        } else {
            GraphStep::QueryAudioType
        }
    }

    /// The setup after the call that was due returned `code`.
    pub open spec fn after(self, code: i32) -> Self {
        let with_audio = GraphSetup { has_audio: true, ..self };
        match self.step {
            GraphStep::QueryControl if code >= 0 => self.at(
                if self.wants_video() {
                    GraphStep::FindVideo
                } else {
                    GraphStep::CreateGrabber
                },
            ),
            GraphStep::FindVideo => if code >= 0 {
                (GraphSetup { has_video: true, ..self }).at(GraphStep::AddVideo)
            } else {
                self.at(GraphStep::CreateGrabber)
            },
            GraphStep::AddNull if code >= 0 => self.at(
                if self.has_video && !self.named_audio {
                    GraphStep::RouteFromVideo
                } else {
                    GraphStep::FindAudio
                },
            ),
            GraphStep::RouteFromVideo => if code >= 0 {
                with_audio.at(with_audio.after_audio())
            } else {
                self.at(GraphStep::FindAudio)
            },
            GraphStep::RouteFromAudio if code >= 0 => with_audio.at(with_audio.after_audio()),
            GraphStep::PublishGeometry => self.at(
                if code >= 0 {
                    GraphStep::SetVideoCallback
                } else {
                    GraphStep::QueryAudioType
                },
            ),
            GraphStep::SetVideoCallback if code >= 0 => (GraphSetup {
                forwards_video: true,
                ..self
            }).at(GraphStep::QueryAudioType),
            GraphStep::PublishFormat => self.at(GraphStep::SetCallback),
            GraphStep::Running | GraphStep::Failed => self,
            _ => if code >= 0 {
                self.at(graph_successor(self.step))
            } else {
                self.failed_with(code)
            },
        }
    }

    /// The setup after calls that returned `codes`.
    pub open spec fn after_all(self, codes: Seq<i32>) -> Self
        decreases codes.len(),
    {
        if codes.len() == 0 {
            self
        } else {
            self.after_all(codes.drop_last()).after(codes.last())
        }
    }

    /// A bound on the calls that are left.
    pub open spec fn calls_left(self) -> int {
        match self.step {
            GraphStep::InitCom => 40,
            GraphStep::CreateGraph => 39,
            GraphStep::CreateBuilder => 38,
            GraphStep::SetFiltergraph => 37,
            GraphStep::QueryControl => 36,
            GraphStep::FindVideo => 35,
            GraphStep::AddVideo => 34,
            GraphStep::CreateGrabber => 33,
            GraphStep::QueryGrabber => 32,
            GraphStep::SetGrabberType => 31,
            GraphStep::SetOneShot => 30,
            GraphStep::SetBuffering => 29,
            GraphStep::AddGrabber => 28,
            GraphStep::CreateNull => 27,
            GraphStep::AddNull => 26,
            GraphStep::RouteFromVideo => 25,
            GraphStep::FindAudio => 24,
            GraphStep::AddAudio => 23,
            GraphStep::RouteFromAudio => 22,
            GraphStep::CreateVideoGrabber => 21,
            GraphStep::QueryVideoGrabber => 20,
            GraphStep::SetVideoType => 19,
            GraphStep::SetVideoOneShot => 18,
            GraphStep::SetVideoBuffering => 17,
            GraphStep::AddVideoGrabber => 16,
            GraphStep::CreateVideoNull => 15,
            GraphStep::AddVideoNull => 14,
            GraphStep::RouteVideo => 13,
            GraphStep::QueryVideoType => 12,
            GraphStep::ParseVideoType => 11,
            GraphStep::PublishGeometry => 10,
            GraphStep::SetVideoCallback => 9,
            GraphStep::CreateKeepNull => 8,
            GraphStep::AddKeepNull => 7,
            GraphStep::RenderKeepAlive => 6,
            GraphStep::QueryAudioType => 5,
            GraphStep::ParseAudioType => 4,
            GraphStep::PublishFormat => 3,
            GraphStep::SetCallback => 2,
            GraphStep::Run => 1,
            GraphStep::Running => 0,
            GraphStep::Failed => 0,
        }
    }

    /// Video is touched only if there is some, frames only if they are to be
    /// forwarded, and audio is routed exactly when the setup is past that point.
    pub open spec fn wf(self) -> bool {
        &&& self.has_video ==> self.wants_video()
        &&& self.forwards_video ==> self.passthrough && self.has_video
        &&& match self.step {
            GraphStep::InitCom
            | GraphStep::CreateGraph
            | GraphStep::CreateBuilder
            | GraphStep::SetFiltergraph
            | GraphStep::QueryControl
            | GraphStep::FindVideo
            | GraphStep::AddVideo
            | GraphStep::CreateGrabber
            | GraphStep::QueryGrabber
            | GraphStep::SetGrabberType
            | GraphStep::SetOneShot
            | GraphStep::SetBuffering
            | GraphStep::AddGrabber
            | GraphStep::CreateNull
            | GraphStep::AddNull
            | GraphStep::RouteFromVideo
            | GraphStep::FindAudio
            | GraphStep::AddAudio
            | GraphStep::RouteFromAudio => !self.has_audio && !self.forwards_video,
            GraphStep::CreateVideoGrabber
            | GraphStep::QueryVideoGrabber
            | GraphStep::SetVideoType
            | GraphStep::SetVideoOneShot
            | GraphStep::SetVideoBuffering
            | GraphStep::AddVideoGrabber
            | GraphStep::CreateVideoNull
            | GraphStep::AddVideoNull
            | GraphStep::RouteVideo
            | GraphStep::QueryVideoType
            | GraphStep::ParseVideoType
            | GraphStep::PublishGeometry
            | GraphStep::SetVideoCallback
            | GraphStep::CreateKeepNull
            | GraphStep::AddKeepNull
            | GraphStep::RenderKeepAlive
            | GraphStep::QueryAudioType
            | GraphStep::ParseAudioType
            | GraphStep::PublishFormat
            | GraphStep::SetCallback
            | GraphStep::Run
            | GraphStep::Running => self.has_audio,
            GraphStep::Failed => self.result < 0,
        }
        &&& match self.step {
            GraphStep::FindVideo => self.wants_video(),
            GraphStep::AddVideo => self.has_video,
            GraphStep::RouteFromVideo => self.has_video && !self.named_audio,
            GraphStep::CreateVideoGrabber
            | GraphStep::QueryVideoGrabber
            | GraphStep::SetVideoType
            | GraphStep::SetVideoOneShot
            | GraphStep::SetVideoBuffering
            | GraphStep::AddVideoGrabber
            | GraphStep::CreateVideoNull
            | GraphStep::AddVideoNull
            | GraphStep::RouteVideo
            | GraphStep::QueryVideoType
            | GraphStep::ParseVideoType
            | GraphStep::PublishGeometry
            | GraphStep::SetVideoCallback => self.has_video && self.passthrough && !self.forwards_video,
            GraphStep::CreateKeepNull
            | GraphStep::AddKeepNull
            | GraphStep::RenderKeepAlive => self.has_video && !self.passthrough && self.renderer is Some,
            _ => true,
        }
        &&& self.step != GraphStep::Failed ==> self.result == GRAPH_OK
    }

    /// A new setup.
    pub fn new(renderer: Option<Renderer>, passthrough: bool, named_audio: bool) -> (g: Self)
        ensures
            g == GraphSetup::fresh(renderer, passthrough, named_audio),
            g.wf(),
    {
        GraphSetup {
            renderer,
            passthrough,
            named_audio,
            step: GraphStep::InitCom,
            has_video: false,
            has_audio: false,
            forwards_video: false,
            result: GRAPH_OK,
        }
    }

    /// Gives [`after_audio`](Self::after_audio).
    fn video_branch(&self) -> (s: GraphStep)
        ensures
            s == self.after_audio(),
    {
        if !self.has_video {
            return GraphStep::QueryAudioType;
        }
        if self.passthrough {
            return GraphStep::CreateVideoGrabber;
        }
        match self.renderer {
            Some(Renderer::Null) => GraphStep::CreateKeepNull,
            Some(Renderer::Window) => GraphStep::RenderKeepAlive,
            None => GraphStep::QueryAudioType,
        }
    }

    fn proceed(&mut self, code: i32, next: GraphStep)
        ensures
            *final(self) == (if code >= 0 {
                old(self).at(next)
            } else {
                old(self).failed_with(code)
            }),
    {
        if code >= 0 {
            self.step = next;
        } else {
            self.step = GraphStep::Failed;
            self.result = code;
        }
    }

    /// Takes the result code of the call that was due.
    #[verifier::rlimit(30)]
    pub fn advance(&mut self, code: i32)
        requires
            old(self).wf(),
        ensures
            *final(self) == old(self).after(code),
            final(self).wf(),
    {
        proof {
            graph_setup_ends(*self, code);
        }
        match self.step {
            GraphStep::QueryControl => {
                let next: GraphStep = if self.passthrough || self.renderer.is_some() {
                    GraphStep::FindVideo
                } else {
                    GraphStep::CreateGrabber
                };
                self.proceed(code, next);
            },
            GraphStep::FindVideo => {
                if code >= 0 {
                    self.has_video = true;
                    self.step = GraphStep::AddVideo;
                } else {
                    self.step = GraphStep::CreateGrabber;
                }
            },
            GraphStep::AddNull => {
                let next: GraphStep = if self.has_video && !self.named_audio {
                    GraphStep::RouteFromVideo
                } else {
                    GraphStep::FindAudio
                };
                self.proceed(code, next);
            },
            GraphStep::RouteFromVideo => {
                if code >= 0 {
                    self.has_audio = true;
                    self.step = self.video_branch();
                } else {
                    self.step = GraphStep::FindAudio;
                }
            },
            GraphStep::RouteFromAudio => {
                let next: GraphStep = self.video_branch();
                if code >= 0 {
                    self.has_audio = true;
                }
                self.proceed(code, next);
            },
            GraphStep::PublishGeometry => {
                if code >= 0 {
                    self.step = GraphStep::SetVideoCallback;
                } else {
                    self.step = GraphStep::QueryAudioType;
                }
            },
            GraphStep::SetVideoCallback => {
                if code >= 0 {
                    self.forwards_video = true;
                }
                self.proceed(code, GraphStep::QueryAudioType);
            },
            GraphStep::PublishFormat => self.step = GraphStep::SetCallback,
            GraphStep::Running | GraphStep::Failed => {},
            GraphStep::InitCom => self.proceed(code, GraphStep::CreateGraph),
            GraphStep::CreateGraph => self.proceed(code, GraphStep::CreateBuilder),
            GraphStep::CreateBuilder => self.proceed(code, GraphStep::SetFiltergraph),
            GraphStep::SetFiltergraph => self.proceed(code, GraphStep::QueryControl),
            GraphStep::AddVideo => self.proceed(code, GraphStep::CreateGrabber),
            GraphStep::CreateGrabber => self.proceed(code, GraphStep::QueryGrabber),
            GraphStep::QueryGrabber => self.proceed(code, GraphStep::SetGrabberType),
            GraphStep::SetGrabberType => self.proceed(code, GraphStep::SetOneShot),
            GraphStep::SetOneShot => self.proceed(code, GraphStep::SetBuffering),
            GraphStep::SetBuffering => self.proceed(code, GraphStep::AddGrabber),
            GraphStep::AddGrabber => self.proceed(code, GraphStep::CreateNull),
            GraphStep::CreateNull => self.proceed(code, GraphStep::AddNull),
            GraphStep::FindAudio => self.proceed(code, GraphStep::AddAudio),
            GraphStep::AddAudio => self.proceed(code, GraphStep::RouteFromAudio),
            GraphStep::CreateVideoGrabber => self.proceed(code, GraphStep::QueryVideoGrabber),
            GraphStep::QueryVideoGrabber => self.proceed(code, GraphStep::SetVideoType),
            GraphStep::SetVideoType => self.proceed(code, GraphStep::SetVideoOneShot),
            GraphStep::SetVideoOneShot => self.proceed(code, GraphStep::SetVideoBuffering),
            GraphStep::SetVideoBuffering => self.proceed(code, GraphStep::AddVideoGrabber),
            GraphStep::AddVideoGrabber => self.proceed(code, GraphStep::CreateVideoNull),
            GraphStep::CreateVideoNull => self.proceed(code, GraphStep::AddVideoNull),
            GraphStep::AddVideoNull => self.proceed(code, GraphStep::RouteVideo),
            GraphStep::RouteVideo => self.proceed(code, GraphStep::QueryVideoType),
            GraphStep::QueryVideoType => self.proceed(code, GraphStep::ParseVideoType),
            GraphStep::ParseVideoType => self.proceed(code, GraphStep::PublishGeometry),
            GraphStep::CreateKeepNull => self.proceed(code, GraphStep::AddKeepNull),
            GraphStep::AddKeepNull => self.proceed(code, GraphStep::RenderKeepAlive),
            GraphStep::RenderKeepAlive => self.proceed(code, GraphStep::QueryAudioType),
            GraphStep::QueryAudioType => self.proceed(code, GraphStep::ParseAudioType),
            GraphStep::ParseAudioType => self.proceed(code, GraphStep::PublishFormat),
            GraphStep::SetCallback => self.proceed(code, GraphStep::Run),
            GraphStep::Run => self.proceed(code, GraphStep::Running),
        }
    }
}

/// Whatever the calls return, every call leaves fewer to make, so a setup ends.
pub proof fn graph_setup_ends(g: GraphSetup, code: i32)
    requires
        g.wf(),
    ensures
        g.after(code).wf(),
        g.calls_left() > 0 ==> 0 <= g.after(code).calls_left() < g.calls_left(),
        g.calls_left() == 0 <==> g.step == GraphStep::Running || g.step == GraphStep::Failed,
{
}

proof fn lemma_setups_are_wf(
    renderer: Option<Renderer>,
    passthrough: bool,
    named_audio: bool,
    codes: Seq<i32>,
)
    ensures
        GraphSetup::fresh(renderer, passthrough, named_audio).after_all(codes).wf(),
        GraphSetup::fresh(renderer, passthrough, named_audio).after_all(codes).renderer == renderer,
        GraphSetup::fresh(renderer, passthrough, named_audio).after_all(codes).passthrough
            == passthrough,
        GraphSetup::fresh(renderer, passthrough, named_audio).after_all(codes).named_audio
            == named_audio,
    decreases codes.len(),
{
    if codes.len() > 0 {
        lemma_setups_are_wf(renderer, passthrough, named_audio, codes.drop_last());
        graph_setup_ends(
            GraphSetup::fresh(renderer, passthrough, named_audio).after_all(codes.drop_last()),
            codes.last(),
        );
    }
}

/// A graph runs only after its audio format has been published and its audio
/// callback set, in that order, and with audio routed to the grabber.
pub proof fn graph_runs_after_publishing(
    renderer: Option<Renderer>,
    passthrough: bool,
    named_audio: bool,
    codes: Seq<i32>,
)
    requires
        GraphSetup::fresh(renderer, passthrough, named_audio).after_all(codes).step == GraphStep::Run,
    ensures
        codes.len() >= 2,
        ({
            let start = GraphSetup::fresh(renderer, passthrough, named_audio);
            &&& start.after_all(codes).has_audio
            &&& start.after_all(codes.drop_last()).step == GraphStep::SetCallback
            &&& start.after_all(codes.drop_last().drop_last()).step == GraphStep::PublishFormat
        }),
{
    let start = GraphSetup::fresh(renderer, passthrough, named_audio);
    lemma_setups_are_wf(renderer, passthrough, named_audio, codes);
    let one = codes.drop_last();
    assert(start.after_all(codes) == start.after_all(one).after(codes.last()));
    let two = one.drop_last();
    assert(start.after_all(one) == start.after_all(two).after(one.last()));
}

/// A graph that nobody asked for video never holds a video device and forwards no
/// frames, and one forwards frames only if that was asked for.
pub proof fn video_only_on_request(
    renderer: Option<Renderer>,
    passthrough: bool,
    named_audio: bool,
    codes: Seq<i32>,
)
    ensures
        ({
            let g = GraphSetup::fresh(renderer, passthrough, named_audio).after_all(codes);
            &&& renderer is None && !passthrough ==> !g.has_video
            &&& !passthrough ==> !g.forwards_video
        }),
{
    lemma_setups_are_wf(renderer, passthrough, named_audio, codes);
}

/// Trouble with video does not cost the audio: a missing video device, a video
/// device without an audio pin and a geometry that does not fit the region are
/// passed over, and the setup goes on.
pub proof fn video_trouble_keeps_audio(g: GraphSetup, code: i32)
    requires
        g.wf(),
        code < 0,
    ensures
        g.step == GraphStep::FindVideo ==> g.after(code) == g.at(GraphStep::CreateGrabber),
        g.step == GraphStep::RouteFromVideo ==> g.after(code) == g.at(GraphStep::FindAudio),
        g.step == GraphStep::PublishGeometry ==> g.after(code) == g.at(GraphStep::QueryAudioType),
{
}

/// Who names an audio device gets the audio from there: in a setup with a named device
/// audio is never routed from the video device, and it is routed only once the named
/// one was found and added.
pub proof fn named_audio_device_is_used(
    renderer: Option<Renderer>,
    passthrough: bool,
    codes: Seq<i32>,
)
    ensures
        ({
            let start = GraphSetup::fresh(renderer, passthrough, true);
            let g = start.after_all(codes);
            &&& g.step != GraphStep::RouteFromVideo
            &&& codes.len() > 0 && g.has_audio && !start.after_all(codes.drop_last()).has_audio
                ==> {
                &&& start.after_all(codes.drop_last()).step == GraphStep::RouteFromAudio
                &&& codes.last() >= 0
            }
            &&& g.step == GraphStep::RouteFromAudio ==> {
                &&& codes.len() > 1
                &&& start.after_all(codes.drop_last()).step == GraphStep::AddAudio
                &&& start.after_all(codes.drop_last().drop_last()).step == GraphStep::FindAudio
                &&& codes.drop_last().last() >= 0
            }
        }),
{
    let start = GraphSetup::fresh(renderer, passthrough, true);
    lemma_setups_are_wf(renderer, passthrough, true, codes);
    if codes.len() > 0 {
        let one = codes.drop_last();
        lemma_setups_are_wf(renderer, passthrough, true, one);
        assert(start.after_all(codes) == start.after_all(one).after(codes.last()));
        if one.len() > 0 {
            let two = one.drop_last();
            lemma_setups_are_wf(renderer, passthrough, true, two);
            assert(start.after_all(one) == start.after_all(two).after(one.last()));
        } else {
            assert(start.after_all(one) == start);
        }
    }
}

/// The code of a step that is no outside call, such as reading a media type or
/// searching a device.
pub fn outcome_code(done: bool) -> (code: i32)
    ensures
        code == (if done {
            GRAPH_OK
        } else {
            GRAPH_FAILURE
        }),
{
    if done {
        GRAPH_OK
    } else {
        GRAPH_FAILURE
    }
}

/// How many bytes a grabber callback delivers: none if there is no buffer or if its
/// length is not positive.
pub fn delivered(has_buffer: bool, len: i32) -> (r: Option<usize>)
    ensures
        r == (if has_buffer && len > 0 {
            Some(len as usize)
        } else {
            None
        }),
{
    if has_buffer && len > 0 {
        Some(len as usize)
    } else {
        None
    }
}

/// A setup first makes a graph with a builder on it and asks for its control; then the
/// video device is looked for if video is wanted at all, and added if it is found. What
/// follows is the audio branch in any case.
pub proof fn graphs_are_made_before_devices_are_looked_for(
    renderer: Option<Renderer>,
    passthrough: bool,
    named_audio: bool,
    codes: Seq<i32>,
)
    requires
        codes.len() == 7,
        forall|i: int| 0 <= i < 7 ==> #[trigger] codes[i] >= 0,
    ensures
        ({
            let g0 = GraphSetup::fresh(renderer, passthrough, named_audio);
            let g1 = g0.after(codes[0]);
            let g2 = g1.after(codes[1]);
            let g3 = g2.after(codes[2]);
            let g4 = g3.after(codes[3]);
            let g5 = g4.after(codes[4]);
            let found = g5.after(codes[5]);
            &&& g0.step == GraphStep::InitCom
            &&& g1.step == GraphStep::CreateGraph
            &&& g2.step == GraphStep::CreateBuilder
            &&& g3.step == GraphStep::SetFiltergraph
            &&& g4.step == GraphStep::QueryControl
            &&& !passthrough && renderer is None ==> g5 == (GraphSetup {
                step: GraphStep::CreateGrabber,
                ..g0
            })
            &&& passthrough || renderer is Some ==> {
                &&& g5 == (GraphSetup { step: GraphStep::FindVideo, ..g0 })
                &&& found == (GraphSetup { step: GraphStep::AddVideo, has_video: true, ..g0 })
                &&& found.after(codes[6]) == (GraphSetup {
                    step: GraphStep::CreateGrabber,
                    has_video: true,
                    ..g0
                })
            }
        }),
{
    assert(codes[0] >= 0 && codes[1] >= 0 && codes[2] >= 0 && codes[3] >= 0);
    assert(codes[4] >= 0 && codes[5] >= 0 && codes[6] >= 0);
}

/// The audio branch gets its grabber, set up and added, and the renderer behind it; then
/// audio is routed from the video device if there is one and no audio device was named,
/// and from an audio device, found and added, otherwise.
pub proof fn audio_branches_are_built_and_routed(g: GraphSetup, codes: Seq<i32>)
    requires
        g.step == GraphStep::CreateGrabber,
        codes.len() == 10,
        forall|i: int| 0 <= i < 10 ==> #[trigger] codes[i] >= 0,
    ensures
        ({
            let g1 = g.after(codes[0]);
            let g2 = g1.after(codes[1]);
            let g3 = g2.after(codes[2]);
            let g4 = g3.after(codes[3]);
            let g5 = g4.after(codes[4]);
            let g6 = g5.after(codes[5]);
            let g7 = g6.after(codes[6]);
            let routing = g7.after(codes[7]);
            &&& g1.step == GraphStep::QueryGrabber
            &&& g2.step == GraphStep::SetGrabberType
            &&& g3.step == GraphStep::SetOneShot
            &&& g4.step == GraphStep::SetBuffering
            &&& g5.step == GraphStep::AddGrabber
            &&& g6.step == GraphStep::CreateNull
            &&& g7.step == GraphStep::AddNull
            &&& g.has_video && !g.named_audio ==> routing == (GraphSetup {
                step: GraphStep::RouteFromVideo,
                ..g
            })
            &&& !g.has_video || g.named_audio ==> {
                &&& routing == (GraphSetup { step: GraphStep::FindAudio, ..g })
                &&& routing.after(codes[8]) == (GraphSetup { step: GraphStep::AddAudio, ..g })
                &&& routing.after(codes[8]).after(codes[9]) == (GraphSetup {
                    step: GraphStep::RouteFromAudio,
                    ..g
                })
            }
        }),
{
    assert(codes[0] >= 0 && codes[1] >= 0 && codes[2] >= 0 && codes[3] >= 0 && codes[4] >= 0);
    assert(codes[5] >= 0 && codes[6] >= 0 && codes[7] >= 0 && codes[8] >= 0 && codes[9] >= 0);
}

/// Once audio is routed, the video device, if there is one, gets the branch that was asked
/// for: forwarding before keeping alive, a null renderer or a window. Without a device or a
/// wish the setup goes on with the audio format.
pub proof fn video_branches_are_those_asked_for(g: GraphSetup, code: i32)
    requires
        g.step == GraphStep::RouteFromVideo || g.step == GraphStep::RouteFromAudio,
        code >= 0,
    ensures
        g.after(code) == (GraphSetup {
            step: if !g.has_video {
                GraphStep::QueryAudioType
            } else if g.passthrough {
                GraphStep::CreateVideoGrabber
            } else {
                match g.renderer {
                    Some(Renderer::Null) => GraphStep::CreateKeepNull,
                    Some(Renderer::Window) => GraphStep::RenderKeepAlive,
                    None => GraphStep::QueryAudioType,
                }
            },
            has_audio: true,
            ..g
        }),
{
}

/// The branch that forwards video gets its grabber, set up and added, and the renderer
/// behind it; video is routed, its type is read, the geometry is published, and then the
/// callback is set and frames are forwarded.
pub proof fn video_is_forwarded_once_published(g: GraphSetup, codes: Seq<i32>)
    requires
        g.step == GraphStep::CreateVideoGrabber,
        codes.len() == 13,
        forall|i: int| 0 <= i < 13 ==> #[trigger] codes[i] >= 0,
    ensures
        ({
            let g1 = g.after(codes[0]);
            let g2 = g1.after(codes[1]);
            let g3 = g2.after(codes[2]);
            let g4 = g3.after(codes[3]);
            let g5 = g4.after(codes[4]);
            let g6 = g5.after(codes[5]);
            let g7 = g6.after(codes[6]);
            let g8 = g7.after(codes[7]);
            let g9 = g8.after(codes[8]);
            let g10 = g9.after(codes[9]);
            let g11 = g10.after(codes[10]);
            let g12 = g11.after(codes[11]);
            &&& g1.step == GraphStep::QueryVideoGrabber
            &&& g2.step == GraphStep::SetVideoType
            &&& g3.step == GraphStep::SetVideoOneShot
            &&& g4.step == GraphStep::SetVideoBuffering
            &&& g5.step == GraphStep::AddVideoGrabber
            &&& g6.step == GraphStep::CreateVideoNull
            &&& g7.step == GraphStep::AddVideoNull
            &&& g8.step == GraphStep::RouteVideo
            &&& g9.step == GraphStep::QueryVideoType
            &&& g10.step == GraphStep::ParseVideoType
            &&& g11.step == GraphStep::PublishGeometry
            &&& g12.step == GraphStep::SetVideoCallback
            &&& g12.after(codes[12]) == (GraphSetup {
                step: GraphStep::QueryAudioType,
                forwards_video: true,
                ..g
            })
        }),
{
    assert(codes[0] >= 0 && codes[1] >= 0 && codes[2] >= 0 && codes[3] >= 0 && codes[4] >= 0);
    assert(codes[5] >= 0 && codes[6] >= 0 && codes[7] >= 0 && codes[8] >= 0 && codes[9] >= 0);
    assert(codes[10] >= 0 && codes[11] >= 0 && codes[12] >= 0);
}

/// Video that is only kept alive is rendered, behind a null renderer if there is to be no
/// window; then the audio type is read, the format is published, whatever that returns, the
/// callback is set, and the graph runs.
pub proof fn graphs_run_once_the_format_is_published(
    g: GraphSetup,
    a: i32,
    b: i32,
    c: i32,
    d: i32,
    publish: i32,
)
    requires
        a >= 0,
        b >= 0,
        c >= 0,
        d >= 0,
    ensures
        g.step == GraphStep::CreateKeepNull ==> {
            &&& g.after(a).step == GraphStep::AddKeepNull
            &&& g.after(a).after(b) == (GraphSetup { step: GraphStep::RenderKeepAlive, ..g })
        },
        g.step == GraphStep::RenderKeepAlive ==> g.after(a) == (GraphSetup {
            step: GraphStep::QueryAudioType,
            ..g
        }),
        g.step == GraphStep::QueryAudioType ==> {
            let parsed = g.after(a).after(b);
            &&& g.after(a).step == GraphStep::ParseAudioType
            &&& parsed.step == GraphStep::PublishFormat
            &&& parsed.after(publish).step == GraphStep::SetCallback
            &&& parsed.after(publish).after(c).step == GraphStep::Run
            &&& parsed.after(publish).after(c).after(d) == (GraphSetup {
                step: GraphStep::Running,
                ..g
            })
        },
{
}

/// Where a call must succeed, its failure ends the setup with the code of the failure:
/// everywhere but where the video device is looked for, audio is routed from it, or
/// something is published. A setup that has ended stays so, and what was asked for never
/// changes.
pub proof fn failures_end_the_graph(g: GraphSetup, code: i32)
    ensures
        g.after(code).renderer == g.renderer,
        g.after(code).passthrough == g.passthrough,
        g.after(code).named_audio == g.named_audio,
        g.step == GraphStep::Running || g.step == GraphStep::Failed ==> g.after(code) == g,
        code < 0 && g.step != GraphStep::FindVideo && g.step != GraphStep::RouteFromVideo && g.step
            != GraphStep::PublishGeometry && g.step != GraphStep::PublishFormat && g.step
            != GraphStep::Running && g.step != GraphStep::Failed ==> g.after(code) == (GraphSetup {
            step: GraphStep::Failed,
            result: code,
            ..g
        }),
{
}

} // verus!
