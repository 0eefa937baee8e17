//! Keeping a capture card streaming: a video graph whose frames nobody looks at.
//!
//! [`KeepAliveGraph`] says which call comes next and takes its result code; the
//! caller makes the calls. Once the graph runs, [`after_poll`] says what to do about
//! the events it reports.

use crate::dshow::{Renderer, GRAPH_FAILURE, GRAPH_OK};
use vstd::prelude::*;

verus! {

/// An enumeration that is empty or exhausted (`S_FALSE`).
pub const NOTHING_THERE: i32 = 1;

/// The event of a stream that ended.
pub const EVENT_COMPLETE: u32 = 1;

/// The event of a user who closed the graph.
pub const EVENT_USER_ABORT: u32 = 2;

/// The event of an error that stopped the graph.
pub const EVENT_ERROR_ABORT: u32 = 3;

/// The call to make next.
#[derive(Clone, Copy, Debug, PartialEq, Eq, Structural)]
pub enum KeepAliveStep {
    /// Create the device enumerator.
    CreateEnumerator,
    /// Open the category of video devices. An empty category is a failure.
    OpenCategory,
    /// Walk the devices until one passes the filter, or all are seen.
    Search,
    /// Bind the device that was taken.
    Bind,
    /// Create the filter graph.
    CreateGraph,
    /// Create the capture graph builder.
    CreateBuilder,
    /// Attach the builder to the graph.
    SetFiltergraph,
    /// Add the device to the graph.
    AddSource,
    /// Create the null renderer.
    CreateNull,
    /// Add that renderer to the graph.
    AddNull,
    /// Render the capture pin.
    RenderStream,
    /// Ask the graph for its media control.
    QueryControl,
    /// Ask the graph for its event interface.
    QueryEvent,
    /// Run the graph.
    Run,
    /// The graph runs; nothing is left to do.
    Running,
    /// The graph could not be opened.
    Failed,
}

/// A graph between two calls of its setup.
#[derive(Clone, Copy, Debug, PartialEq, Eq, Structural)]
pub struct KeepAliveGraph {
    /// What becomes of the frames.
    pub renderer: Renderer,
    /// The call to make next.
    pub step: KeepAliveStep,
    /// What the setup ends with; negative if it failed.
    pub result: i32,
}

/// The step after `s` where `s` must succeed and nothing has to be decided.
pub open spec fn keep_alive_successor(s: KeepAliveStep) -> KeepAliveStep {
    match s {
        KeepAliveStep::CreateEnumerator => KeepAliveStep::OpenCategory,
        KeepAliveStep::Search => KeepAliveStep::Bind,
        KeepAliveStep::Bind => KeepAliveStep::CreateGraph,
        KeepAliveStep::CreateGraph => KeepAliveStep::CreateBuilder,
        KeepAliveStep::CreateBuilder => KeepAliveStep::SetFiltergraph,
        KeepAliveStep::SetFiltergraph => KeepAliveStep::AddSource,
        KeepAliveStep::CreateNull => KeepAliveStep::AddNull,
        KeepAliveStep::AddNull => KeepAliveStep::RenderStream,
        KeepAliveStep::RenderStream => KeepAliveStep::QueryControl,
        KeepAliveStep::QueryControl => KeepAliveStep::QueryEvent,
        KeepAliveStep::QueryEvent => KeepAliveStep::Run,
        KeepAliveStep::Run => KeepAliveStep::Running,
        _ => s,
    }
}

impl KeepAliveGraph {
    /// A setup that has made no call yet.
    pub open spec fn fresh(renderer: Renderer) -> Self {
        KeepAliveGraph { renderer, step: KeepAliveStep::CreateEnumerator, result: GRAPH_OK }
    }

    /// The same setup at another step.
    pub open spec fn at(self, step: KeepAliveStep) -> Self {
        KeepAliveGraph { step, ..self }
    }

    /// The setup ended by a failure.
    pub open spec fn failed_with(self, code: i32) -> Self {
        KeepAliveGraph { step: KeepAliveStep::Failed, result: code, ..self }
    }

    /// The setup after the call that was due returned `code`. A category that is
    /// empty or cannot be opened is an unspecified failure. A renderer is created
    /// only if there is to be no window.
    pub open spec fn after(self, code: i32) -> Self {
        match self.step {
            KeepAliveStep::OpenCategory => if code < 0 || code == NOTHING_THERE {
                self.failed_with(GRAPH_FAILURE)
            } else {
                self.at(KeepAliveStep::Search)
            },
            KeepAliveStep::AddSource if code >= 0 => self.at(
                match self.renderer {
                    Renderer::Null => KeepAliveStep::CreateNull,
                    Renderer::Window => KeepAliveStep::RenderStream,
                },
            ),
            KeepAliveStep::Running | KeepAliveStep::Failed => self,
            _ => if code >= 0 {
                self.at(keep_alive_successor(self.step))
            } else {
                self.failed_with(code)
            },
        }
    }

    /// The setup after calls that returned `codes`.
    pub open spec fn after_all(self, codes: Seq<i32>) -> Self
        decreases codes.len(),
    {
        if codes.len() == 0 {
            self
        } else {
            self.after_all(codes.drop_last()).after(codes.last())
        }
    }

    /// A bound on the calls that are left.
    pub open spec fn calls_left(self) -> int {
        match self.step {
            KeepAliveStep::CreateEnumerator => 14,
            KeepAliveStep::OpenCategory => 13,
            KeepAliveStep::Search => 12,
            KeepAliveStep::Bind => 11,
            KeepAliveStep::CreateGraph => 10,
            KeepAliveStep::CreateBuilder => 9,
            KeepAliveStep::SetFiltergraph => 8,
            KeepAliveStep::AddSource => 7,
            KeepAliveStep::CreateNull => 6,
            KeepAliveStep::AddNull => 5,
            KeepAliveStep::RenderStream => 4,
            KeepAliveStep::QueryControl => 3,
            KeepAliveStep::QueryEvent => 2,
            KeepAliveStep::Run => 1,
            KeepAliveStep::Running => 0,
            KeepAliveStep::Failed => 0,
        }
    }

    /// A new setup.
    pub fn new(renderer: Renderer) -> (g: Self)
        ensures
            g == KeepAliveGraph::fresh(renderer),
    {
        KeepAliveGraph { renderer, step: KeepAliveStep::CreateEnumerator, result: GRAPH_OK }
    }

    fn proceed(&mut self, code: i32, next: KeepAliveStep)
        ensures
            *final(self) == (if code >= 0 {
                old(self).at(next)
            } else {
                old(self).failed_with(code)
            }),
    {
        if code >= 0 {
            self.step = next;
        } else {
            self.step = KeepAliveStep::Failed;
            self.result = code;
        }
    }

    /// Takes the result code of the call that was due.
    pub fn advance(&mut self, code: i32)
        ensures
            *final(self) == old(self).after(code),
    {
        match self.step {
            KeepAliveStep::OpenCategory => {
                if code < 0 || code == NOTHING_THERE {
                    self.step = KeepAliveStep::Failed;
                    self.result = GRAPH_FAILURE;
                } else {
                    self.step = KeepAliveStep::Search;
                }
            },
            KeepAliveStep::AddSource => {
                let next: KeepAliveStep = match self.renderer {
                    Renderer::Null => KeepAliveStep::CreateNull,
                    Renderer::Window => KeepAliveStep::RenderStream,
                };
                self.proceed(code, next);
            },
            KeepAliveStep::Running | KeepAliveStep::Failed => {},
            KeepAliveStep::CreateEnumerator => self.proceed(code, KeepAliveStep::OpenCategory),
            KeepAliveStep::Search => self.proceed(code, KeepAliveStep::Bind),
            KeepAliveStep::Bind => self.proceed(code, KeepAliveStep::CreateGraph),
            KeepAliveStep::CreateGraph => self.proceed(code, KeepAliveStep::CreateBuilder),
            KeepAliveStep::CreateBuilder => self.proceed(code, KeepAliveStep::SetFiltergraph),
            KeepAliveStep::SetFiltergraph => self.proceed(code, KeepAliveStep::AddSource),
            KeepAliveStep::CreateNull => self.proceed(code, KeepAliveStep::AddNull),
            KeepAliveStep::AddNull => self.proceed(code, KeepAliveStep::RenderStream),
            KeepAliveStep::RenderStream => self.proceed(code, KeepAliveStep::QueryControl),
            KeepAliveStep::QueryControl => self.proceed(code, KeepAliveStep::QueryEvent),
            KeepAliveStep::QueryEvent => self.proceed(code, KeepAliveStep::Run),
            KeepAliveStep::Run => self.proceed(code, KeepAliveStep::Running),
        }
    }
}

/// Whatever the calls return, every call leaves fewer to make, so a setup ends.
pub proof fn keep_alive_setup_ends(g: KeepAliveGraph, code: i32)
    ensures
        g.calls_left() > 0 ==> 0 <= g.after(code).calls_left() < g.calls_left(),
        g.calls_left() == 0 <==> g.step == KeepAliveStep::Running || g.step
            == KeepAliveStep::Failed,
{
}

/// With a null renderer one has always been added when the stream is rendered, so
/// no window opens; with a window no null renderer is ever created.
pub proof fn no_window_without_request(renderer: Renderer, codes: Seq<i32>)
    ensures
        ({
            let start = KeepAliveGraph::fresh(renderer);
            let g = start.after_all(codes);
            &&& g.renderer == renderer
            &&& renderer == Renderer::Window ==> g.step != KeepAliveStep::CreateNull && g.step
                != KeepAliveStep::AddNull
            &&& renderer == Renderer::Null && g.step == KeepAliveStep::RenderStream ==> {
                &&& codes.len() > 0
                &&& start.after_all(codes.drop_last()).step == KeepAliveStep::AddNull
                &&& codes.last() >= 0
            }
        }),
    decreases codes.len(),
{
    if codes.len() > 0 {
        no_window_without_request(renderer, codes.drop_last());
    }
}

/// What the worker does after it polled for an event.
#[derive(Clone, Copy, Debug, PartialEq, Eq, Structural)]
pub enum KeepAliveAction {
    /// Stop the graph and end.
    Quit,
    /// Stop the graph and run it again: it halted.
    Restart,
    /// Poll again at once.
    Poll,
    /// Sleep a little, then poll again.
    Sleep,
}

/// Whether an event says that the graph halted.
pub open spec fn halts(event: u32) -> bool {
    event == EVENT_COMPLETE || event == EVENT_ERROR_ABORT || event == EVENT_USER_ABORT
}

/// Decides what comes after a poll. `stop` is whether the worker was told to stop,
/// `event` the event that the poll gave, if any.
pub fn after_poll(stop: bool, event: Option<u32>) -> (a: KeepAliveAction)
    ensures
        a == (if stop {
            KeepAliveAction::Quit
        } else {
            match event {
                Some(code) if halts(code) => KeepAliveAction::Restart,
                Some(_) => KeepAliveAction::Poll,
                None => KeepAliveAction::Sleep,
            }
        }),
{
    if stop {
        return KeepAliveAction::Quit;
    }
    match event {
        Some(code) => {
            if code == EVENT_COMPLETE || code == EVENT_ERROR_ABORT || code == EVENT_USER_ABORT {
                KeepAliveAction::Restart
            } else {
                KeepAliveAction::Poll
            }
        },
        None => KeepAliveAction::Sleep,
    }
}

/// What the worker reports of a graph that it could not open.
pub fn open_failure(cause: &str) -> (s: String)
    ensures
        s@ == "open video device: "@ + cause@,
{
    let mut s: String = "open video device: ".to_owned();
    s.append(cause);
    s
}

/// What starting the keep-alive gives: the device name or the failure that the
/// worker reported, and a failure if it ended without a report.
pub fn start_outcome(report: Option<Result<String, String>>) -> (r: Result<String, String>)
    ensures
        match report {
            Some(reported) => r == reported,
            None => r matches Err(e) && e@
                == "video keep-alive thread exited before reporting"@,
        },
{
    match report {
        Some(reported) => reported,
        None => Err("video keep-alive thread exited before reporting".to_owned()),
    }
}

/// A setup in which no call fails makes its calls in this order, whatever success each of
/// them reports; only an empty category, which is no failure of the call, ends it too.
pub proof fn keep_alive_calls_come_in_order(renderer: Renderer, codes: Seq<i32>)
    requires
        codes.len() == 14,
        forall|i: int| 0 <= i < 14 ==> #[trigger] codes[i] >= 0,
        codes[1] != NOTHING_THERE,
    ensures
        ({
            let g1 = KeepAliveGraph::fresh(renderer).after(codes[0]);
            let g2 = g1.after(codes[1]);
            let g3 = g2.after(codes[2]);
            let g4 = g3.after(codes[3]);
            let g5 = g4.after(codes[4]);
            let g6 = g5.after(codes[5]);
            let g7 = g6.after(codes[6]);
            let added = g7.after(codes[7]);
            let ready = if renderer == Renderer::Null {
                added.after(codes[8]).after(codes[9])
            } else {
                added
            };
            let g11 = ready.after(codes[10]);
            let g12 = g11.after(codes[11]);
            let g13 = g12.after(codes[12]);
            &&& KeepAliveGraph::fresh(renderer).step == KeepAliveStep::CreateEnumerator
            &&& g1.step == KeepAliveStep::OpenCategory
            &&& g2.step == KeepAliveStep::Search
            &&& g3.step == KeepAliveStep::Bind
            &&& g4.step == KeepAliveStep::CreateGraph
            &&& g5.step == KeepAliveStep::CreateBuilder
            &&& g6.step == KeepAliveStep::SetFiltergraph
            &&& g7.step == KeepAliveStep::AddSource
            &&& renderer == Renderer::Null ==> {
                &&& added.step == KeepAliveStep::CreateNull
                &&& added.after(codes[8]).step == KeepAliveStep::AddNull
            }
            &&& ready.step == KeepAliveStep::RenderStream
            &&& g11.step == KeepAliveStep::QueryControl
            &&& g12.step == KeepAliveStep::QueryEvent
            &&& g13.step == KeepAliveStep::Run
            &&& g13.after(codes[13]) == (KeepAliveGraph {
                renderer,
                step: KeepAliveStep::Running,
                result: GRAPH_OK,
            })
        }),
{
    assert(codes[0] >= 0 && codes[1] >= 0 && codes[2] >= 0 && codes[3] >= 0 && codes[4] >= 0);
    assert(codes[5] >= 0 && codes[6] >= 0 && codes[7] >= 0 && codes[8] >= 0 && codes[9] >= 0);
    assert(codes[10] >= 0 && codes[11] >= 0 && codes[12] >= 0 && codes[13] >= 0);
}

/// A call that fails ends the setup with its code, or with the unspecified failure if it
/// was to open the category, which also must not be empty; a setup that has ended stays so.
pub proof fn failures_end_the_keep_alive(g: KeepAliveGraph, code: i32)
    ensures
        g.after(code).renderer == g.renderer,
        g.step == KeepAliveStep::Running || g.step == KeepAliveStep::Failed ==> g.after(code) == g,
        g.step == KeepAliveStep::OpenCategory && (code < 0 || code == 1) ==> g.after(code) == (
        KeepAliveGraph { step: KeepAliveStep::Failed, result: GRAPH_FAILURE, ..g }),
        code < 0 && g.step != KeepAliveStep::OpenCategory && g.step != KeepAliveStep::Running
            && g.step != KeepAliveStep::Failed ==> g.after(code) == (KeepAliveGraph {
            step: KeepAliveStep::Failed,
            result: code,
            ..g
        }),
{
}

/// The graph is taken to have halted exactly at the end of its stream, at an error and at
/// the user's wish.
pub proof fn halting_events_are_three(event: u32)
    ensures
        halts(event) <==> 1 <= event <= 3,
{
}

} // verus!
