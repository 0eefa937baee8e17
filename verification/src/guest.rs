//! The guest's run, as a sequence of stages.
//!
//! [`GuestRun`] says which stage comes next and takes whether it succeeded; the
//! caller carries it out. A capture card that emits audio only while its video is
//! captured needs the video stream before anything asks for its audio formats.

use crate::vm_args::CapturePlan;
use vstd::prelude::*;

verus! {

/// Milliseconds between two attempts to attach to the ring.
pub const ATTACH_RETRY_MS: u64 = 500;

/// Milliseconds that a card gets to spin up its video.
pub const SPIN_UP_MS: u64 = 700;

/// Milliseconds before an endpoint is opened.
pub const SETTLE_MS: u64 = 3000;

/// The stage to carry out next.
#[derive(Clone, Copy, Debug, PartialEq, Eq, Structural)]
pub enum GuestStage {
    /// Map the shared region.
    MapRegion,
    /// Attach to the ring that the host initialized.
    Attach,
    /// Wait for the host.
    WaitForHost,
    /// Start to keep the video stream open.
    StartKeepAlive,
    /// Wait for the card to spin up.
    SpinUp,
    /// Wait before the endpoint is opened.
    Settle,
    /// Capture from the endpoint until the stream stalls or fails.
    CaptureEndpoint,
    /// Capture from a graph.
    CaptureGraph,
    /// Nothing is left to do.
    Done,
    /// The run failed.
    Failed,
}

/// A run between two stages.
#[derive(Clone, Copy, Debug, PartialEq, Eq, Structural)]
pub struct GuestRun {
    /// How to capture.
    pub plan: CapturePlan,
    /// The stage to carry out next.
    pub stage: GuestStage,
    /// Whether a video stream is being kept open.
    pub kept_alive: bool,
}

impl GuestRun {
    /// A run before its first stage.
    pub open spec fn fresh(plan: CapturePlan) -> Self {
        GuestRun { plan, stage: GuestStage::MapRegion, kept_alive: false }
    }

    /// The same run at another stage.
    pub open spec fn at(self, stage: GuestStage) -> Self {
        GuestRun { stage, ..self }
    }

    /// The stage that follows once the ring is attached.
    pub open spec fn after_attach(self) -> GuestStage {
        match self.plan {
            CapturePlan::Graph(_, _) => GuestStage::CaptureGraph,
            CapturePlan::Endpoint(Some(_)) => GuestStage::StartKeepAlive,
            CapturePlan::Endpoint(None) => GuestStage::Settle,
        }
    }

    /// The run after the stage that was due. A host that is not there yet is waited
    /// for, and a video stream that cannot be opened is done without.
    pub open spec fn after(self, ok: bool) -> Self {
        match self.stage {
            GuestStage::MapRegion => self.at(
                if ok {
                    GuestStage::Attach
                } else {
                    GuestStage::Failed
                },
            ),
            GuestStage::Attach => self.at(
                if ok {
                    self.after_attach()
                } else {
                    GuestStage::WaitForHost
                },
            ),
            GuestStage::WaitForHost => self.at(GuestStage::Attach),
            GuestStage::StartKeepAlive => if ok {
                (GuestRun { kept_alive: true, ..self }).at(GuestStage::SpinUp)
            } else {
                self.at(GuestStage::Settle)
            },
            GuestStage::SpinUp => self.at(GuestStage::Settle),
            GuestStage::Settle => self.at(GuestStage::CaptureEndpoint),
            GuestStage::CaptureEndpoint | GuestStage::CaptureGraph => self.at(
                if ok {
                    GuestStage::Done
                } else {
                    GuestStage::Failed
                },
            ),
            GuestStage::Done | GuestStage::Failed => self,
        }
    }

    /// The run after stages with these outcomes.
    pub open spec fn after_all(self, outcomes: Seq<bool>) -> Self
        decreases outcomes.len(),
    {
        if outcomes.len() == 0 {
            self
        } else {
            self.after_all(outcomes.drop_last()).after(outcomes.last())
        }
    }

    /// A run at its first stage.
    pub fn new(plan: CapturePlan) -> (g: Self)
        ensures
            g == GuestRun::fresh(plan),
    {
        GuestRun { plan, stage: GuestStage::MapRegion, kept_alive: false }
    }

    /// Takes whether the stage that was due succeeded.
    pub fn advance(&mut self, ok: bool)
        ensures
            *final(self) == old(self).after(ok),
    {
        match self.stage {
            GuestStage::MapRegion => {
                self.stage = if ok {
                    GuestStage::Attach
                } else {
                    GuestStage::Failed
                };
            },
            GuestStage::Attach => {
                self.stage = if !ok {
                    GuestStage::WaitForHost
                } else {
                    match self.plan {
                        CapturePlan::Graph(_, _) => GuestStage::CaptureGraph,
                        CapturePlan::Endpoint(Some(_)) => GuestStage::StartKeepAlive,
                        CapturePlan::Endpoint(None) => GuestStage::Settle,
                    }
                };
            },
            GuestStage::WaitForHost => self.stage = GuestStage::Attach,
            GuestStage::StartKeepAlive => {
                if ok {
                    self.kept_alive = true;
                    self.stage = GuestStage::SpinUp;
                } else {
                    self.stage = GuestStage::Settle;
                }
            },
            GuestStage::SpinUp => self.stage = GuestStage::Settle,
            GuestStage::Settle => self.stage = GuestStage::CaptureEndpoint,
            GuestStage::CaptureEndpoint | GuestStage::CaptureGraph => {
                self.stage = if ok {
                    GuestStage::Done
                } else {
                    GuestStage::Failed
                };
            },
            GuestStage::Done | GuestStage::Failed => {},
        }
    }

    /// How long to sleep where waiting is due, in milliseconds.
    pub fn pause_ms(&self) -> (ms: u64)
        ensures
            ms == (match self.stage {
                GuestStage::WaitForHost => ATTACH_RETRY_MS,
                GuestStage::SpinUp => SPIN_UP_MS,
                GuestStage::Settle => SETTLE_MS,
                _ => 0,
            }),
    {
        match self.stage {
            GuestStage::WaitForHost => ATTACH_RETRY_MS,
            GuestStage::SpinUp => SPIN_UP_MS,
            GuestStage::Settle => SETTLE_MS,
            _ => 0,
        }
    }
}

/// How often a stage was carried out in a run with these outcomes.
pub open spec fn times(plan: CapturePlan, outcomes: Seq<bool>, stage: GuestStage) -> int
    decreases outcomes.len(),
{
    if outcomes.len() == 0 {
        0
    } else {
        times(plan, outcomes.drop_last(), stage) + if GuestRun::fresh(plan).after_all(
            outcomes.drop_last(),
        ).stage == stage {
            1int
        } else {
            0
        }
    }
}

/// An endpoint is captured from only after the ring was attached and, if a video
/// stream is to be kept open, after that was tried exactly once; a graph is captured
/// from without a second one for video.
pub proof fn video_starts_before_audio(plan: CapturePlan, outcomes: Seq<bool>)
    ensures
        ({
            let g = GuestRun::fresh(plan).after_all(outcomes);
            let tried = times(plan, outcomes, GuestStage::StartKeepAlive);
            &&& g.plan == plan
            &&& g.stage == GuestStage::CaptureEndpoint ==> {
                &&& plan is Endpoint
                &&& times(plan, outcomes, GuestStage::Attach) >= 1
                &&& tried == (if plan->Endpoint_0 is Some {
                    1int
                } else {
                    0
                })
            }
            &&& g.stage == GuestStage::CaptureGraph ==> {
                &&& plan is Graph
                &&& times(plan, outcomes, GuestStage::Attach) >= 1
                &&& tried == 0
                &&& !g.kept_alive
            }
        }),
{
    lemma_stages(plan, outcomes);
}

proof fn lemma_stages(plan: CapturePlan, outcomes: Seq<bool>)
    ensures
        ({
            let g = GuestRun::fresh(plan).after_all(outcomes);
            let tried = times(plan, outcomes, GuestStage::StartKeepAlive);
            let attached = times(plan, outcomes, GuestStage::Attach);
            let wanted = plan matches CapturePlan::Endpoint(Some(_));
            &&& g.plan == plan
            &&& attached >= 0
            &&& match g.stage {
                GuestStage::MapRegion
                | GuestStage::Attach
                | GuestStage::WaitForHost => tried == 0 && !g.kept_alive,
                GuestStage::StartKeepAlive => tried == 0 && !g.kept_alive && wanted && attached
                    >= 1,
                GuestStage::SpinUp => tried == 1 && wanted && attached >= 1,
                GuestStage::Settle | GuestStage::CaptureEndpoint => {
                    &&& plan is Endpoint
                    &&& tried == (if wanted {
                        1int
                    } else {
                        0
                    })
                    &&& attached >= 1
                },
                GuestStage::CaptureGraph => {
                    plan is Graph && tried == 0 && !g.kept_alive && attached >= 1
                },
                _ => true,
            }
        }),
    decreases outcomes.len(),
{
    if outcomes.len() > 0 {
        lemma_stages(plan, outcomes.drop_last());
    }
}

/// A run whose stages all succeed maps the region, attaches, and captures: from the graph
/// at once, from an endpoint after a pause, and after the video stream was opened and had
/// time to spin up where one is to be kept open. It then is done.
pub proof fn successful_runs_capture(plan: CapturePlan)
    ensures
        ({
            let attach = GuestRun::fresh(plan).after(true);
            let attached = attach.after(true);
            &&& GuestRun::fresh(plan).stage == GuestStage::MapRegion
            &&& attach.stage == GuestStage::Attach
            &&& plan is Graph ==> {
                &&& attached == (GuestRun {
                    plan,
                    stage: GuestStage::CaptureGraph,
                    kept_alive: false,
                })
                &&& attached.after(true).stage == GuestStage::Done
            }
            &&& plan == CapturePlan::Endpoint(None) ==> {
                &&& attached.stage == GuestStage::Settle
                &&& attached.after(true) == (GuestRun {
                    plan,
                    stage: GuestStage::CaptureEndpoint,
                    kept_alive: false,
                })
                &&& attached.after(true).after(true).stage == GuestStage::Done
            }
            &&& (plan matches CapturePlan::Endpoint(Some(_))) ==> {
                &&& attached.stage == GuestStage::StartKeepAlive
                &&& attached.after(true).stage == GuestStage::SpinUp
                &&& attached.after(true).after(true).stage == GuestStage::Settle
                &&& attached.after(true).after(true).after(true) == (GuestRun {
                    plan,
                    stage: GuestStage::CaptureEndpoint,
                    kept_alive: true,
                })
            }
        }),
{
}

/// What a failure does: without a region or in the middle of a capture it ends the run; a
/// host that is not there yet is waited for and tried again; a video stream that cannot be
/// opened is done without. Pauses cannot fail, and a run that has ended stays so.
pub proof fn failures_end_the_run_or_are_waited_out(g: GuestRun, ok: bool)
    ensures
        ({
            let failed = g.after(false);
            &&& g.after(ok).plan == g.plan
            &&& g.stage == GuestStage::MapRegion || g.stage == GuestStage::CaptureEndpoint || g.stage
                == GuestStage::CaptureGraph ==> failed == (GuestRun {
                stage: GuestStage::Failed,
                ..g
            })
            &&& g.stage == GuestStage::Attach ==> failed == (GuestRun {
                stage: GuestStage::WaitForHost,
                ..g
            }) && failed.after(ok) == g
            &&& g.stage == GuestStage::StartKeepAlive ==> failed == (GuestRun {
                stage: GuestStage::Settle,
                ..g
            })
            &&& g.stage == GuestStage::SpinUp ==> g.after(ok) == (GuestRun {
                stage: GuestStage::Settle,
                ..g
            })
            &&& g.stage == GuestStage::Settle ==> g.after(ok) == (GuestRun {
                stage: GuestStage::CaptureEndpoint,
                ..g
            })
            &&& g.stage == GuestStage::Done || g.stage == GuestStage::Failed ==> g.after(ok) == g
        }),
{
}

} // verus!
