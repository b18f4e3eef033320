//! The per-frame cycle: request, acquire, ready, present.
//!
//! A frame request first settles timing and any pending resize, then
//! acquisition begins.  A transient acquisition failure is answered by
//! reconfiguring the surface and retrying exactly once; a second
//! failure aborts the cycle.  The terminal per-frame state carries the
//! frame target, and presenting returns the cycle to idle.

use vstd::prelude::*;

use crate::gpu::Gpu;
use crate::gpu::SurfaceConfig;
use crate::gpu::SurfaceSize;
use crate::gpu::fps_of_window;
use crate::gpu::push_sample;
use crate::gpu::spec_frame_interval;
use crate::gpu::sum_nanos;

verus! {

/// Where the frame cycle stands.
#[derive(Clone, Copy, PartialEq, Eq, Structural, Debug)]
pub enum FramePhase {
    /// No frame in flight.
    Idle,
    /// Waiting for the surface to hand out the next image.
    Acquiring { retried: bool },
    /// A frame target exists and may be rendered to.
    Ready,
}

/// What the surface answered to an acquisition attempt.
#[derive(Clone, Copy, PartialEq, Eq, Structural, Debug)]
pub enum AcquireOutcome {
    Acquired,
    /// The surface is outdated or lost.
    Lost,
}

/// What the embedding program must do after an acquisition attempt.
#[derive(Clone, Copy, PartialEq, Eq, Structural, Debug)]
pub enum AcquireAction {
    /// Use the acquired image; the frame is ready.
    Accept,
    /// Reconfigure the surface, then attempt acquisition once more.
    ReconfigureAndRetry,
    /// Second failure in a row: fatal, the frame cycle aborts.
    Abort,
}

/// Entering acquisition from the idle state.
pub fn begin_acquire(phase: FramePhase) -> (r: FramePhase)
    requires
        phase is Idle,
    ensures
        r == (FramePhase::Acquiring { retried: false }),
{
    FramePhase::Acquiring { retried: false }
}

/// One acquisition attempt: success readies the frame; the first
/// failure asks for one reconfigure-and-retry; the second aborts.
pub fn acquire_step(phase: FramePhase, outcome: AcquireOutcome) -> (r: (FramePhase, AcquireAction))
    requires
        phase is Acquiring,
    ensures
        outcome is Acquired ==> r == (FramePhase::Ready, AcquireAction::Accept),
        outcome is Lost && phase == (FramePhase::Acquiring { retried: false }) ==> r == (
            FramePhase::Acquiring { retried: true },
            AcquireAction::ReconfigureAndRetry,
        ),
        outcome is Lost && phase == (FramePhase::Acquiring { retried: true }) ==> r == (
            FramePhase::Idle,
            AcquireAction::Abort,
        ),
{
    match outcome {
        AcquireOutcome::Acquired => (FramePhase::Ready, AcquireAction::Accept),
        AcquireOutcome::Lost => {
            match phase {
                FramePhase::Acquiring { retried } => {
                    if retried {
                        (FramePhase::Idle, AcquireAction::Abort)
                    } else {
                        (FramePhase::Acquiring { retried: true }, AcquireAction::ReconfigureAndRetry)
                    }
                },
                _ => (FramePhase::Idle, AcquireAction::Abort),
            }
        },
    }
}

/// Presentation consumes the ready frame and returns the cycle to
/// idle.
pub fn finish_present(phase: FramePhase) -> (r: FramePhase)
    requires
        phase is Ready,
    ensures
        r is Idle,
{
    FramePhase::Idle
}

/// What a frame request settled before acquisition: the measured
/// delta, and whether the surface must be reconfigured because a
/// resize was applied.
#[derive(Clone, Copy)]
pub struct FramePrep {
    /// Time since the previous frame, nanoseconds.
    pub delta: u64,
    /// The surface configuration changed; reconfigure before
    /// acquiring.
    pub reconfigure: bool,
}

/// Task producing the per-frame target: timing first, then the
/// coalesced resize, then acquisition can begin.
#[derive(Default)]
pub struct CreateFrame {}

impl CreateFrame {
    /// Registers the frame request at time `now`: the delta to the
    /// previous frame (synthetic on the first frame) is rolled into
    /// the FPS window, and the latest pending resize — if its
    /// dimensions are non-degenerate — replaces the surface
    /// dimensions.
    pub fn run(&mut self, renderer: &mut Gpu, now: u64) -> (prep: FramePrep)
        requires
            old(renderer).wf(),
            old(renderer).spec_last_frame() matches Some(t) ==> t <= now,
        ensures
            final(renderer).wf(),
            prep.delta == match old(renderer).spec_last_frame() {
                Some(t) => now - t,
                None => spec_frame_interval(old(renderer).spec_fps_request()),
            },
            final(renderer).window() == push_sample(
                old(renderer).window(),
                old(renderer).capacity(),
                prep.delta,
            ),
            final(renderer).window().len() <= final(renderer).capacity(),
            final(renderer).capacity() == old(renderer).capacity(),
            final(renderer).spec_last_frame() == Some(now),
            final(renderer).spec_fps() == fps_of_window(
                final(renderer).window().len() as int,
                sum_nanos(final(renderer).window()),
            ),
            final(renderer).spec_resize_request() is None,
            match old(renderer).spec_resize_request() {
                Some(sz) => {
                    if sz.width > 0 && sz.height > 0 {
                        prep.reconfigure && final(renderer).surface_conf() == (SurfaceConfig {
                            width: sz.width,
                            height: sz.height,
                            format: old(renderer).surface_conf().format,
                            present_mode: old(renderer).surface_conf().present_mode,
                        })
                    } else {
                        !prep.reconfigure && final(renderer).surface_conf() == old(
                            renderer,
                        ).surface_conf()
                    }
                },
                None => !prep.reconfigure && final(renderer).surface_conf() == old(
                    renderer,
                ).surface_conf(),
            },
            final(renderer).spec_fps_request() == old(renderer).spec_fps_request(),
            final(renderer).spec_sample_count() == old(renderer).spec_sample_count(),
            Gpu::same_storage(old(renderer), final(renderer)),
    {
        let delta = renderer.register_frame(now);
        let reconfigure = renderer.apply_resize();
        FramePrep { delta, reconfigure }
    }
}

/// Task turning a windowing-layer size event into a coalesced resize
/// request: the latest request wins.
#[derive(Default)]
pub struct ResizeSurface {}

impl ResizeSurface {
    pub fn run(&mut self, surface_size: SurfaceSize, renderer: &mut Gpu)
        requires
            old(renderer).wf(),
        ensures
            final(renderer).wf(),
            final(renderer).spec_resize_request() == Some(surface_size),
            final(renderer).surface_conf() == old(renderer).surface_conf(),
            final(renderer).window() == old(renderer).window(),
            final(renderer).capacity() == old(renderer).capacity(),
            final(renderer).spec_last_frame() == old(renderer).spec_last_frame(),
            final(renderer).spec_fps() == old(renderer).spec_fps(),
            final(renderer).spec_fps_request() == old(renderer).spec_fps_request(),
            final(renderer).spec_sample_count() == old(renderer).spec_sample_count(),
            Gpu::same_storage(old(renderer), final(renderer)),
    {
        renderer.resize_request(surface_size.width, surface_size.height);
    }
}

} // verus!
