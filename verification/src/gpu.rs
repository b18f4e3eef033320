//! The device context: frame timing, surface configuration and the
//! object registry behind one owner.
//!
//! Frame pacing is measured over a rolling window of recent frame
//! durations (nanoseconds); the window holds `FPS_MEASURE_INTERVAL`
//! seconds worth of samples at the requested rate and evicts its
//! oldest sample first once full.  Frame rates are integers in
//! millihertz, so a request of 60 fps is written `60_000`.
//!
//! Resize requests arrive asynchronously and coalesce: at most one is
//! pending and the latest wins.  The pending request is applied at the
//! start of the next frame, before acquisition, and degenerate
//! dimensions (zero width or height) are ignored.

use vstd::prelude::*;

use crate::buffer::Buffer;
use crate::buffer::Builder;
use crate::registry::Registry;
use crate::registry::Resource;
use crate::registry::as_buffer;

verus! {

/// Length in seconds of the frame-rate measurement window.
pub const FPS_MEASURE_INTERVAL: u32 = 5;

pub const NANOS_PER_SEC: u64 = 1_000_000_000;

/// Features the device must offer; the embedding program maps these
/// bits onto the backend's feature flags.
pub const FEATURE_MULTI_DRAW_INDIRECT: u64 = 1;

pub const FEATURE_INDIRECT_FIRST_INSTANCE: u64 = 2;

/// Minimum supported shader-model tier.
pub const REQUIRED_SHADER_MODEL: u32 = 5;

/// Storage-buffer count the device is asked for, suited to the shared
/// scene buffers.
pub const STORAGE_BUFFERS_PER_STAGE: u32 = 5;

/// Storage-buffer binding size the device is asked for.
pub const MAX_STORAGE_BUFFER_BINDING_SIZE: u64 = 1_073_741_824;

/// A requested surface size, produced by the windowing layer.
#[derive(Clone, Copy, PartialEq, Eq, Structural, Debug)]
pub struct SurfaceSize {
    pub width: u32,
    pub height: u32,
}

/// How the presentation engine paces frames.
#[derive(Clone, Copy, PartialEq, Eq, Structural, Debug)]
pub enum PresentMode {
    Immediate,
    Mailbox,
    Fifo,
}

/// The active presentation-surface configuration.
#[derive(Clone, Copy, PartialEq, Eq, Structural, Debug)]
pub struct SurfaceConfig {
    pub width: u32,
    pub height: u32,
    /// Identifier of the texture format, as reported by the device.
    pub format: u32,
    pub present_mode: PresentMode,
}

/// Startup parameters of the device context.
#[derive(Clone, Copy)]
pub struct Descriptor {
    /// Requested frame rate, in millihertz.
    pub fps_request: u32,
    pub surface_width: u32,
    pub surface_height: u32,
    pub sample_count: u32,
}

/// What the adapter reports about itself at startup.
#[derive(Clone, Copy)]
pub struct DeviceCapabilities {
    /// Feature bits, in this crate's encoding.
    pub features: u64,
    /// Shader-model tier.
    pub shader_model: u32,
}

/// Why device initialization cannot proceed.  Both conditions are
/// fatal: rendering is impossible without them.
#[derive(Clone, Copy, PartialEq, Eq, Structural, Debug)]
pub enum InitError {
    /// One or both required feature bits are absent.
    MissingFeatures { missing: u64 },
    /// The supported shader-model tier is below the required one.
    ShaderModelTooLow { supported: u32 },
}

/// The feature set rendering requires of the device.
pub open spec fn spec_required_features() -> u64 {
    FEATURE_MULTI_DRAW_INDIRECT | FEATURE_INDIRECT_FIRST_INSTANCE
}

pub fn required_features() -> (r: u64)
    ensures
        r == spec_required_features(),
{
    FEATURE_MULTI_DRAW_INDIRECT | FEATURE_INDIRECT_FIRST_INSTANCE
}

/// Capability negotiation: succeeds exactly when the adapter offers
/// every required feature bit and a sufficient shader-model tier.
pub fn check_device_capabilities(caps: &DeviceCapabilities) -> (r: Result<(), InitError>)
    ensures
        r is Ok <==> caps.features & spec_required_features() == spec_required_features()
            && caps.shader_model >= REQUIRED_SHADER_MODEL,
        r matches Err(InitError::MissingFeatures { missing }) ==> missing
            == spec_required_features() & !caps.features && missing != 0,
        r matches Err(InitError::ShaderModelTooLow { supported }) ==> supported
            == caps.shader_model && caps.shader_model < REQUIRED_SHADER_MODEL && caps.features
            & spec_required_features() == spec_required_features(),
    {
    let fv = caps.features;
    let required = required_features();
    let missing = required & !fv;
    proof {
        assert((fv & (1u64 | 2u64) == (1u64 | 2u64)) <==> ((1u64 | 2u64) & !fv == 0u64))
            by (bit_vector);
    }
    if missing != 0 {
        return Err(InitError::MissingFeatures { missing });
    }
    if caps.shader_model < REQUIRED_SHADER_MODEL {
        return Err(InitError::ShaderModelTooLow { supported: caps.shader_model });
    }
    Ok(())
}

/// Capacity of the rolling duration window: the measurement interval
/// times the requested rate, rounded up to whole frames.
pub open spec fn spec_window_capacity(fps_request: u32) -> int {
    (FPS_MEASURE_INTERVAL as int) * ((fps_request + 999) / 1000)
}

/// The synthetic first-frame delta: one frame interval at the
/// requested rate, in nanoseconds.
pub open spec fn spec_frame_interval(fps_request: u32) -> int {
    1_000_000_000_000int / (fps_request as int)
}

/// One step of the rolling window: evict the oldest sample first when
/// the window is full, then append the new one.
pub open spec fn push_sample(w: Seq<u64>, cap: int, d: u64) -> Seq<u64> {
    if w.len() >= cap {
        w.drop_first().push(d)
    } else {
        w.push(d)
    }
}

pub open spec fn sum_nanos(w: Seq<u64>) -> int
    decreases w.len(),
{
    if w.len() == 0 {
        0
    } else {
        sum_nanos(w.drop_last()) + w.last()
    }
}

/// Measured rate in millihertz over a window: sample count divided by
/// total duration, saturated when the window total is zero or the
/// quotient exceeds the representable range.
pub open spec fn fps_of_window(len: int, sum: int) -> u64 {
    if sum <= 0 {
        u64::MAX
    } else if len * 1_000_000_000_000 / sum > u64::MAX {
        u64::MAX
    } else {
        (len * 1_000_000_000_000 / sum) as u64
    }
}

/// The rolling window after a whole sequence of frame deltas has been
/// pushed through it.
pub open spec fn window_after(w: Seq<u64>, cap: int, ds: Seq<u64>) -> Seq<u64>
    decreases ds.len(),
{
    if ds.len() == 0 {
        w
    } else {
        window_after(push_sample(w, cap, ds.first()), cap, ds.drop_first())
    }
}

/// However many frames are requested, the rolling window never
/// exceeds its capacity, and each step of a full window drops exactly
/// the oldest sample before appending the new one.
pub proof fn lemma_window_never_exceeds_capacity(w: Seq<u64>, cap: int, ds: Seq<u64>)
    requires
        cap >= 1,
        w.len() <= cap,
    ensures
        window_after(w, cap, ds).len() <= cap,
        forall|x: Seq<u64>, d: u64|
            x.len() == cap ==> #[trigger] push_sample(x, cap, d) == x.drop_first().push(d),
        forall|x: Seq<u64>, d: u64|
            x.len() < cap ==> #[trigger] push_sample(x, cap, d) == x.push(d),
    decreases ds.len(),
{
    if ds.len() > 0 {
        lemma_window_never_exceeds_capacity(push_sample(w, cap, ds.first()), cap, ds.drop_first());
    }
}

/// A presentable frame: the surface image is held by the embedding
/// program; this carries the measured timing.
pub struct Frame {
    /// Time since the previous frame, nanoseconds.
    pub delta: u64,
    /// Capture timestamp, nanoseconds.
    pub instant: u64,
}

impl Frame {
    pub fn delta(&self) -> (r: u64)
        ensures
            r == self.delta,
    {
        self.delta
    }
}

/// The device context: timing state, surface state and object store.
pub struct Gpu {
    /// Requested frame rate, millihertz.
    fps_request: u32,
    sample_count: u32,
    /// Rolling log of frame durations, oldest first.
    frames_duration: Vec<u64>,
    window_capacity: usize,
    /// Timestamp of the previous frame request.
    last_frame: Option<u64>,
    /// Measured frame rate, millihertz.
    fps: u64,
    surface_conf: SurfaceConfig,
    /// Pending resize, coalesced: the latest request wins.
    resize_request: Option<SurfaceSize>,
    storage: Registry,
}

impl Gpu {
    pub closed spec fn spec_fps_request(&self) -> u32 {
        self.fps_request
    }

    pub closed spec fn spec_sample_count(&self) -> u32 {
        self.sample_count
    }

    pub closed spec fn window(&self) -> Seq<u64> {
        self.frames_duration@
    }

    pub closed spec fn capacity(&self) -> int {
        self.window_capacity as int
    }

    pub closed spec fn spec_last_frame(&self) -> Option<u64> {
        self.last_frame
    }

    pub closed spec fn spec_fps(&self) -> u64 {
        self.fps
    }

    pub closed spec fn surface_conf(&self) -> SurfaceConfig {
        self.surface_conf
    }

    pub closed spec fn spec_resize_request(&self) -> Option<SurfaceSize> {
        self.resize_request
    }

    pub closed spec fn objects(&self) -> Map<u64, Resource> {
        self.storage@
    }

    pub closed spec fn next_handle(&self) -> u64 {
        self.storage.next_handle()
    }

    pub closed spec fn storage_wf(&self) -> bool {
        self.storage.wf()
    }

    pub open spec fn wf(&self) -> bool {
        &&& self.spec_fps_request() > 0
        &&& self.capacity() == spec_window_capacity(self.spec_fps_request())
        &&& self.window().len() <= self.capacity()
        &&& self.storage_wf()
    }

    /// Everything but the object store is the same in both states.
    pub open spec fn same_frame_state(a: &Gpu, b: &Gpu) -> bool {
        &&& a.spec_fps_request() == b.spec_fps_request()
        &&& a.spec_sample_count() == b.spec_sample_count()
        &&& a.window() == b.window()
        &&& a.capacity() == b.capacity()
        &&& a.spec_last_frame() == b.spec_last_frame()
        &&& a.spec_fps() == b.spec_fps()
        &&& a.surface_conf() == b.surface_conf()
        &&& a.spec_resize_request() == b.spec_resize_request()
    }

    /// The object store is the same in both states.
    pub open spec fn same_storage(a: &Gpu, b: &Gpu) -> bool {
        a.objects() == b.objects() && a.next_handle() == b.next_handle()
    }

    /// Builds the context around an already negotiated device: the
    /// surface takes the first format the device reported for it, the
    /// low-latency present mode, and the descriptor's dimensions.
    pub fn new(descriptor: &Descriptor, first_supported_format: u32) -> (r: Gpu)
        requires
            descriptor.fps_request > 0,
        ensures
            r.wf(),
            r.spec_fps_request() == descriptor.fps_request,
            r.spec_sample_count() == descriptor.sample_count,
            r.window() == Seq::<u64>::empty(),
            r.spec_last_frame() is None,
            r.spec_fps() == descriptor.fps_request as u64,
            r.surface_conf() == (SurfaceConfig {
                width: descriptor.surface_width,
                height: descriptor.surface_height,
                format: first_supported_format,
                present_mode: PresentMode::Mailbox,
            }),
            r.spec_resize_request() is None,
            r.objects() == Map::<u64, Resource>::empty(),
            r.next_handle() == 0,
    {
        let fps_samples: u64 = (FPS_MEASURE_INTERVAL as u64) * (((descriptor.fps_request as u64)
            + 999) / 1000);
        Gpu {
            fps_request: descriptor.fps_request,
            sample_count: descriptor.sample_count,
            frames_duration: Vec::new(),
            window_capacity: fps_samples as usize,
            last_frame: None,
            fps: descriptor.fps_request as u64,
            surface_conf: SurfaceConfig {
                width: descriptor.surface_width,
                height: descriptor.surface_height,
                format: first_supported_format,
                present_mode: PresentMode::Mailbox,
            },
            resize_request: None,
            storage: Registry::new(),
        }
    }

    /// Registers a frame request at time `now`: computes the delta to
    /// the previous frame (a synthetic one-frame interval on the first
    /// request), rolls it into the duration window with FIFO eviction,
    /// and remeasures the frame rate.
    pub fn register_frame(&mut self, now: u64) -> (delta: u64)
        requires
            old(self).wf(),
            old(self).spec_last_frame() matches Some(t) ==> t <= now,
        ensures
            final(self).wf(),
            delta == match old(self).spec_last_frame() {
                Some(t) => now - t,
                None => spec_frame_interval(old(self).spec_fps_request()),
            },
            final(self).window() == push_sample(old(self).window(), old(self).capacity(), delta),
            final(self).window().len() <= final(self).capacity(),
            final(self).spec_last_frame() == Some(now),
            final(self).spec_fps() == fps_of_window(
                final(self).window().len() as int,
                sum_nanos(final(self).window()),
            ),
            final(self).spec_fps_request() == old(self).spec_fps_request(),
            final(self).spec_sample_count() == old(self).spec_sample_count(),
            final(self).capacity() == old(self).capacity(),
            final(self).surface_conf() == old(self).surface_conf(),
            final(self).spec_resize_request() == old(self).spec_resize_request(),
            Gpu::same_storage(old(self), final(self)),
    {
        let delta: u64 = match self.last_frame {
            Some(t) => now - t,
            None => 1_000_000_000_000u64 / (self.fps_request as u64),
        };
        self.last_frame = Some(now);
        if self.frames_duration.len() >= self.window_capacity {
            self.frames_duration.remove(0);
            proof {
                assert(old(self).window().remove(0) =~= old(self).window().drop_first());
            }
        }
        self.frames_duration.push(delta);

        proof {
            vstd::arithmetic::div_mod::lemma_div_is_ordered(
                old(self).spec_fps_request() + 999,
                0xffff_ffffint + 999,
                1000,
            );
            assert(spec_window_capacity(old(self).spec_fps_request()) <= 21_474_840);
        }
        let n = self.frames_duration.len();
        let mut sum: u128 = 0;
        let mut i: usize = 0;
        while i < n
            invariant
                i <= n,
                n <= 21_474_840,
                n == self.frames_duration@.len(),
                sum == sum_nanos(self.frames_duration@.take(i as int)),
                sum <= (i as int) * (u64::MAX as int),
            decreases n - i,
        {
            let d = self.frames_duration[i];
            proof {
                assert(self.frames_duration@.take((i + 1) as int).drop_last()
                    =~= self.frames_duration@.take(i as int));
                assert(self.frames_duration@.take((i + 1) as int).last()
                    == self.frames_duration@[i as int]);
                lemma_sum_nanos_bound(self.frames_duration@.take(i as int));
            }
            sum = sum + (d as u128);
            i = i + 1;
        }
        proof {
            assert(self.frames_duration@.take(n as int) =~= self.frames_duration@);
        }
        let fps: u64 = if sum == 0 {
            u64::MAX
        } else {
            let q: u128 = ((n as u128) * 1_000_000_000_000u128) / sum;
            if q > (u64::MAX as u128) {
                u64::MAX
            } else {
                q as u64
            }
        };
        self.fps = fps;
        delta
    }

    /// Notes a resize request, replacing any pending one.
    pub fn resize_request(&mut self, width: u32, height: u32)
        requires
            old(self).wf(),
        ensures
            final(self).wf(),
            final(self).spec_resize_request() == Some(SurfaceSize { width, height }),
            final(self).surface_conf() == old(self).surface_conf(),
            final(self).spec_fps_request() == old(self).spec_fps_request(),
            final(self).spec_sample_count() == old(self).spec_sample_count(),
            final(self).window() == old(self).window(),
            final(self).capacity() == old(self).capacity(),
            final(self).spec_last_frame() == old(self).spec_last_frame(),
            final(self).spec_fps() == old(self).spec_fps(),
            Gpu::same_storage(old(self), final(self)),
    {
        self.resize_request = Some(SurfaceSize { width, height });
    }

    /// Applies the pending resize, if any: degenerate dimensions leave
    /// the surface configuration untouched.  Returns whether the
    /// surface must be reconfigured.
    pub fn apply_resize(&mut self) -> (changed: bool)
        requires
            old(self).wf(),
        ensures
            final(self).wf(),
            final(self).spec_resize_request() is None,
            match old(self).spec_resize_request() {
                Some(sz) => {
                    if sz.width > 0 && sz.height > 0 {
                        changed && final(self).surface_conf() == (SurfaceConfig {
                            width: sz.width,
                            height: sz.height,
                            format: old(self).surface_conf().format,
                            present_mode: old(self).surface_conf().present_mode,
                        })
                    } else {
                        !changed && final(self).surface_conf() == old(self).surface_conf()
                    }
                },
                None => !changed && final(self).surface_conf() == old(self).surface_conf(),
            },
            final(self).spec_fps_request() == old(self).spec_fps_request(),
            final(self).spec_sample_count() == old(self).spec_sample_count(),
            final(self).window() == old(self).window(),
            final(self).capacity() == old(self).capacity(),
            final(self).spec_last_frame() == old(self).spec_last_frame(),
            final(self).spec_fps() == old(self).spec_fps(),
            Gpu::same_storage(old(self), final(self)),
    {
        let pending = self.resize_request;
        self.resize_request = None;
        match pending {
            Some(sz) => {
                if sz.width > 0 && sz.height > 0 {
                    self.surface_conf.width = sz.width;
                    self.surface_conf.height = sz.height;
                    true
                } else {
                    false
                }
            },
            None => false,
        }
    }

    pub fn surface_format(&self) -> (r: u32)
        ensures
            r == self.surface_conf().format,
    {
        self.surface_conf.format
    }

    pub fn surface_config(&self) -> (r: SurfaceConfig)
        ensures
            r == self.surface_conf(),
    {
        self.surface_conf
    }

    /// How many duration samples the rolling window currently holds.
    pub fn frames_logged(&self) -> (r: usize)
        ensures
            r == self.window().len(),
    {
        self.frames_duration.len()
    }

    pub fn sample_count(&self) -> (r: u32)
        ensures
            r == self.spec_sample_count(),
    {
        self.sample_count
    }

    pub fn fps(&self) -> (r: u64)
        ensures
            r == self.spec_fps(),
    {
        self.fps
    }

    /// Starts composing a buffer; capability flags are added on the
    /// builder before the one creation call.
    pub fn buffer(&self) -> (r: Builder)
        ensures
            r.spec_size() == 0,
            r.spec_usage() == 0,
    {
        Builder::new()
    }

    /// Stores an object under a fresh handle.
    pub fn store(&mut self, data: Resource) -> (id: u64)
        requires
            old(self).wf(),
            old(self).next_handle() < u64::MAX,
        ensures
            final(self).wf(),
            id == old(self).next_handle(),
            !old(self).objects().dom().contains(id),
            final(self).objects() == old(self).objects().insert(id, data),
            final(self).next_handle() == id + 1,
            Gpu::same_frame_state(old(self), final(self)),
    {
        self.storage.store(data)
    }

    /// Stores an object under a caller-chosen handle, overwriting any
    /// existing entry.
    pub fn store_as(&mut self, id: u64, data: Resource)
        requires
            old(self).wf(),
            id < u64::MAX,
        ensures
            final(self).wf(),
            final(self).objects() == old(self).objects().insert(id, data),
            Gpu::same_frame_state(old(self), final(self)),
    {
        self.storage.store_as(id, data)
    }

    pub fn get(&self, id: u64) -> (r: Option<&Resource>)
        requires
            self.wf(),
        ensures
            match r {
                Some(v) => self.objects().dom().contains(id) && *v == self.objects()[id],
                None => !self.objects().dom().contains(id),
            },
    {
        self.storage.get(id)
    }

    pub fn get_mut(&mut self, id: u64) -> (r: Option<&mut Resource>)
        requires
            old(self).wf(),
        ensures
            match r {
                Some(v) => old(self).objects().dom().contains(id) && *v == old(self).objects()[id]
                    && final(self).wf() && final(self).objects() == old(self).objects().insert(
                    id,
                    *final(v),
                ) && Gpu::same_frame_state(old(self), final(self)),
                None => !old(self).objects().dom().contains(id) && *final(self) == *old(self),
            },
    {
        self.storage.get_mut(id)
    }

    /// Typed retrieval of a stored buffer.
    pub fn get_buffer(&self, id: u64) -> (r: Option<&Buffer>)
        requires
            self.wf(),
        ensures
            match r {
                Some(b) => self.objects().dom().contains(id) && self.objects()[id]
                    == Resource::Buffer(*b),
                None => !self.objects().dom().contains(id) || !(self.objects()[id] is Buffer),
            },
    {
        self.storage.get_buffer(id)
    }

    /// Immediate host-to-device copy into a stored buffer.  A missing
    /// or non-buffer handle is skipped; a write that fits is applied
    /// exactly.  Returns whether the write happened.
    pub fn write_buffer_by_id(&mut self, id: u64, offset: u64, data: &Vec<u8>) -> (written: bool)
        requires
            old(self).wf(),
        ensures
            final(self).wf(),
            Gpu::same_frame_state(old(self), final(self)),
            final(self).next_handle() == old(self).next_handle(),
            written <==> old(self).objects().dom().contains(id) && old(self).objects()[id]
                is Buffer && offset + data@.len() <= as_buffer(old(self).objects()[id]).unwrap()@.len(),
            !written ==> final(self).objects() == old(self).objects(),
            written ==> ({
                let b = as_buffer(old(self).objects()[id]).unwrap();
                &&& final(self).objects().dom() == old(self).objects().dom()
                &&& forall|k: u64|
                    k != id && old(self).objects().dom().contains(k)
                        ==> final(self).objects()[k] == old(self).objects()[k]
                &&& final(self).objects()[id] is Buffer
                &&& as_buffer(final(self).objects()[id]).unwrap().spec_usage() == b.spec_usage()
                &&& as_buffer(final(self).objects()[id]).unwrap()@ == b@.take(offset as int)
                    + data@ + b@.skip(offset + data@.len())
            }),
    {
        let written = match self.storage.get_mut(id) {
            Some(res) => match res {
                Resource::Buffer(b) => {
                    let cap = b.size();
                    if data.len() as u64 <= cap as u64 && offset <= cap as u64 - data.len() as u64 {
                        b.write(offset, data);
                        true
                    } else {
                        false
                    }
                },
                _ => false,
            },
            None => false,
        };
        proof {
            if !written {
                assert(self.objects() =~= old(self).objects());
            } else {
                assert(self.objects().dom() =~= old(self).objects().dom());
            }
        }
        written
    }
}

proof fn lemma_sum_nanos_bound(w: Seq<u64>)
    ensures
        0 <= sum_nanos(w) <= w.len() * (u64::MAX as int),
    decreases w.len(),
{
    if w.len() > 0 {
        lemma_sum_nanos_bound(w.drop_last());
        assert((w.len() - 1) * (u64::MAX as int) + (u64::MAX as int) == w.len() * (u64::MAX as int))
            by (nonlinear_arith);
    }
}

} // verus!
