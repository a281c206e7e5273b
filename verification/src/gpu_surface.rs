//! When the GPU side of a layer surface is recreated, reconfigured or reset.
//!
//! The GPU objects themselves stay with the caller; `GpuSurfaceStatus` holds
//! what the decisions read of them.
use vstd::prelude::*;

verus! {

/// What the renderer knows of the GPU surface of one output.
#[derive(Clone, Copy, Debug, PartialEq, Eq)]
pub struct GpuSurfaceStatus {
    /// A GPU surface exists.
    pub has_surface: bool,
    /// Width and height the surface is configured with, if it is.
    pub config_size: Option<(u32, u32)>,
    /// Descriptor generation the surface was last prepared for.
    pub last_applied_generation: u64,
}

impl GpuSurfaceStatus {
    /// No surface, no configuration, generation 0.
    pub fn new() -> (res: Self)
        ensures
            !res.has_surface,
            res.config_size is None,
            res.last_applied_generation == 0,
    {
        GpuSurfaceStatus { has_surface: false, config_size: None, last_applied_generation: 0 }
    }
}

/// What preparing a surface for this frame has to do.
#[derive(Clone, Copy, Debug, PartialEq, Eq)]
pub struct PreparePlan {
    /// A new GPU surface is created.
    pub recreate: bool,
    /// The surface is (re)configured.
    pub configure: bool,
    /// Configured width, at least 1.
    pub width: u32,
    /// Configured height, at least 1.
    pub height: u32,
}

/// A surface is recreated when there is none or the descriptor moved on.
pub open spec fn spec_needs_recreate(s: GpuSurfaceStatus, generation: u64) -> bool {
    !s.has_surface || s.last_applied_generation != generation
}

/// The size a surface is configured with: the descriptor's, at least 1 by 1.
pub open spec fn clamp_size(v: u32) -> u32 {
    if v == 0 { 1 } else { v }
}

/// A surface is configured when it is recreated, has no configuration, or
/// its configuration has another size.
pub open spec fn spec_needs_configure(s: GpuSurfaceStatus, width: u32, height: u32, generation: u64) -> bool {
    spec_needs_recreate(s, generation) || match s.config_size {
        None => true,
        Some(c) => c.0 != clamp_size(width) || c.1 != clamp_size(height),
    }
}

/// Decides what preparing the surface of an output with the descriptor's
/// `width` and `height` at `generation` has to do.
pub fn plan_prepare(status: &GpuSurfaceStatus, width: u32, height: u32, generation: u64) -> (plan: PreparePlan)
    ensures
        plan.recreate == spec_needs_recreate(*status, generation),
        plan.configure == spec_needs_configure(*status, width, height, generation),
        plan.width == clamp_size(width),
        plan.height == clamp_size(height),
{
    let recreate = !status.has_surface || status.last_applied_generation != generation;
    let w = if width > 1 { width } else { 1 };
    let h = if height > 1 { height } else { 1 };
    let reconfigure = match status.config_size {
        Some((cw, ch)) => cw != w || ch != h,
        None => true,
    };
    PreparePlan { recreate, configure: reconfigure || recreate, width: w, height: h }
}

/// The first preferred candidate, else the first candidate, as an index.
pub open spec fn spec_preferred_or_first(preferred: Seq<bool>) -> Option<usize> {
    if exists|i: int| 0 <= i < preferred.len() && preferred[i] {
        let i = choose|i: int|
            0 <= i < preferred.len() && preferred[i] && forall|j: int| 0 <= j < i ==> !preferred[j];
        Some(i as usize)
    } else if preferred.len() > 0 {
        Some(0)
    } else {
        None
    }
}

/// Index of the first candidate that is preferred, else of the first one;
/// `None` when there is no candidate.
pub fn preferred_or_first(preferred: &Vec<bool>) -> (res: Option<usize>)
    ensures
        match res {
            Some(i) => {
                &&& i < preferred@.len()
                &&& (preferred@[i as int] || (i == 0 && forall|j: int| 0 <= j < preferred@.len() ==> !preferred@[j]))
                &&& forall|j: int| 0 <= j < i ==> !preferred@[j]
            },
            None => preferred@.len() == 0,
        },
{
    let mut i: usize = 0;
    while i < preferred.len()
        invariant
            i <= preferred@.len(),
            forall|j: int| 0 <= j < i ==> !preferred@[j],
        decreases preferred@.len() - i,
    {
        if preferred[i] {
            return Some(i);
        }
        i += 1;
    }
    if preferred.len() > 0 {
        Some(0)
    } else {
        None
    }
}

/// The configuration chosen from the surface's capabilities, as indices into
/// its lists of formats, present modes and alpha modes.
#[derive(Clone, Copy, Debug, PartialEq, Eq)]
pub struct ChosenConfig {
    pub format: usize,
    pub present_mode: usize,
    pub alpha_mode: usize,
    /// The surface is also a copy destination.
    pub copy_dst: bool,
}

/// Chooses the configuration: the preferred format (sRGB BGRA), present mode
/// (FIFO) and alpha mode (premultiplied), each else the first offered, and
/// copy destination usage where supported. `None` when no format is offered.
pub fn choose_surface_config(
    format_preferred: &Vec<bool>,
    present_preferred: &Vec<bool>,
    alpha_preferred: &Vec<bool>,
    supports_copy_dst: bool,
) -> (res: Option<ChosenConfig>)
    requires
        format_preferred@.len() > 0 ==> present_preferred@.len() > 0 && alpha_preferred@.len() > 0,
    ensures
        format_preferred@.len() == 0 <==> res is None,
        res matches Some(c) ==> {
            &&& Some(c.format) == spec_preferred_or_first(format_preferred@)
            &&& Some(c.present_mode) == spec_preferred_or_first(present_preferred@)
            &&& Some(c.alpha_mode) == spec_preferred_or_first(alpha_preferred@)
            &&& c.copy_dst == supports_copy_dst
        },
{
    let format = match preferred_or_first(format_preferred) {
        Some(f) => f,
        None => return None,
    };
    let present_mode = match preferred_or_first(present_preferred) {
        Some(p) => p,
        None => return None,
    };
    let alpha_mode = match preferred_or_first(alpha_preferred) {
        Some(a) => a,
        None => return None,
    };
    proof {
        lemma_preferred_or_first(format_preferred@, format as int);
        lemma_preferred_or_first(present_preferred@, present_mode as int);
        lemma_preferred_or_first(alpha_preferred@, alpha_mode as int);
    }
    Some(ChosenConfig { format, present_mode, alpha_mode, copy_dst: supports_copy_dst })
}

/// The index `preferred_or_first` returns is the one the spec names.
pub proof fn lemma_preferred_or_first(preferred: Seq<bool>, i: int)
    requires
        0 <= i < preferred.len(),
        preferred[i] || (i == 0 && forall|j: int| 0 <= j < preferred.len() ==> !preferred[j]),
        forall|j: int| 0 <= j < i ==> !preferred[j],
    ensures
        spec_preferred_or_first(preferred) == Some(i as usize),
{
    if exists|k: int| 0 <= k < preferred.len() && preferred[k] {
        let c = choose|c: int|
            0 <= c < preferred.len() && preferred[c] && forall|j: int| 0 <= j < c ==> !preferred[j];
        assert(preferred[i]);
        assert(0 <= i < preferred.len() && preferred[i] && forall|j: int| 0 <= j < i ==> !preferred[j]);
        if c < i {
            assert(!preferred[c]);
        }
        if i < c {
            assert(!preferred[i]);
        }
    }
}

/// The status after preparing the surface per `plan`. `chosen` is the
/// configuration chosen from the capabilities when the plan configures
/// (`None`: no format offered, the surface is dropped to be recreated later).
pub open spec fn spec_after_prepare(
    s: GpuSurfaceStatus,
    plan: PreparePlan,
    chosen: Option<ChosenConfig>,
    generation: u64,
) -> GpuSurfaceStatus {
    if plan.configure && chosen is None {
        GpuSurfaceStatus { has_surface: false, config_size: None, last_applied_generation: 0 }
    } else {
        GpuSurfaceStatus {
            has_surface: true,
            config_size: if plan.configure { Some((plan.width, plan.height)) } else { s.config_size },
            last_applied_generation: generation,
        }
    }
}

/// Records the outcome of preparing a surface; `chosen` is only read when
/// the plan configures.
pub fn finish_prepare(
    status: &mut GpuSurfaceStatus,
    plan: &PreparePlan,
    chosen: Option<ChosenConfig>,
    generation: u64,
)
    requires
        plan.recreate || old(status).has_surface,
    ensures
        *final(status) == spec_after_prepare(*old(status), *plan, chosen, generation),
{
    if plan.recreate {
        status.has_surface = true;
    }
    if plan.configure {
        if chosen.is_none() {
            status.has_surface = false;
            status.config_size = None;
            status.last_applied_generation = 0;
            return;
        }
        status.config_size = Some((plan.width, plan.height));
    }
    status.last_applied_generation = generation;
}

/// Law: a surface that offered no format is recreated and reconfigured on
/// the next frame, whatever the generation.
pub proof fn lemma_no_format_retries(s: GpuSurfaceStatus, plan: PreparePlan, generation: u64, next_generation: u64, w: u32, h: u32)
    requires
        plan.configure,
    ensures
        spec_needs_recreate(spec_after_prepare(s, plan, None, generation), next_generation),
        spec_needs_configure(spec_after_prepare(s, plan, None, generation), w, h, next_generation),
{
}

/// Law: a prepared surface is left alone on the next frame while the
/// descriptor's generation and size stay the same.
pub proof fn lemma_prepared_is_stable(s: GpuSurfaceStatus, w: u32, h: u32, generation: u64, chosen: ChosenConfig)
    ensures
        ({
            let plan = PreparePlan {
                recreate: spec_needs_recreate(s, generation),
                configure: spec_needs_configure(s, w, h, generation),
                width: clamp_size(w),
                height: clamp_size(h),
            };
            let after = spec_after_prepare(s, plan, Some(chosen), generation);
            !spec_needs_recreate(after, generation) && !spec_needs_configure(after, w, h, generation)
        }),
{
}

/// What acquiring the next texture of a surface gave.
#[derive(Clone, Copy, Debug, PartialEq, Eq)]
pub enum AcquireOutcome {
    Success,
    Suboptimal,
    Outdated,
    Lost,
    Timeout,
    Occluded,
    Validation,
}

/// Whether the frame is drawn after an acquire outcome.
pub open spec fn spec_draws(o: AcquireOutcome) -> bool {
    o is Success || o is Suboptimal
}

/// The status after an acquire outcome: an outdated surface is reconfigured
/// later, a lost one is recreated later, the rest leave it as it is.
pub open spec fn spec_after_acquire(s: GpuSurfaceStatus, o: AcquireOutcome) -> GpuSurfaceStatus {
    match o {
        AcquireOutcome::Outdated => GpuSurfaceStatus { config_size: None, last_applied_generation: 0, ..s },
        AcquireOutcome::Lost => GpuSurfaceStatus {
            has_surface: false,
            config_size: None,
            last_applied_generation: 0,
        },
        _ => s,
    }
}

/// Applies an acquire outcome to the status and tells whether to draw the frame.
pub fn after_acquire(status: &mut GpuSurfaceStatus, outcome: AcquireOutcome) -> (draw: bool)
    ensures
        draw == spec_draws(outcome),
        *final(status) == spec_after_acquire(*old(status), outcome),
{
    match outcome {
        AcquireOutcome::Success | AcquireOutcome::Suboptimal => true,
        AcquireOutcome::Outdated => {
            status.config_size = None;
            status.last_applied_generation = 0;
            false
        },
        AcquireOutcome::Lost => {
            status.has_surface = false;
            status.config_size = None;
            status.last_applied_generation = 0;
            false
        },
        AcquireOutcome::Timeout | AcquireOutcome::Occluded | AcquireOutcome::Validation => false,
    }
}

/// Law: an outdated surface is reconfigured, and a lost one recreated, on the
/// next frame.
pub proof fn lemma_acquire_schedules_repair(s: GpuSurfaceStatus, w: u32, h: u32, generation: u64)
    ensures
        spec_needs_configure(spec_after_acquire(s, AcquireOutcome::Outdated), w, h, generation),
        spec_needs_recreate(spec_after_acquire(s, AcquireOutcome::Lost), generation),
        spec_needs_configure(spec_after_acquire(s, AcquireOutcome::Lost), w, h, generation),
{
}

} // verus!
