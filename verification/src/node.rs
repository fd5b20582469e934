//! The per-frame pass plan: the strict order in which the render passes of
//! one camera run, and how each stage's input is wired to the previous
//! stage's output.
//!
//! The chain is: the first stage seeds from nothing and writes the
//! coarsest distance texture; each mid stage reads the previous stage's
//! distance texture and writes a finer one; the last stage reads the
//! finest distance texture and writes the color texture; the upsample pass
//! reads the color texture and writes the camera's target.  Every pass
//! depends on its predecessor's completed output, so the plan is executed
//! in order.

use vstd::prelude::*;

verus! {

/// Per-camera rendering configuration.  The start resolution and scaling
/// factor feed the stage scheduler; the iteration count and feature
/// toggles select the pipeline variants.  The viewport is scaled by the
/// caller's resolution multiplier before it reaches the scheduler.
#[derive(Clone, Copy, PartialEq, Eq, Structural, Debug)]
pub struct RayMarching {
    pub resolution_start: u32,
    pub resolution_scaling: u32,
    pub iterations: u32,
    pub materials: bool,
    pub lighting: bool,
    pub ambient_occlusion: bool,
    pub shadow: bool,
    pub debug_iterations: bool,
    pub debug_sdf: bool,
}

impl Default for RayMarching {
    /// Sixteen pixels to start, doubling per stage, eight iterations,
    /// full shading and no debug overlays.
    fn default() -> (r: Self)
        ensures
            r.resolution_start == 16,
            r.resolution_scaling == 2,
            r.iterations == 8,
            r.materials && r.lighting && r.ambient_occlusion,
            !r.shadow && !r.debug_iterations && !r.debug_sdf,
    {
        RayMarching {
            resolution_start: 16,
            resolution_scaling: 2,
            iterations: 8,
            materials: true,
            lighting: true,
            ambient_occlusion: true,
            shadow: false,
            debug_iterations: false,
            debug_sdf: false,
        }
    }
}

/// Dynamic offset of a camera's view uniform.
pub struct ViewUniformIndex(pub u32);

impl ViewUniformIndex {
    pub fn index(&self) -> (r: u32)
        ensures
            r == self.0,
    {
        self.0
    }
}

/// Dynamic offset of a camera's environment uniform.
pub struct EnvironmentUniformIndex(pub u32);

impl EnvironmentUniformIndex {
    pub fn index(&self) -> (r: u32)
        ensures
            r == self.0,
    {
        self.0
    }
}

/// Registration tag of the final upsample step: the engine layer that
/// owns the GPU pipelines registers the bilinear blit of the color
/// texture into the camera target under this marker.
pub struct UpsamplingPlugin;

/// A texture a pass reads or writes: one of the distance stage textures,
/// the color texture of the last stage, or the camera's own target.
#[derive(Clone, Copy, PartialEq, Eq, Structural, Debug)]
pub enum PassTarget {
    Stage { index: u32 },
    Color,
    CameraTarget,
}

/// Which pipeline a pass runs.
#[derive(Clone, Copy, PartialEq, Eq, Structural, Debug)]
pub enum PassPipeline {
    First,
    Mid,
    Last,
    Upsampling,
}

/// One render pass of the chain: its pipeline, the texture it samples (if
/// any), the texture it writes, and the ordinal of the stage uniform it
/// binds (the upsample pass binds none).
#[derive(Clone, Copy, PartialEq, Eq, Structural, Debug)]
pub struct PassDesc {
    pub pipeline: PassPipeline,
    pub input: Option<PassTarget>,
    pub target: PassTarget,
    pub uniform_slot: Option<u32>,
}

/// Builds the ordered pass chain for a camera whose stage plan has
/// `mid_count` mid stages: first, the mid stages in increasing resolution
/// order, last, then the upsample into the camera target.  Each pass after
/// the first reads exactly what its predecessor wrote.
#[verifier::rlimit(60)]
pub fn build_pass_plan(mid_count: u32) -> (r: Vec<PassDesc>)
    requires
        mid_count <= u32::MAX - 3,
    ensures
        r@.len() == mid_count + 3,
        r@[0] == (PassDesc {
            pipeline: PassPipeline::First,
            input: None,
            target: PassTarget::Stage { index: 0 },
            uniform_slot: Some(0),
        }),
        forall|k: int|
            1 <= k <= mid_count ==> r@[k] == (PassDesc {
                pipeline: PassPipeline::Mid,
                input: Some(PassTarget::Stage { index: (k - 1) as u32 }),
                target: PassTarget::Stage { index: k as u32 },
                uniform_slot: Some(k as u32),
            }),
        r@[mid_count + 1] == (PassDesc {
            pipeline: PassPipeline::Last,
            input: Some(PassTarget::Stage { index: mid_count }),
            target: PassTarget::Color,
            uniform_slot: Some((mid_count + 1) as u32),
        }),
        r@[mid_count + 2] == (PassDesc {
            pipeline: PassPipeline::Upsampling,
            input: Some(PassTarget::Color),
            target: PassTarget::CameraTarget,
            uniform_slot: None,
        }),
        forall|k: int|
            1 <= k < r@.len() ==> (#[trigger] r@[k]).input == Some(r@[k - 1].target),
{
    let mut plan: Vec<PassDesc> = Vec::new();
    plan.push(
        PassDesc {
            pipeline: PassPipeline::First,
            input: None,
            target: PassTarget::Stage { index: 0 },
            uniform_slot: Some(0),
        },
    );
    let mut k: u32 = 1;
    while k <= mid_count
        invariant
            1 <= k <= mid_count + 1,
            mid_count <= u32::MAX - 3,
            plan@.len() == k,
            plan@[0] == (PassDesc {
                pipeline: PassPipeline::First,
                input: None,
                target: PassTarget::Stage { index: 0 },
                uniform_slot: Some(0),
            }),
            forall|x: int|
                1 <= x < k ==> plan@[x] == (PassDesc {
                    pipeline: PassPipeline::Mid,
                    input: Some(PassTarget::Stage { index: (x - 1) as u32 }),
                    target: PassTarget::Stage { index: x as u32 },
                    uniform_slot: Some(x as u32),
                }),
        decreases mid_count + 1 - k,
    {
        plan.push(
            PassDesc {
                pipeline: PassPipeline::Mid,
                input: Some(PassTarget::Stage { index: k - 1 }),
                target: PassTarget::Stage { index: k },
                uniform_slot: Some(k),
            },
        );
        k = k + 1;
    }
    plan.push(
        PassDesc {
            pipeline: PassPipeline::Last,
            input: Some(PassTarget::Stage { index: mid_count }),
            target: PassTarget::Color,
            uniform_slot: Some(mid_count + 1),
        },
    );
    plan.push(
        PassDesc {
            pipeline: PassPipeline::Upsampling,
            input: Some(PassTarget::Color),
            target: PassTarget::CameraTarget,
            uniform_slot: None,
        },
    );
    proof {
        assert forall|k2: int| 1 <= k2 < plan@.len() implies (#[trigger] plan@[k2]).input == Some(
            plan@[k2 - 1].target,
        ) by {
            if k2 <= mid_count {
            } else if k2 == mid_count + 1 {
            } else {
            }
        }
    }
    plan
}

} // verus!
