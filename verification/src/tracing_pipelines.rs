//! Topology-keyed caches: the shader cache, keyed by structural equality
//! of the compiled group tree, and the pipeline cache, keyed by shader
//! handle and stage variant.  A scene whose topology is unchanged hits the
//! shader cache and never forces recompilation; a topology change misses
//! and invalidates exactly that entry's pipelines, leaving unrelated
//! entries untouched.

use vstd::prelude::*;
use crate::node::RayMarching;
use crate::pack::ShapeGroup;
use crate::pack_laws::{children_like, group_like};

verus! {

/// Structural equality of compiled group trees, executably: the dirty
/// check deciding whether the scene's topology changed.
pub fn group_eq(a: &ShapeGroup, b: &ShapeGroup) -> (r: bool)
    ensures
        r == group_like(*a, *b),
    decreases *a,
{
    let heads = a.plane_index_range.start == b.plane_index_range.start
        && a.plane_index_range.end == b.plane_index_range.end
        && a.sphere_index_range.start == b.sphere_index_range.start
        && a.sphere_index_range.end == b.sphere_index_range.end
        && a.cube_index_range.start == b.cube_index_range.start
        && a.cube_index_range.end == b.cube_index_range.end
        && a.image_index_range.start == b.image_index_range.start
        && a.image_index_range.end == b.image_index_range.end && a.operation == b.operation
        && a.negative == b.negative;
    if !heads {
        return false;
    }
    if a.children.len() != b.children.len() {
        return false;
    }
    let mut j: usize = 0;
    while j < a.children.len()
        invariant
            j <= a.children@.len(),
            a.children@.len() == b.children@.len(),
            children_like(a.children@, b.children@, j as int),
        decreases a.children@.len() - j,
    {
        let same = group_eq(&a.children[j], &b.children[j]);
        if !same {
            proof {
                lemma_children_like_breaks(a.children@, b.children@, j as int);
                assert(!children_like(a.children@, b.children@, a.children@.len() as int));
                assert(!group_like(*a, *b));
            }
            return false;
        }
        j = j + 1;
    }
    true
}

/// If one pair in the prefix differs, the longer prefixes cannot all be
/// alike.
proof fn lemma_children_like_breaks(a: Seq<ShapeGroup>, b: Seq<ShapeGroup>, j: int)
    requires
        0 <= j < a.len(),
        a.len() == b.len(),
        !group_like(a[j], b[j]),
    ensures
        forall|n: int| j < n <= a.len() ==> !children_like(a, b, n),
{
    assert forall|n: int| j < n <= a.len() implies !children_like(a, b, n) by {
        lemma_children_like_breaks_step(a, b, j, n);
    }
}

proof fn lemma_children_like_breaks_step(a: Seq<ShapeGroup>, b: Seq<ShapeGroup>, j: int, n: int)
    requires
        0 <= j < n <= a.len(),
        a.len() == b.len(),
        !group_like(a[j], b[j]),
    ensures
        !children_like(a, b, n),
    decreases n,
{
    if j < n - 1 {
        lemma_children_like_breaks_step(a, b, j, n - 1);
    }
}

/// Some cached entry's key is structurally equal to `g`.
pub open spec fn cache_has(entries: Seq<(ShapeGroup, u64)>, g: ShapeGroup) -> bool {
    exists|x: int| 0 <= x < entries.len() && group_like((#[trigger] entries[x]).0, g)
}

/// The shader cache: one compiled evaluator unit per scene topology,
/// identified by an opaque shader handle.  Keys are compared by structural
/// equality of the compiled group tree.
pub struct ShaderCache {
    pub entries: Vec<(ShapeGroup, u64)>,
}

impl ShaderCache {
    /// No two cached topologies are structurally equal.
    pub open spec fn wf(self) -> bool {
        forall|x: int, y: int|
            0 <= x < y < self.entries@.len() ==> !group_like(
                (#[trigger] self.entries@[x]).0,
                (#[trigger] self.entries@[y]).0,
            )
    }

    /// An empty cache.
    pub fn new() -> (c: Self)
        ensures
            c.wf(),
            c.entries@.len() == 0,
    {
        ShaderCache { entries: Vec::new() }
    }

    /// Finds the shader handle cached for this topology, if any: `Some`
    /// exactly when a structurally equal tree was inserted.
    pub fn lookup(&self, g: &ShapeGroup) -> (r: Option<u64>)
        ensures
            (r is Some) == cache_has(self.entries@, *g),
            r matches Some(id) ==> exists|x: int|
                0 <= x < self.entries@.len() && group_like((#[trigger] self.entries@[x]).0, *g)
                    && self.entries@[x].1 == id,
    {
        let mut j: usize = 0;
        while j < self.entries.len()
            invariant
                j <= self.entries@.len(),
                forall|x: int|
                    0 <= x < j ==> !group_like((#[trigger] self.entries@[x]).0, *g),
            decreases self.entries@.len() - j,
        {
            let e = &self.entries[j];
            if group_eq(&e.0, g) {
                return Some(e.1);
            }
            j = j + 1;
        }
        None
    }

    /// Caches a freshly compiled topology under its shader handle.
    pub fn insert(&mut self, g: ShapeGroup, id: u64)
        requires
            old(self).wf(),
            !cache_has(old(self).entries@, g),
        ensures
            final(self).wf(),
            final(self).entries@ == old(self).entries@.push((g, id)),
    {
        self.entries.push((g, id));
        proof {
            assert forall|x: int, y: int|
                0 <= x < y < self.entries@.len() implies !group_like(
                (#[trigger] self.entries@[x]).0,
                (#[trigger] self.entries@[y]).0,
            ) by {
                if y + 1 == self.entries@.len() {
                    assert(self.entries@[y].0 == g);
                    assert(self.entries@[x] == old(self).entries@[x]);
                }
            }
        }
    }
}

/// Cache coherence law: after caching a topology, looking up any
/// structurally equal tree finds exactly that entry's handle, and entries
/// for other topologies are untouched.
pub proof fn lemma_cache_hit_after_insert(
    entries: Seq<(ShapeGroup, u64)>,
    g: ShapeGroup,
    id: u64,
    x: int,
)
    requires
        !cache_has(entries, g),
        0 <= x < entries.push((g, id)).len(),
        group_like(entries.push((g, id))[x].0, g),
    ensures
        entries.push((g, id))[x].1 == id,
{
    if x < entries.len() {
        assert(entries.push((g, id))[x] == entries[x]);
        assert(group_like(entries[x].0, g));
        assert(false);
    }
}

/// The stage variant a render pipeline is specialized for, with the
/// feature toggles that shape the last stage.
#[derive(Clone, Copy, PartialEq, Eq, Structural, Debug)]
pub enum TracingPipelineVariant {
    First { iterations: u32 },
    Mid { iterations: u32 },
    Last {
        materials: bool,
        lighting: bool,
        ambient_occlusion: bool,
        shadow: bool,
        debug_iterations: bool,
        debug_sdf: bool,
    },
}

/// The pipeline cache key: the generated shader's handle (the scene
/// topology) and the stage variant.  Transforms and materials change
/// neither part, so per-frame numeric edits never rebuild a pipeline.
#[derive(Clone, Copy, PartialEq, Eq, Structural, Debug)]
pub struct TracingPipelineKey {
    pub handle: u64,
    pub variant: TracingPipelineVariant,
}

/// A pipeline handle is cached for this key.
pub open spec fn pipeline_cached(entries: Seq<(TracingPipelineKey, u64)>, k: TracingPipelineKey) -> bool {
    exists|x: int| 0 <= x < entries.len() && (#[trigger] entries[x]).0 == k
}

/// The compiled-pipeline cache: one GPU pipeline handle per (shader,
/// variant) key, created once and reused until the key disappears.
pub struct PipelineCache {
    pub entries: Vec<(TracingPipelineKey, u64)>,
    pub next: u64,
}

impl PipelineCache {
    /// Keys are unique.
    pub open spec fn wf(self) -> bool {
        forall|x: int, y: int|
            0 <= x < y < self.entries@.len() ==> (#[trigger] self.entries@[x]).0 != (
            #[trigger] self.entries@[y]).0
    }

    /// An empty cache.
    pub fn new() -> (c: Self)
        ensures
            c.wf(),
            c.entries@.len() == 0,
    {
        PipelineCache { entries: Vec::new(), next: 0 }
    }

    /// Returns the pipeline handle for a key, queueing a new one exactly
    /// when the key was absent: a cached key keeps its handle and the
    /// cache untouched; an absent key is appended with a fresh handle.
    pub fn specialize(&mut self, key: TracingPipelineKey) -> (id: u64)
        requires
            old(self).wf(),
            old(self).next < u64::MAX,
        ensures
            final(self).wf(),
            pipeline_cached(old(self).entries@, key) ==> *final(self) == *old(self) && exists|x: int|
                0 <= x < old(self).entries@.len() && (#[trigger] old(self).entries@[x]).0 == key
                    && old(self).entries@[x].1 == id,
            !pipeline_cached(old(self).entries@, key) ==> final(self).entries@ == old(
                self,
            ).entries@.push((key, id)) && id == old(self).next && final(self).next == old(self).next
                + 1,
    {
        let mut j: usize = 0;
        while j < self.entries.len()
            invariant
                j <= self.entries@.len(),
                *self == *old(self),
                old(self).wf(),
                old(self).next < u64::MAX,
                forall|x: int| 0 <= x < j ==> (#[trigger] self.entries@[x]).0 != key,
            decreases self.entries@.len() - j,
        {
            let e = &self.entries[j];
            if e.0 == key {
                proof {
                    assert(self.entries@[j as int].0 == key && self.entries@[j as int].1 == e.1);
                }
                return e.1;
            }
            j = j + 1;
        }
        let id = self.next;
        self.entries.push((key, id));
        self.next = self.next + 1;
        proof {
            assert forall|x: int, y: int|
                0 <= x < y < self.entries@.len() implies (#[trigger] self.entries@[x]).0 != (
            #[trigger] self.entries@[y]).0 by {
                if y + 1 == self.entries@.len() {
                    assert(self.entries@[x] == old(self).entries@[x]);
                }
            }
        }
        id
    }
}

/// A preprocessor definition handed to the shader compiler.
#[derive(Clone, Debug)]
pub enum ShaderDefVal {
    Bool(String, bool),
    Int(String, i32),
    UInt(String, u32),
}

/// The mathematical content of one shader definition.
pub struct DefModel {
    pub name: Seq<char>,
    pub val: DefValue,
}

pub enum DefValue {
    B(bool),
    I(int),
    U(int),
}

pub open spec fn def_model(d: ShaderDefVal) -> DefModel {
    match d {
        ShaderDefVal::Bool(n, v) => DefModel { name: n@, val: DefValue::B(v) },
        ShaderDefVal::Int(n, v) => DefModel { name: n@, val: DefValue::I(v as int) },
        ShaderDefVal::UInt(n, v) => DefModel { name: n@, val: DefValue::U(v as int) },
    }
}

pub open spec fn defs_model(ds: Seq<ShaderDefVal>) -> Seq<DefModel> {
    ds.map_values(|d: ShaderDefVal| def_model(d))
}

/// The definitions every variant receives: the four array capacities and
/// the far sentinel.
pub open spec fn common_defs() -> Seq<DefModel> {
    seq![
        DefModel { name: "MAX_PLANES"@, val: DefValue::I(4) },
        DefModel { name: "MAX_SPHERES"@, val: DefValue::I(24) },
        DefModel { name: "MAX_CUBES"@, val: DefValue::I(24) },
        DefModel { name: "MAX_IMAGES"@, val: DefValue::I(4) },
        DefModel { name: "FAR"@, val: DefValue::I(64) },
    ]
}

pub open spec fn flag(name: Seq<char>, on: bool) -> Seq<DefModel> {
    if on {
        seq![DefModel { name: name, val: DefValue::B(true) }]
    } else {
        Seq::empty()
    }
}

/// The variant-specific definitions: the stage marker, the iteration count
/// of the tracing stages, and the last stage's feature toggles in fixed
/// order.
pub open spec fn variant_defs(v: TracingPipelineVariant) -> Seq<DefModel> {
    match v {
        TracingPipelineVariant::First { iterations } => seq![
            DefModel { name: "FIRST_STAGE"@, val: DefValue::B(true) },
            DefModel { name: "ITERATIONS"@, val: DefValue::U(iterations as int) },
        ],
        TracingPipelineVariant::Mid { iterations } => seq![
            DefModel { name: "ITERATIONS"@, val: DefValue::U(iterations as int) },
        ],
        TracingPipelineVariant::Last {
            materials,
            lighting,
            ambient_occlusion,
            shadow,
            debug_iterations,
            debug_sdf,
        } => seq![DefModel { name: "LAST_STAGE"@, val: DefValue::B(true) }] + flag(
            "MATERIALS"@,
            materials,
        ) + flag("LIGHTING"@, lighting) + flag("AMBIENT_OCCLUSION"@, ambient_occlusion) + flag(
            "SHADOW"@,
            shadow,
        ) + flag("DEBUG_ITERATIONS"@, debug_iterations) + flag("DEBUG_SDF"@, debug_sdf),
    }
}

/// All definitions a pipeline of this variant is compiled with.
pub open spec fn spec_defs(v: TracingPipelineVariant) -> Seq<DefModel> {
    common_defs() + variant_defs(v)
}

/// Mapping to models distributes over concatenation.
proof fn lemma_defs_model_concat(a: Seq<ShaderDefVal>, b: Seq<ShaderDefVal>)
    ensures
        defs_model(a + b) == defs_model(a) + defs_model(b),
{
    assert(defs_model(a + b) =~= defs_model(a) + defs_model(b));
}

/// Appends one feature toggle when it is on.
fn push_flag(out: &mut Vec<ShaderDefVal>, name: String, on: bool)
    ensures
        defs_model(final(out)@) == defs_model(old(out)@) + flag(name@, on),
{
    let ghost n = name@;
    if on {
        out.push(ShaderDefVal::Bool(name, true));
        proof {
            assert(defs_model(out@) =~= defs_model(old(out)@) + flag(n, true));
        }
    } else {
        proof {
            assert(defs_model(out@) =~= defs_model(old(out)@) + flag(n, false));
        }
    }
}

/// The last stage's definitions: the stage marker and the feature toggles
/// in fixed order.
fn last_defs(
    materials: bool,
    lighting: bool,
    ambient_occlusion: bool,
    shadow: bool,
    debug_iterations: bool,
    debug_sdf: bool,
) -> (r: Vec<ShaderDefVal>)
    ensures
        defs_model(r@) == variant_defs(
            TracingPipelineVariant::Last {
                materials,
                lighting,
                ambient_occlusion,
                shadow,
                debug_iterations,
                debug_sdf,
            },
        ),
{
    let mut out: Vec<ShaderDefVal> = Vec::new();
    out.push(ShaderDefVal::Bool(String::from_str("LAST_STAGE"), true));
    proof {
        assert(defs_model(out@) =~= seq![
            DefModel { name: "LAST_STAGE"@, val: DefValue::B(true) },
        ]);
    }
    push_flag(&mut out, String::from_str("MATERIALS"), materials);
    push_flag(&mut out, String::from_str("LIGHTING"), lighting);
    push_flag(&mut out, String::from_str("AMBIENT_OCCLUSION"), ambient_occlusion);
    push_flag(&mut out, String::from_str("SHADOW"), shadow);
    push_flag(&mut out, String::from_str("DEBUG_ITERATIONS"), debug_iterations);
    push_flag(&mut out, String::from_str("DEBUG_SDF"), debug_sdf);
    out
}

/// Builds the shader definitions for one pipeline variant: the common
/// capacities and sentinel, then the variant's stage marker, iteration
/// count and feature toggles, in the fixed order the cache key implies.
pub fn specialize_defs(v: &TracingPipelineVariant) -> (r: Vec<ShaderDefVal>)
    ensures
        defs_model(r@) == spec_defs(*v),
{
    let mut out: Vec<ShaderDefVal> = Vec::new();
    out.push(ShaderDefVal::Int(String::from_str("MAX_PLANES"), 4));
    out.push(ShaderDefVal::Int(String::from_str("MAX_SPHERES"), 24));
    out.push(ShaderDefVal::Int(String::from_str("MAX_CUBES"), 24));
    out.push(ShaderDefVal::Int(String::from_str("MAX_IMAGES"), 4));
    out.push(ShaderDefVal::Int(String::from_str("FAR"), 64));
    proof {
        assert(defs_model(out@) =~= common_defs());
    }
    let mut tail: Vec<ShaderDefVal> = match v {
        TracingPipelineVariant::First { iterations } => {
            let mut t: Vec<ShaderDefVal> = Vec::new();
            t.push(ShaderDefVal::Bool(String::from_str("FIRST_STAGE"), true));
            t.push(ShaderDefVal::UInt(String::from_str("ITERATIONS"), *iterations));
            proof {
                assert(defs_model(t@) =~= variant_defs(*v));
            }
            t
        }
        TracingPipelineVariant::Mid { iterations } => {
            let mut t: Vec<ShaderDefVal> = Vec::new();
            t.push(ShaderDefVal::UInt(String::from_str("ITERATIONS"), *iterations));
            proof {
                assert(defs_model(t@) =~= variant_defs(*v));
            }
            t
        }
        TracingPipelineVariant::Last {
            materials,
            lighting,
            ambient_occlusion,
            shadow,
            debug_iterations,
            debug_sdf,
        } => last_defs(
            *materials,
            *lighting,
            *ambient_occlusion,
            *shadow,
            *debug_iterations,
            *debug_sdf,
        ),
    };
    let ghost head = out@;
    let ghost rest = tail@;
    out.append(&mut tail);
    proof {
        lemma_defs_model_concat(head, rest);
    }
    out
}

/// The three pipeline handles a camera renders with.
#[derive(Clone, Copy, PartialEq, Eq, Structural, Debug)]
pub struct TracingPipelines {
    pub first_id: u64,
    pub mid_id: u64,
    pub last_id: u64,
}

/// The cache key of one stage's pipeline for a camera configuration.
pub open spec fn stage_key(handle: u64, config: RayMarching, p: crate::node::PassPipeline) -> TracingPipelineKey {
    TracingPipelineKey {
        handle,
        variant: match p {
            crate::node::PassPipeline::First => TracingPipelineVariant::First {
                iterations: config.iterations,
            },
            crate::node::PassPipeline::Mid => TracingPipelineVariant::Mid {
                iterations: config.iterations,
            },
            _ => TracingPipelineVariant::Last {
                materials: config.materials,
                lighting: config.lighting,
                ambient_occlusion: config.ambient_occlusion,
                shadow: config.shadow,
                debug_iterations: config.debug_iterations,
                debug_sdf: config.debug_sdf,
            },
        },
    }
}

/// An entry with this key and handle is cached.
pub open spec fn cached_as(entries: Seq<(TracingPipelineKey, u64)>, k: TracingPipelineKey, id: u64) -> bool {
    exists|x: int| 0 <= x < entries.len() && (#[trigger] entries[x]) == (k, id)
}

/// Queues (or reuses) the three pipelines a camera needs for the compiled
/// shader `handle` under its configuration: one first, one mid and one
/// last variant.  Existing cache entries are never rebuilt or disturbed.
pub fn queue_pipelines(cache: &mut PipelineCache, handle: u64, config: &RayMarching) -> (r: TracingPipelines)
    requires
        old(cache).wf(),
        old(cache).next <= u64::MAX - 3,
    ensures
        final(cache).wf(),
        final(cache).next <= old(cache).next + 3,
        old(cache).entries@.is_prefix_of(final(cache).entries@),
        cached_as(
            final(cache).entries@,
            stage_key(handle, *config, crate::node::PassPipeline::First),
            r.first_id,
        ),
        cached_as(
            final(cache).entries@,
            stage_key(handle, *config, crate::node::PassPipeline::Mid),
            r.mid_id,
        ),
        cached_as(
            final(cache).entries@,
            stage_key(handle, *config, crate::node::PassPipeline::Last),
            r.last_id,
        ),
{
    let kf = TracingPipelineKey {
        handle,
        variant: TracingPipelineVariant::First { iterations: config.iterations },
    };
    let km = TracingPipelineKey {
        handle,
        variant: TracingPipelineVariant::Mid { iterations: config.iterations },
    };
    let kl = TracingPipelineKey {
        handle,
        variant: TracingPipelineVariant::Last {
            materials: config.materials,
            lighting: config.lighting,
            ambient_occlusion: config.ambient_occlusion,
            shadow: config.shadow,
            debug_iterations: config.debug_iterations,
            debug_sdf: config.debug_sdf,
        },
    };
    let ghost e0 = cache.entries@;
    let first_id = cache.specialize(kf);
    let ghost e1 = cache.entries@;
    let mid_id = cache.specialize(km);
    let ghost e2 = cache.entries@;
    let last_id = cache.specialize(kl);
    proof {
        lemma_specialize_keeps(e0, e1, kf, first_id);
        lemma_specialize_keeps(e1, e2, km, mid_id);
        lemma_step_preserves_entry(e1, e2, kf, first_id);
        lemma_step_preserves_entry(e2, cache.entries@, kf, first_id);
        lemma_step_preserves_entry(e2, cache.entries@, km, mid_id);
        lemma_specialize_keeps(e2, cache.entries@, kl, last_id);
        assert(e0.is_prefix_of(cache.entries@));
    }
    TracingPipelines { first_id, mid_id, last_id }
}

/// A specialize step that returned `id` for `k` leaves `(k, id)` cached.
proof fn lemma_specialize_keeps(
    before: Seq<(TracingPipelineKey, u64)>,
    after: Seq<(TracingPipelineKey, u64)>,
    k: TracingPipelineKey,
    id: u64,
)
    requires
        before == after || after == before.push((k, id)),
        after == before ==> exists|x: int|
            0 <= x < before.len() && (#[trigger] before[x]).0 == k && before[x].1 == id,
    ensures
        cached_as(after, k, id),
{
    if after == before.push((k, id)) && after != before {
        assert(after[after.len() - 1] == (k, id));
    } else {
        let x = choose|x: int|
            0 <= x < before.len() && (#[trigger] before[x]).0 == k && before[x].1 == id;
        assert(after[x] == (k, id));
    }
}

/// Later steps only append, so an already-cached entry stays cached.
proof fn lemma_step_preserves_entry(
    before: Seq<(TracingPipelineKey, u64)>,
    after: Seq<(TracingPipelineKey, u64)>,
    k: TracingPipelineKey,
    id: u64,
)
    requires
        before.is_prefix_of(after),
        cached_as(before, k, id),
    ensures
        cached_as(after, k, id),
{
    let x = choose|x: int| 0 <= x < before.len() && (#[trigger] before[x]) == (k, id);
    assert(after[x] == before[x]);
}

} // verus!