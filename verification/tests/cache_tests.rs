use raymarch::node::{build_pass_plan, PassPipeline, PassTarget, RayMarching};
use raymarch::pack::pack_scene;
use raymarch::shape::{
    apply_negative, min_axis_bits, Material, Operation, Primitive, Scene, Shape, ShapeType,
    Transform, SIGN_BIT,
};
use raymarch::tracing_pipelines::{
    queue_pipelines, specialize_defs, PipelineCache, ShaderCache, ShaderDefVal,
    TracingPipelineKey, TracingPipelineVariant,
};

fn sphere_leaf(radius_bits: u32) -> Shape {
    Shape {
        shape_type: ShapeType::Primitive(
            Primitive::Sphere { radius_bits },
            Material { red_bits: 0, green_bits: 0, blue_bits: 0 },
        ),
        negative: false,
        transform: Transform { inv_bits: [0u32; 16], scale_bits: 100 },
        children: None,
    }
}

#[test]
fn shader_cache_hits_on_equal_topology() {
    let scene = Scene { nodes: vec![sphere_leaf(10)], roots: vec![0] };
    let a = pack_scene(&scene).root;
    let mut cache = ShaderCache::new();
    assert!(cache.lookup(&a).is_none());
    cache.insert(a, 77);
    // an independently regenerated tree of the same scene hits the entry
    let b = pack_scene(&scene).root;
    assert_eq!(cache.lookup(&b), Some(77));
}

#[test]
fn shader_cache_misses_on_changed_topology() {
    let one = Scene { nodes: vec![sphere_leaf(10)], roots: vec![0] };
    let two = Scene { nodes: vec![sphere_leaf(10), sphere_leaf(20)], roots: vec![0, 1] };
    let mut cache = ShaderCache::new();
    cache.insert(pack_scene(&one).root, 1);
    assert!(cache.lookup(&pack_scene(&two).root).is_none());
    cache.insert(pack_scene(&two).root, 2);
    // both topologies stay cached independently
    assert_eq!(cache.lookup(&pack_scene(&one).root), Some(1));
    assert_eq!(cache.lookup(&pack_scene(&two).root), Some(2));
}

#[test]
fn pipeline_cache_reuses_existing_entries() {
    let mut cache = PipelineCache::new();
    let key = TracingPipelineKey {
        handle: 5,
        variant: TracingPipelineVariant::First { iterations: 8 },
    };
    let a = cache.specialize(key);
    let b = cache.specialize(key);
    assert_eq!(a, b);
    assert_eq!(cache.entries.len(), 1);
    let other = TracingPipelineKey {
        handle: 5,
        variant: TracingPipelineVariant::First { iterations: 9 },
    };
    let c = cache.specialize(other);
    assert_ne!(a, c);
    assert_eq!(cache.entries.len(), 2);
}

#[test]
fn queueing_pipelines_creates_the_three_variants_once() {
    let mut cache = PipelineCache::new();
    let config = RayMarching::default();
    let p1 = queue_pipelines(&mut cache, 7, &config);
    assert_eq!(cache.entries.len(), 3);
    // queueing again for the same shader and config rebuilds nothing
    let p2 = queue_pipelines(&mut cache, 7, &config);
    assert_eq!(cache.entries.len(), 3);
    assert_eq!(p1, p2);
    // another shader handle gets its own pipelines
    let p3 = queue_pipelines(&mut cache, 8, &config);
    assert_eq!(cache.entries.len(), 6);
    assert_ne!(p1.first_id, p3.first_id);
}

fn def_name(d: &ShaderDefVal) -> &str {
    match d {
        ShaderDefVal::Bool(n, _) => n,
        ShaderDefVal::Int(n, _) => n,
        ShaderDefVal::UInt(n, _) => n,
    }
}

#[test]
fn first_stage_defs_carry_capacities_and_iterations() {
    let defs = specialize_defs(&TracingPipelineVariant::First { iterations: 12 });
    let names: Vec<&str> = defs.iter().map(def_name).collect();
    assert_eq!(
        names,
        vec!["MAX_PLANES", "MAX_SPHERES", "MAX_CUBES", "MAX_IMAGES", "FAR", "FIRST_STAGE", "ITERATIONS"],
    );
    match &defs[6] {
        ShaderDefVal::UInt(_, v) => assert_eq!(*v, 12),
        _ => panic!("iteration count must be unsigned"),
    }
    match &defs[1] {
        ShaderDefVal::Int(_, v) => assert_eq!(*v, 24),
        _ => panic!("capacity must be signed"),
    }
}

#[test]
fn last_stage_defs_include_only_enabled_toggles() {
    let defs = specialize_defs(
        &TracingPipelineVariant::Last {
            materials: true,
            lighting: false,
            ambient_occlusion: true,
            shadow: false,
            debug_iterations: false,
            debug_sdf: true,
        },
    );
    let names: Vec<&str> = defs.iter().map(def_name).collect();
    assert_eq!(
        names,
        vec![
            "MAX_PLANES", "MAX_SPHERES", "MAX_CUBES", "MAX_IMAGES", "FAR", "LAST_STAGE",
            "MATERIALS", "AMBIENT_OCCLUSION", "DEBUG_SDF",
        ],
    );
}

#[test]
fn pass_plan_chains_each_stage_to_its_predecessor() {
    let plan = build_pass_plan(2);
    assert_eq!(plan.len(), 5);
    assert_eq!(plan[0].pipeline, PassPipeline::First);
    assert_eq!(plan[0].input, None);
    assert_eq!(plan[0].target, PassTarget::Stage { index: 0 });
    assert_eq!(plan[1].pipeline, PassPipeline::Mid);
    assert_eq!(plan[1].input, Some(PassTarget::Stage { index: 0 }));
    assert_eq!(plan[2].input, Some(PassTarget::Stage { index: 1 }));
    assert_eq!(plan[3].pipeline, PassPipeline::Last);
    assert_eq!(plan[3].input, Some(PassTarget::Stage { index: 2 }));
    assert_eq!(plan[3].target, PassTarget::Color);
    assert_eq!(plan[4].pipeline, PassPipeline::Upsampling);
    assert_eq!(plan[4].input, Some(PassTarget::Color));
    assert_eq!(plan[4].target, PassTarget::CameraTarget);
    assert_eq!(plan[4].uniform_slot, None);
    for k in 1..plan.len() {
        assert_eq!(plan[k].input, Some(plan[k - 1].target));
    }
}

#[test]
fn pass_plan_without_mid_stages_still_chains() {
    let plan = build_pass_plan(0);
    assert_eq!(plan.len(), 3);
    assert_eq!(plan[1].pipeline, PassPipeline::Last);
    assert_eq!(plan[1].input, Some(PassTarget::Stage { index: 0 }));
}

#[test]
fn scale_conditioning_picks_the_most_compressed_axis() {
    // a transform squeezing one axis to a tenth: the conservative factor
    // is that axis's bound
    let squeezed = 0.1f32.to_bits();
    let unit = 1.0f32.to_bits();
    assert_eq!(min_axis_bits(unit, squeezed, unit), squeezed);
    assert_eq!(min_axis_bits(squeezed, unit, unit), squeezed);
    // a uniform scale returns the scale itself
    let s = 2.5f32.to_bits();
    assert_eq!(min_axis_bits(s, s, s), s);
}

#[test]
fn negation_flips_exactly_the_sign_bit() {
    let s = 2.5f32.to_bits();
    assert_eq!(apply_negative(s, false), s);
    assert_eq!(apply_negative(s, true), s ^ SIGN_BIT);
    assert_eq!(f32::from_bits(apply_negative(s, true)), -2.5f32);
    assert_eq!((2.5f32 * -1.0).to_bits(), apply_negative(s, true));
}
