use raymarch::pack::{pack_scene, IndexRange};
use raymarch::shape::{Material, Operation, Primitive, Scene, Shape, ShapeType, Transform, SIGN_BIT};
use raymarch::tracing_pipelines::group_eq;

fn mat(tag: u32) -> Material {
    Material { red_bits: tag, green_bits: tag, blue_bits: tag }
}

fn transform(scale_bits: u32) -> Transform {
    Transform { inv_bits: [0u32; 16], scale_bits }
}

fn sphere_leaf(radius_bits: u32, tag: u32) -> Shape {
    Shape {
        shape_type: ShapeType::Primitive(Primitive::Sphere { radius_bits }, mat(tag)),
        negative: false,
        transform: transform(100),
        children: None,
    }
}

fn compound(op: Operation, children: Vec<usize>) -> Shape {
    Shape {
        shape_type: ShapeType::Compound(op),
        negative: false,
        transform: transform(100),
        children: Some(children),
    }
}

#[test]
fn preorder_ranges_of_nested_groups() {
    // Root{Sphere_A, Group1{Sphere_B, Sphere_C}}
    let scene = Scene {
        nodes: vec![
            compound(Operation::Union, vec![1, 2]),
            sphere_leaf(10, 1),
            compound(Operation::Union, vec![3, 4]),
            sphere_leaf(20, 2),
            sphere_leaf(30, 3),
        ],
        roots: vec![0],
    };
    let out = pack_scene(&scene);
    assert_eq!(out.spheres.len(), 3);
    // the implicit root owns nothing itself
    assert_eq!(out.root.sphere_index_range, IndexRange { start: 0, end: 0 });
    assert_eq!(out.root.children.len(), 1);
    let root_group = &out.root.children[0];
    // the explicit root's own sphere comes first
    assert_eq!(root_group.sphere_index_range, IndexRange { start: 0, end: 1 });
    assert_eq!(root_group.children.len(), 1);
    let group1 = &root_group.children[0];
    // the nested group's spheres follow
    assert_eq!(group1.sphere_index_range, IndexRange { start: 1, end: 3 });
    // packed in traversal order
    assert_eq!(out.spheres[0].radius_bits, 10);
    assert_eq!(out.spheres[1].radius_bits, 20);
    assert_eq!(out.spheres[2].radius_bits, 30);
}

#[test]
fn empty_scene_packs_to_empty_root() {
    let scene = Scene { nodes: vec![], roots: vec![] };
    let out = pack_scene(&scene);
    assert_eq!(out.planes.len(), 0);
    assert_eq!(out.spheres.len(), 0);
    assert_eq!(out.cubes.len(), 0);
    assert_eq!(out.images.len(), 0);
    assert_eq!(out.root.sphere_index_range, IndexRange { start: 0, end: 0 });
    assert_eq!(out.root.children.len(), 0);
    assert_eq!(out.root.operation, Operation::Union);
    assert!(!out.root.negative);
    assert_eq!(out.dropped_spheres, 0);
}

#[test]
fn sphere_capacity_overflow_drops_the_last_one() {
    // 25 spheres into a 24-slot array: the first 24 survive, one drop is
    // reported
    let mut nodes = Vec::new();
    let mut roots = Vec::new();
    for i in 0..25u32 {
        nodes.push(sphere_leaf(i, i));
        roots.push(i as usize);
    }
    let scene = Scene { nodes, roots };
    let out = pack_scene(&scene);
    assert_eq!(out.spheres.len(), 24);
    assert_eq!(out.dropped_spheres, 1);
    for i in 0..24u32 {
        assert_eq!(out.spheres[i as usize].radius_bits, i);
    }
    // the root range saturates at the capacity
    assert_eq!(out.root.sphere_index_range, IndexRange { start: 0, end: 24 });
}

#[test]
fn repacking_an_unchanged_scene_is_deterministic() {
    let scene = Scene {
        nodes: vec![
            compound(Operation::Intersection, vec![1, 2]),
            sphere_leaf(10, 1),
            sphere_leaf(20, 2),
        ],
        roots: vec![0],
    };
    let a = pack_scene(&scene);
    let b = pack_scene(&scene);
    assert!(group_eq(&a.root, &b.root));
}

#[test]
fn numeric_edits_keep_the_tree_structure() {
    let base = Scene {
        nodes: vec![
            compound(Operation::Union, vec![1, 2]),
            sphere_leaf(10, 1),
            compound(Operation::Intersection, vec![3]),
            sphere_leaf(20, 2),
        ],
        roots: vec![0],
    };
    let mut edited = base.clone();
    // change only a radius, a material and a transform
    edited.nodes[1] = sphere_leaf(99, 7);
    edited.nodes[3] = Shape {
        shape_type: ShapeType::Primitive(Primitive::Sphere { radius_bits: 123 }, mat(9)),
        negative: false,
        transform: transform(555),
        children: None,
    };
    let a = pack_scene(&base);
    let b = pack_scene(&edited);
    assert!(group_eq(&a.root, &b.root));

    // changing the operation changes the topology
    let mut reshaped = base.clone();
    reshaped.nodes[2] = compound(Operation::Union, vec![3]);
    let c = pack_scene(&reshaped);
    assert!(!group_eq(&a.root, &c.root));
}

#[test]
fn subtractive_leaf_gets_a_negated_scale() {
    let mut leaf = sphere_leaf(10, 1);
    leaf.negative = true;
    let scene = Scene { nodes: vec![leaf], roots: vec![0] };
    let out = pack_scene(&scene);
    assert_eq!(out.spheres.len(), 1);
    assert_eq!(out.spheres[0].scale_bits, 100 ^ SIGN_BIT);
}

#[test]
fn group_operations_and_negation_carry_over() {
    let mut inner = compound(Operation::Intersection, vec![2]);
    inner.negative = true;
    let scene = Scene {
        nodes: vec![compound(Operation::Union, vec![1]), inner, sphere_leaf(5, 1)],
        roots: vec![0],
    };
    let out = pack_scene(&scene);
    let outer = &out.root.children[0];
    assert_eq!(outer.operation, Operation::Union);
    let nested = &outer.children[0];
    assert_eq!(nested.operation, Operation::Intersection);
    assert!(nested.negative);
}

#[test]
fn primitive_bearing_group_contains_itself_first() {
    // a sphere that owns a child sphere forms a union group whose own
    // entry precedes the child's
    let parent = Shape {
        shape_type: ShapeType::Primitive(Primitive::Sphere { radius_bits: 1 }, mat(1)),
        negative: false,
        transform: transform(100),
        children: Some(vec![1]),
    };
    let scene = Scene { nodes: vec![parent, sphere_leaf(2, 2)], roots: vec![0] };
    let out = pack_scene(&scene);
    assert_eq!(out.spheres.len(), 2);
    assert_eq!(out.spheres[0].radius_bits, 1);
    assert_eq!(out.spheres[1].radius_bits, 2);
    let g = &out.root.children[0];
    assert_eq!(g.operation, Operation::Union);
    assert_eq!(g.sphere_index_range, IndexRange { start: 0, end: 2 });
}

fn collect_sphere_ranges(g: &raymarch::pack::ShapeGroup, out: &mut Vec<(u8, u8)>) {
    out.push((g.sphere_index_range.start, g.sphere_index_range.end));
    for c in &g.children {
        collect_sphere_ranges(c, out);
    }
}

#[test]
fn sphere_ranges_partition_the_packed_array() {
    // a mixed tree: spheres at several levels, interleaved with groups
    let scene = Scene {
        nodes: vec![
            compound(Operation::Union, vec![1, 2, 3]),
            sphere_leaf(1, 1),
            compound(Operation::Intersection, vec![4, 5]),
            sphere_leaf(2, 2),
            sphere_leaf(3, 3),
            compound(Operation::Union, vec![6]),
            sphere_leaf(4, 4),
        ],
        roots: vec![0],
    };
    let out = pack_scene(&scene);
    assert_eq!(out.spheres.len(), 4);
    let mut ranges = Vec::new();
    collect_sphere_ranges(&out.root, &mut ranges);
    // pre-order ranges form a gapless, non-overlapping chain over the
    // packed prefix
    assert_eq!(ranges.first().unwrap().0, 0);
    assert_eq!(ranges.last().unwrap().1 as usize, out.spheres.len());
    for w in ranges.windows(2) {
        assert!(w[0].0 <= w[0].1);
        assert_eq!(w[0].1, w[1].0);
    }
    // every packed index is covered by exactly one range
    for i in 0..out.spheres.len() as u8 {
        let covering = ranges.iter().filter(|r| r.0 <= i && i < r.1).count();
        assert_eq!(covering, 1);
    }
}
