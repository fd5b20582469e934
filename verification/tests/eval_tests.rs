use raymarch::eval::{eval_group_material, max_select, min_select, Sample, UNIT_BITS};
use raymarch::pack::pack_scene;
use raymarch::shape::{Material, Operation, Primitive, Scene, Shape, ShapeType, Transform};

// fixed-point scale: one unit is a thousandth of a world unit
const FAR: i64 = 64_000;

fn mat(tag: u32) -> Material {
    Material { red_bits: tag, green_bits: tag, blue_bits: tag }
}

fn sample(dist: i64, tag: u32) -> Sample {
    Sample { dist, material: mat(tag) }
}

fn transform() -> Transform {
    Transform { inv_bits: [0u32; 16], scale_bits: 100 }
}

fn sphere_leaf(radius_bits: u32) -> Shape {
    Shape {
        shape_type: ShapeType::Primitive(Primitive::Sphere { radius_bits }, mat(radius_bits)),
        negative: false,
        transform: transform(),
        children: None,
    }
}

fn cube_leaf() -> Shape {
    Shape {
        shape_type: ShapeType::Primitive(Primitive::Cube { bounds_bits: [1, 1, 1] }, mat(7)),
        negative: false,
        transform: transform(),
        children: None,
    }
}

fn compound(op: Operation, children: Vec<usize>) -> Shape {
    Shape {
        shape_type: ShapeType::Compound(op),
        negative: false,
        transform: transform(),
        children: Some(children),
    }
}

#[test]
fn select_helpers_follow_the_strict_rule() {
    let mut d: i64 = 10;
    assert!(min_select(&mut d, 5));
    assert_eq!(d, 5);
    assert!(!min_select(&mut d, 5));
    assert_eq!(d, 5);
    assert!(!min_select(&mut d, 9));
    assert_eq!(d, 5);
    assert!(max_select(&mut d, 6));
    assert_eq!(d, 6);
    assert!(!max_select(&mut d, 6));
    assert_eq!(d, 6);
}

#[test]
fn union_returns_the_nearer_sphere_with_its_material() {
    // sphere A at the origin (r = 1), sphere B at (5,0,0) (r = 1),
    // queried at (0.5,0,0): A's signed distance is -0.5, B's is 3.5;
    // the union must report A's distance and material, never B's
    let scene = Scene { nodes: vec![sphere_leaf(1), sphere_leaf(2)], roots: vec![0, 1] };
    let out = pack_scene(&scene);
    let spheres = vec![sample(-500, 111), sample(3500, 222)];
    let (d, m) = eval_group_material(&out.root, &vec![], &spheres, &vec![], &vec![], FAR);
    assert_eq!(d, -500);
    assert_eq!(m, mat(111));
}

#[test]
fn intersection_at_the_cube_corner_lies_on_the_nearer_surface() {
    // sphere (r = 1.3) intersected with a cube (half-extent 0.5), queried
    // at the cube corner: inside the sphere (about -0.434), exactly on the
    // cube (0); the intersection sits on the closer surface
    let scene = Scene {
        nodes: vec![compound(Operation::Intersection, vec![1, 2]), sphere_leaf(1), cube_leaf()],
        roots: vec![0],
    };
    let out = pack_scene(&scene);
    let group = &out.root.children[0];
    let spheres = vec![sample(-434, 1)];
    let cubes = vec![sample(0, 7)];
    let (d, _) = eval_group_material(group, &vec![], &spheres, &cubes, &vec![], FAR);
    assert_eq!(d, 0);

    // outside both: strictly positive
    let (d_out, _) = eval_group_material(
        group,
        &vec![],
        &vec![sample(700, 1)],
        &vec![sample(200, 7)],
        &vec![],
        FAR,
    );
    assert!(d_out > 0);

    // inside both: strictly negative
    let (d_in, _) = eval_group_material(
        group,
        &vec![],
        &vec![sample(-434, 1)],
        &vec![sample(-100, 7)],
        &vec![],
        FAR,
    );
    assert!(d_in < 0);

    // inside only the sphere: not negative
    let (d_half, _) = eval_group_material(
        group,
        &vec![],
        &vec![sample(-434, 1)],
        &vec![sample(250, 7)],
        &vec![],
        FAR,
    );
    assert!(d_half >= 0);
}

#[test]
fn subtractive_child_carves_out_its_interior() {
    // a union of a sphere with a subtractive hole: inside the hole the
    // negated child distance dominates
    let mut hole = sphere_leaf(2);
    hole.negative = true;
    let mut inner = compound(Operation::Union, vec![2]);
    inner.negative = true;
    let scene = Scene {
        nodes: vec![compound(Operation::Union, vec![1]), inner, hole],
        roots: vec![0],
    };
    let out = pack_scene(&scene);
    let root_group = &out.root.children[0];
    // the queried point is deep inside the hole: the hole's own distance
    // is -300, negated to 300; the union keeps the smaller accumulator
    let spheres = vec![sample(-300, 9)];
    let (d, _) = eval_group_material(root_group, &vec![], &spheres, &vec![], &vec![], FAR);
    assert_eq!(d, 300);
}

#[test]
fn empty_group_returns_the_seed_and_default_material() {
    let scene = Scene { nodes: vec![], roots: vec![] };
    let out = pack_scene(&scene);
    let (d, m) = eval_group_material(&out.root, &vec![], &vec![], &vec![], &vec![], FAR);
    assert_eq!(d, FAR);
    assert_eq!(m.red_bits, UNIT_BITS);
    assert_eq!(1.0f32, f32::from_bits(UNIT_BITS));
}

#[test]
fn first_of_equal_distances_keeps_its_material() {
    // two members at the same distance: the first one's material sticks
    let scene = Scene { nodes: vec![sphere_leaf(1), sphere_leaf(2)], roots: vec![0, 1] };
    let out = pack_scene(&scene);
    let spheres = vec![sample(40, 1), sample(40, 2)];
    let (d, m) = eval_group_material(&out.root, &vec![], &spheres, &vec![], &vec![], FAR);
    assert_eq!(d, 40);
    assert_eq!(m, mat(1));
}
