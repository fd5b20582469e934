use raymarch::pack::pack_scene;
use raymarch::shape::{Material, Operation, Primitive, Scene, Shape, ShapeType, Transform};
use raymarch::tracing::{assemble_shader, generate_material, generate_sdf};

fn mat(tag: u32) -> Material {
    Material { red_bits: tag, green_bits: tag, blue_bits: tag }
}

fn transform() -> Transform {
    Transform { inv_bits: [0u32; 16], scale_bits: 100 }
}

fn sphere_leaf(radius_bits: u32) -> Shape {
    Shape {
        shape_type: ShapeType::Primitive(Primitive::Sphere { radius_bits }, mat(1)),
        negative: false,
        transform: transform(),
        children: None,
    }
}

fn compound(op: Operation, children: Vec<usize>) -> Shape {
    Shape {
        shape_type: ShapeType::Compound(op),
        negative: false,
        transform: transform(),
        children: Some(children),
    }
}

#[test]
fn single_sphere_scene_emits_one_combine_line() {
    let scene = Scene { nodes: vec![sphere_leaf(10)], roots: vec![0] };
    let out = pack_scene(&scene);
    let text = generate_sdf(&out.root);
    let expected = "fn sdf_generated(pnt: vec3<f32>) -> f32 {\nvar dist_0 = #{FAR}f;\ndist_0 = min(dist_0, sdf_sphere(0u, pnt));\nreturn dist_0;\n}";
    assert_eq!(text, expected);
}

#[test]
fn two_spheres_emit_a_bounded_loop() {
    let scene = Scene { nodes: vec![sphere_leaf(10), sphere_leaf(20)], roots: vec![0, 1] };
    let out = pack_scene(&scene);
    let text = generate_sdf(&out.root);
    let expected = "fn sdf_generated(pnt: vec3<f32>) -> f32 {\nvar dist_0 = #{FAR}f;\nfor (var i = 0u; i < 2u; i = i + 1u) {\ndist_0 = min(dist_0, sdf_sphere(i, pnt));\n}\nreturn dist_0;\n}";
    assert_eq!(text, expected);
}

#[test]
fn intersection_group_seeds_negated_and_combines_with_max() {
    let scene = Scene {
        nodes: vec![compound(Operation::Intersection, vec![1, 2]), sphere_leaf(10), sphere_leaf(20)],
        roots: vec![0],
    };
    let out = pack_scene(&scene);
    let text = generate_sdf(&out.root);
    let expected = "fn sdf_generated(pnt: vec3<f32>) -> f32 {\nvar dist_0 = #{FAR}f;\nvar dist_1 = -#{FAR}f;\nfor (var i = 0u; i < 2u; i = i + 1u) {\ndist_1 = max(dist_1, sdf_sphere(i, pnt));\n}\ndist_0 = min(dist_0, dist_1);\nreturn dist_0;\n}";
    assert_eq!(text, expected);
}

#[test]
fn subtractive_child_is_negated_in_the_combine() {
    let mut hole = sphere_leaf(20);
    hole.negative = true;
    let mut inner = compound(Operation::Union, vec![2]);
    inner.negative = true;
    let scene = Scene {
        nodes: vec![compound(Operation::Union, vec![1]), inner, hole],
        roots: vec![0],
    };
    let out = pack_scene(&scene);
    let text = generate_sdf(&out.root);
    let expected = "fn sdf_generated(pnt: vec3<f32>) -> f32 {\nvar dist_0 = #{FAR}f;\nvar dist_1 = #{FAR}f;\nvar dist_2 = #{FAR}f;\ndist_2 = min(dist_2, sdf_sphere(0u, pnt));\ndist_1 = min(dist_1, -dist_2);\ndist_0 = min(dist_0, dist_1);\nreturn dist_0;\n}";
    assert_eq!(text, expected);
}

#[test]
fn material_variant_carries_materials_with_select() {
    let scene = Scene { nodes: vec![sphere_leaf(10)], roots: vec![0] };
    let out = pack_scene(&scene);
    let text = generate_material(&out.root);
    let expected = "fn sdf_material_generated(pnt: vec3<f32>) -> SDFMaterialResult {\nvar dist_0 = #{FAR}f;\nvar material_0 = Material(vec3(1.0));\nif min_select(&dist_0, sdf_sphere(0u, pnt)) { material_0 = shapes.spheres[0u].material; }\nreturn SDFMaterialResult(dist_0, material_0);\n}";
    assert_eq!(text, expected);
}

#[test]
fn mixed_kinds_emit_in_fixed_kind_order() {
    let cube = Shape {
        shape_type: ShapeType::Primitive(
            Primitive::Cube { bounds_bits: [1, 1, 1] },
            mat(2),
        ),
        negative: false,
        transform: transform(),
        children: None,
    };
    let plane = Shape {
        shape_type: ShapeType::Primitive(Primitive::Plane, mat(3)),
        negative: false,
        transform: transform(),
        children: None,
    };
    let scene = Scene { nodes: vec![cube, sphere_leaf(10), plane], roots: vec![0, 1, 2] };
    let out = pack_scene(&scene);
    let text = generate_sdf(&out.root);
    let expected = "fn sdf_generated(pnt: vec3<f32>) -> f32 {\nvar dist_0 = #{FAR}f;\ndist_0 = min(dist_0, sdf_plane(0u, pnt));\ndist_0 = min(dist_0, sdf_sphere(0u, pnt));\ndist_0 = min(dist_0, sdf_cube(0u, pnt));\nreturn dist_0;\n}";
    assert_eq!(text, expected);
}

#[test]
fn assemble_joins_prelude_and_evaluators() {
    let joined = assemble_shader("prelude", "sdf", "mat");
    assert_eq!(joined, "prelude\nsdf\nmat");
}

#[test]
fn regenerated_text_is_identical_for_an_unchanged_scene() {
    let scene = Scene {
        nodes: vec![compound(Operation::Union, vec![1, 2]), sphere_leaf(10), sphere_leaf(20)],
        roots: vec![0],
    };
    let a = generate_sdf(&pack_scene(&scene).root);
    let b = generate_sdf(&pack_scene(&scene).root);
    assert_eq!(a, b);
}

#[test]
fn oversized_group_trees_are_refused_not_miscounted() {
    // a chain of 256 compounds exceeds the generator's one-byte index
    // budget together with the implicit root
    let mut nodes = Vec::new();
    for i in 0..256usize {
        nodes.push(compound(Operation::Union, vec![i + 1]));
    }
    nodes.push(sphere_leaf(1));
    let scene = Scene { nodes, roots: vec![0] };
    let out = pack_scene(&scene);
    assert!(raymarch::tracing::try_generate_sdf(&out.root).is_none());
    assert!(raymarch::tracing::try_generate_material(&out.root).is_none());

    let small = Scene { nodes: vec![sphere_leaf(10)], roots: vec![0] };
    let packed = pack_scene(&small);
    let text = raymarch::tracing::try_generate_sdf(&packed.root).unwrap();
    assert_eq!(text, generate_sdf(&packed.root));
}

#[test]
fn three_digit_group_indices_format_correctly() {
    // a chain of 150 compounds wrapping one sphere: group indices reach
    // three decimal digits
    let mut nodes = Vec::new();
    for i in 0..150usize {
        nodes.push(compound(Operation::Union, vec![i + 1]));
    }
    nodes.push(sphere_leaf(1));
    let scene = Scene { nodes, roots: vec![0] };
    let out = pack_scene(&scene);
    let text = generate_sdf(&out.root);
    assert!(text.contains("var dist_150 = #{FAR}f;\n"));
    assert!(text.contains("dist_149 = min(dist_149, dist_150);\n"));
    assert!(text.contains("dist_150 = min(dist_150, sdf_sphere(0u, pnt));\n"));
    assert!(!text.contains("dist_151"));
}
