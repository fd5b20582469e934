//! Reference evaluator for the combine semantics of the generated code.
//!
//! The generated evaluators fold per-primitive distances into a group
//! accumulator with `min` (union) or `max` (intersection), carrying the
//! material of the sample that last changed the accumulator, and fold each
//! child group in with the same rule, negating a subtractive child's
//! distance.  This module evaluates a compiled group tree over caller-
//! supplied fixed-point distances with exactly those rules, so the combine
//! semantics can be stated, proved and tested on the host.

use vstd::prelude::*;
use crate::pack::{IndexRange, ShapeGroup};
use crate::shape::{Material, Operation};

verus! {

/// Bit pattern of the unit scalar: the default albedo component of a group
/// accumulator before any member overwrites it.
pub const UNIT_BITS: u32 = 0x3F80_0000;

/// The default material seeded into a group accumulator.
pub open spec fn default_material() -> Material {
    Material { red_bits: UNIT_BITS, green_bits: UNIT_BITS, blue_bits: UNIT_BITS }
}

/// One per-primitive evaluation sample: the primitive's signed distance at
/// the queried point (in the caller's fixed-point scale) and its material.
#[derive(Clone, Copy, PartialEq, Eq, Structural, Debug)]
pub struct Sample {
    pub dist: i64,
    pub material: Material,
}

/// Whether a candidate distance changes the accumulator: strictly smaller
/// for a union, strictly larger for an intersection.
pub open spec fn combine_changes(op: Operation, acc: int, cand: int) -> bool {
    match op {
        Operation::Union => cand < acc,
        Operation::Intersection => cand > acc,
    }
}

/// The accumulator seed of a group: the far sentinel for a union, its
/// negation for an intersection.
pub open spec fn seed_dist(op: Operation, far: int) -> int {
    match op {
        Operation::Union => far,
        Operation::Intersection => -far,
    }
}

/// Select-and-carry fold of a sample sequence, from the left.
pub open spec fn fold_samples(op: Operation, d: int, m: Material, ds: Seq<Sample>) -> (int, Material)
    decreases ds.len(),
{
    if ds.len() == 0 {
        (d, m)
    } else if combine_changes(op, d, ds[0].dist as int) {
        fold_samples(op, ds[0].dist as int, ds[0].material, ds.drop_first())
    } else {
        fold_samples(op, d, m, ds.drop_first())
    }
}

/// The sub-sequence of `ds` selected by a range (empty when inverted or out
/// of bounds).
pub open spec fn range_samples(ds: Seq<Sample>, r: IndexRange) -> Seq<Sample> {
    if r.start <= r.end && r.end as int <= ds.len() {
        ds.subrange(r.start as int, r.end as int)
    } else {
        Seq::empty()
    }
}

/// The members a group folds before its children: its four kind ranges in
/// the fixed order plane, sphere, cube, image.
pub open spec fn group_members(
    g: ShapeGroup,
    planes: Seq<Sample>,
    spheres: Seq<Sample>,
    cubes: Seq<Sample>,
    images: Seq<Sample>,
) -> Seq<Sample> {
    range_samples(planes, g.plane_index_range) + range_samples(spheres, g.sphere_index_range)
        + range_samples(cubes, g.cube_index_range) + range_samples(images, g.image_index_range)
}

/// The value and material a group's accumulator holds after the generated
/// code for that group has run: the seeded accumulator folded over the
/// group's own members, then over each child's (possibly negated) result.
pub open spec fn eval_group(
    g: ShapeGroup,
    planes: Seq<Sample>,
    spheres: Seq<Sample>,
    cubes: Seq<Sample>,
    images: Seq<Sample>,
    far: int,
) -> (int, Material)
    decreases g, 0int,
{
    let own = fold_samples(
        g.operation,
        seed_dist(g.operation, far),
        default_material(),
        group_members(g, planes, spheres, cubes, images),
    );
    eval_children(
        g.children@,
        g.children@.len() as int,
        g.operation,
        own,
        planes,
        spheres,
        cubes,
        images,
        far,
    )
}

/// Folds the results of the child groups `cs[..n]` into the accumulator.
pub open spec fn eval_children(
    cs: Seq<ShapeGroup>,
    n: int,
    op: Operation,
    acc: (int, Material),
    planes: Seq<Sample>,
    spheres: Seq<Sample>,
    cubes: Seq<Sample>,
    images: Seq<Sample>,
    far: int,
) -> (int, Material)
    decreases cs, n,
    when n <= cs.len()
{
    if n <= 0 {
        acc
    } else {
        let prev = eval_children(cs, n - 1, op, acc, planes, spheres, cubes, images, far);
        let sub = eval_group(cs[n - 1], planes, spheres, cubes, images, far);
        let cand = if cs[n - 1].negative {
            -sub.0
        } else {
            sub.0
        };
        if combine_changes(op, prev.0, cand) {
            (cand, sub.1)
        } else {
            prev
        }
    }
}

/// Every range of the tree stays within its kind's sample array.
pub open spec fn group_in_bounds(g: ShapeGroup, np: int, ns: int, nc: int, ni: int) -> bool
    decreases g, 0int,
{
    &&& g.plane_index_range.end as int <= np
    &&& g.sphere_index_range.end as int <= ns
    &&& g.cube_index_range.end as int <= nc
    &&& g.image_index_range.end as int <= ni
    &&& children_in_bounds(g.children@, g.children@.len() as int, np, ns, nc, ni)
}

pub open spec fn children_in_bounds(
    cs: Seq<ShapeGroup>,
    n: int,
    np: int,
    ns: int,
    nc: int,
    ni: int,
) -> bool
    decreases cs, n,
    when n <= cs.len()
{
    n <= 0 || (children_in_bounds(cs, n - 1, np, ns, nc, ni) && group_in_bounds(
        cs[n - 1],
        np,
        ns,
        nc,
        ni,
    ))
}

/// Every sample distance lies within the far sentinel.
pub open spec fn samples_bounded(ds: Seq<Sample>, far: int) -> bool {
    forall|x: int| 0 <= x < ds.len() ==> -far <= (#[trigger] ds[x]).dist as int <= far
}

/// Folds a candidate distance into the accumulator with the union rule and
/// reports whether it changed, as the generated code's `min_select` does.
pub fn min_select(dist: &mut i64, cand: i64) -> (changed: bool)
    ensures
        changed == (cand < *old(dist)),
        *final(dist) == if cand < *old(dist) {
            cand
        } else {
            *old(dist)
        },
{
    if cand < *dist {
        *dist = cand;
        true
    } else {
        false
    }
}

/// Folds a candidate distance into the accumulator with the intersection
/// rule and reports whether it changed, as `max_select` does.
pub fn max_select(dist: &mut i64, cand: i64) -> (changed: bool)
    ensures
        changed == (cand > *old(dist)),
        *final(dist) == if cand > *old(dist) {
            cand
        } else {
            *old(dist)
        },
{
    if cand > *dist {
        *dist = cand;
        true
    } else {
        false
    }
}

/// Folding keeps the accumulator within the bounds that hold of it and of
/// every sample.
proof fn lemma_fold_bounded(op: Operation, d: int, m: Material, ds: Seq<Sample>, far: int)
    requires
        samples_bounded(ds, far),
        -far <= d <= far,
    ensures
        -far <= fold_samples(op, d, m, ds).0 <= far,
    decreases ds.len(),
{
    if ds.len() > 0 {
        assert(ds[0].dist as int <= far && -far <= ds[0].dist as int);
        assert(samples_bounded(ds.drop_first(), far)) by {
            assert(forall|x: int|
                0 <= x < ds.drop_first().len() ==> #[trigger] ds.drop_first()[x] == ds[x + 1]);
        }
        if combine_changes(op, d, ds[0].dist as int) {
            lemma_fold_bounded(op, ds[0].dist as int, ds[0].material, ds.drop_first(), far);
        } else {
            lemma_fold_bounded(op, d, m, ds.drop_first(), far);
        }
    }
}

/// One fold step over a range of a sample vector.
fn fold_one(op: Operation, dist: &mut i64, material: &mut Material, s: &Sample)
    ensures
        ({
            let stepped = if combine_changes(op, *old(dist) as int, s.dist as int) {
                (s.dist as int, s.material)
            } else {
                (*old(dist) as int, *old(material))
            };
            *final(dist) as int == stepped.0 && *final(material) == stepped.1
        }),
{
    let changed = match op {
        Operation::Union => min_select(dist, s.dist),
        Operation::Intersection => max_select(dist, s.dist),
    };
    if changed {
        *material = s.material;
    }
}

/// Folds one kind's range of samples into the accumulator.
fn fold_range(
    op: Operation,
    dist: &mut i64,
    material: &mut Material,
    ds: &Vec<Sample>,
    r: &IndexRange,
)
    requires
        r.start <= r.end ==> r.end as int <= ds@.len(),
    ensures
        ({
            let folded = fold_samples(
                op,
                *old(dist) as int,
                *old(material),
                range_samples(ds@, *r),
            );
            *final(dist) as int == folded.0 && *final(material) == folded.1
        }),
{
    if r.start >= r.end {
        proof {
            assert(range_samples(ds@, *r) =~= Seq::<Sample>::empty());
        }
        return ;
    }
    let mut i: usize = r.start as usize;
    while i < r.end as usize
        invariant
            r.start <= r.end,
            r.end as int <= ds@.len(),
            r.start as usize <= i <= r.end as usize,
            fold_samples(op, *old(dist) as int, *old(material), range_samples(ds@, *r)) ==
                fold_samples(op, *dist as int, *material, ds@.subrange(i as int, r.end as int)),
        decreases r.end as int - i,
    {
        let ghost pre = ds@.subrange(i as int, r.end as int);
        proof {
            assert(pre[0] == ds@[i as int]);
            assert(pre.drop_first() =~= ds@.subrange(i as int + 1, r.end as int));
        }
        let s = ds[i];
        fold_one(op, dist, material, &s);
        i = i + 1;
    }
    proof {
        assert(ds@.subrange(r.end as int, r.end as int) =~= Seq::<Sample>::empty());
    }
}

/// Evaluates a compiled group tree over per-primitive distance samples,
/// exactly as the generated material evaluator combines them: seed, fold
/// the four kind ranges in order, then fold each child in, negating
/// subtractive children.  Returns the root accumulator's distance and
/// material.
pub fn eval_group_material(
    g: &ShapeGroup,
    planes: &Vec<Sample>,
    spheres: &Vec<Sample>,
    cubes: &Vec<Sample>,
    images: &Vec<Sample>,
    far: i64,
) -> (r: (i64, Material))
    requires
        far >= 0,
        group_in_bounds(*g, planes@.len() as int, spheres@.len() as int, cubes@.len() as int, images@.len() as int),
        samples_bounded(planes@, far as int),
        samples_bounded(spheres@, far as int),
        samples_bounded(cubes@, far as int),
        samples_bounded(images@, far as int),
    ensures
        r.0 as int == eval_group(*g, planes@, spheres@, cubes@, images@, far as int).0,
        r.1 == eval_group(*g, planes@, spheres@, cubes@, images@, far as int).1,
        -(far as int) <= r.0 as int <= far as int,
    decreases *g,
{
    let mut dist: i64 = match g.operation {
        Operation::Union => far,
        Operation::Intersection => -far,
    };
    let mut material: Material = Material {
        red_bits: UNIT_BITS,
        green_bits: UNIT_BITS,
        blue_bits: UNIT_BITS,
    };
    let ghost members = group_members(*g, planes@, spheres@, cubes@, images@);
    fold_range(g.operation, &mut dist, &mut material, planes, &g.plane_index_range);
    fold_range(g.operation, &mut dist, &mut material, spheres, &g.sphere_index_range);
    fold_range(g.operation, &mut dist, &mut material, cubes, &g.cube_index_range);
    fold_range(g.operation, &mut dist, &mut material, images, &g.image_index_range);
    proof {
        lemma_fold_concat(
            g.operation,
            seed_dist(g.operation, far as int),
            default_material(),
            range_samples(planes@, g.plane_index_range),
            range_samples(spheres@, g.sphere_index_range),
        );
        lemma_fold_concat(
            g.operation,
            seed_dist(g.operation, far as int),
            default_material(),
            range_samples(planes@, g.plane_index_range) + range_samples(
                spheres@,
                g.sphere_index_range,
            ),
            range_samples(cubes@, g.cube_index_range),
        );
        lemma_fold_concat(
            g.operation,
            seed_dist(g.operation, far as int),
            default_material(),
            (range_samples(planes@, g.plane_index_range) + range_samples(
                spheres@,
                g.sphere_index_range,
            )) + range_samples(cubes@, g.cube_index_range),
            range_samples(images@, g.image_index_range),
        );
        assert(members =~= ((range_samples(planes@, g.plane_index_range) + range_samples(
            spheres@,
            g.sphere_index_range,
        )) + range_samples(cubes@, g.cube_index_range)) + range_samples(
            images@,
            g.image_index_range,
        ));
        let own = fold_samples(
            g.operation,
            seed_dist(g.operation, far as int),
            default_material(),
            members,
        );
        assert(dist as int == own.0 && material == own.1);
        lemma_fold_bounded(
            g.operation,
            seed_dist(g.operation, far as int),
            default_material(),
            members,
            far as int,
        );
    }
    let mut j: usize = 0;
    while j < g.children.len()
        invariant
            far >= 0,
            -(far as int) <= dist as int <= far as int,
            j <= g.children@.len(),
            group_in_bounds(
                *g,
                planes@.len() as int,
                spheres@.len() as int,
                cubes@.len() as int,
                images@.len() as int,
            ),
            samples_bounded(planes@, far as int),
            samples_bounded(spheres@, far as int),
            samples_bounded(cubes@, far as int),
            samples_bounded(images@, far as int),
            ({
                let own = fold_samples(
                    g.operation,
                    seed_dist(g.operation, far as int),
                    default_material(),
                    group_members(*g, planes@, spheres@, cubes@, images@),
                );
                let acc = eval_children(
                    g.children@,
                    j as int,
                    g.operation,
                    own,
                    planes@,
                    spheres@,
                    cubes@,
                    images@,
                    far as int,
                );
                dist as int == acc.0 && material == acc.1
            }),
        decreases g.children@.len() - j,
    {
        proof {
            lemma_children_in_bounds_at(
                g.children@,
                g.children@.len() as int,
                j as int,
                planes@.len() as int,
                spheres@.len() as int,
                cubes@.len() as int,
                images@.len() as int,
            );
        }
        let child = &g.children[j];
        let sub = eval_group_material(child, planes, spheres, cubes, images, far);
        let cand: i64 = if child.negative {
            -sub.0
        } else {
            sub.0
        };
        let changed = match g.operation {
            Operation::Union => min_select(&mut dist, cand),
            Operation::Intersection => max_select(&mut dist, cand),
        };
        if changed {
            material = sub.1;
        }
        j = j + 1;
    }
    (dist, material)
}

/// Bound propagation into one child of an in-bounds run.
proof fn lemma_children_in_bounds_at(
    cs: Seq<ShapeGroup>,
    n: int,
    j: int,
    np: int,
    ns: int,
    nc: int,
    ni: int,
)
    requires
        0 <= j < n <= cs.len(),
        children_in_bounds(cs, n, np, ns, nc, ni),
    ensures
        group_in_bounds(cs[j], np, ns, nc, ni),
    decreases n,
{
    if j < n - 1 {
        lemma_children_in_bounds_at(cs, n - 1, j, np, ns, nc, ni);
    }
}

/// Folding a concatenation folds the parts in order.
pub proof fn lemma_fold_concat(op: Operation, d: int, m: Material, a: Seq<Sample>, b: Seq<Sample>)
    ensures
        fold_samples(op, d, m, a + b) == ({
            let first = fold_samples(op, d, m, a);
            fold_samples(op, first.0, first.1, b)
        }),
    decreases a.len(),
{
    if a.len() == 0 {
        assert(a + b =~= b);
    } else {
        assert((a + b).drop_first() =~= a.drop_first() + b);
        assert((a + b)[0] == a[0]);
        if combine_changes(op, d, a[0].dist as int) {
            lemma_fold_concat(op, a[0].dist as int, a[0].material, a.drop_first(), b);
        } else {
            lemma_fold_concat(op, d, m, a.drop_first(), b);
        }
    }
}

/// The folded distance is the operation's extremum of the seed and all
/// sample distances: no sample beats it, and it is the seed or one of the
/// samples.
pub proof fn lemma_fold_extremum(op: Operation, d: int, m: Material, ds: Seq<Sample>)
    ensures
        !combine_changes(op, fold_samples(op, d, m, ds).0, d),
        forall|x: int|
            0 <= x < ds.len() ==> !combine_changes(
                op,
                fold_samples(op, d, m, ds).0,
                (#[trigger] ds[x]).dist as int,
            ),
        fold_samples(op, d, m, ds).0 == d || exists|x: int|
            0 <= x < ds.len() && fold_samples(op, d, m, ds).0 == (#[trigger] ds[x]).dist as int,
    decreases ds.len(),
{
    if ds.len() > 0 {
        let rest = ds.drop_first();
        assert(forall|x: int| 0 <= x < rest.len() ==> #[trigger] rest[x] == ds[x + 1]);
        let r = fold_samples(op, d, m, ds);
        if combine_changes(op, d, ds[0].dist as int) {
            lemma_fold_extremum(op, ds[0].dist as int, ds[0].material, rest);
            assert(r == fold_samples(op, ds[0].dist as int, ds[0].material, rest));
            if r.0 == ds[0].dist as int {
                assert(r.0 == ds[0].dist as int);
            }
        } else {
            lemma_fold_extremum(op, d, m, rest);
            assert(r == fold_samples(op, d, m, rest));
        }
        assert forall|x: int| 0 <= x < ds.len() implies !combine_changes(
            op,
            r.0,
            (#[trigger] ds[x]).dist as int,
        ) by {
            if x >= 1 {
                assert(rest[x - 1] == ds[x]);
            }
        }
        if r.0 != d {
            if combine_changes(op, d, ds[0].dist as int) && r.0 == ds[0].dist as int {
                assert(0 <= 0 < ds.len() && r.0 == ds[0].dist as int);
            } else {
                let y = choose|y: int|
                    0 <= y < rest.len() && r.0 == (#[trigger] rest[y]).dist as int;
                assert(ds[y + 1] == rest[y]);
                assert(0 <= y + 1 < ds.len() && r.0 == ds[y + 1].dist as int);
            }
        }
    }
}

/// A fold that leaves the distance unchanged leaves the material
/// unchanged: the material only moves together with the distance.
proof fn lemma_fold_stable(op: Operation, d: int, m: Material, ds: Seq<Sample>)
    requires
        fold_samples(op, d, m, ds).0 == d,
    ensures
        fold_samples(op, d, m, ds).1 == m,
    decreases ds.len(),
{
    if ds.len() > 0 {
        let rest = ds.drop_first();
        if combine_changes(op, d, ds[0].dist as int) {
            lemma_fold_extremum(op, ds[0].dist as int, ds[0].material, rest);
            assert(false);
        } else {
            lemma_fold_stable(op, d, m, rest);
        }
    }
}

/// Select-and-carry law: when the fold changed the accumulator, the final
/// material is the material of the first sample whose distance equals the
/// final distance.
pub proof fn lemma_fold_carry(op: Operation, d: int, m: Material, ds: Seq<Sample>, x: int)
    requires
        fold_samples(op, d, m, ds).0 != d,
        0 <= x < ds.len(),
        ds[x].dist as int == fold_samples(op, d, m, ds).0,
        forall|y: int| 0 <= y < x ==> (#[trigger] ds[y]).dist as int != fold_samples(op, d, m, ds).0,
    ensures
        fold_samples(op, d, m, ds).1 == ds[x].material,
    decreases ds.len(),
{
    let r = fold_samples(op, d, m, ds);
    let rest = ds.drop_first();
    assert(forall|y: int| 0 <= y < rest.len() ==> #[trigger] rest[y] == ds[y + 1]);
    if combine_changes(op, d, ds[0].dist as int) {
        let r2 = fold_samples(op, ds[0].dist as int, ds[0].material, rest);
        assert(r == r2);
        if ds[0].dist as int == r.0 {
            assert(x == 0);
            lemma_fold_stable(op, ds[0].dist as int, ds[0].material, rest);
        } else {
            assert(x >= 1);
            lemma_fold_carry(op, ds[0].dist as int, ds[0].material, rest, x - 1);
        }
    } else {
        assert(r == fold_samples(op, d, m, rest));
        // the first sample cannot carry the final distance here
        if ds[0].dist as int == r.0 {
            lemma_fold_extremum(op, d, m, rest);
            assert(!combine_changes(op, r.0, d));
            assert(!combine_changes(op, d, r.0));
            assert(r.0 == d);
            assert(false);
        }
        assert(x >= 1);
        lemma_fold_carry(op, d, m, rest, x - 1);
    }
}

/// The carried material never influences the distance: folding with any
/// two starting materials yields the same distance, so the scalar and the
/// material evaluators agree on every distance they compute.
pub proof fn lemma_fold_dist_ignores_material(
    op: Operation,
    d: int,
    m1: Material,
    m2: Material,
    ds: Seq<Sample>,
)
    ensures
        fold_samples(op, d, m1, ds).0 == fold_samples(op, d, m2, ds).0,
    decreases ds.len(),
{
    if ds.len() > 0 {
        if combine_changes(op, d, ds[0].dist as int) {
        } else {
            lemma_fold_dist_ignores_material(op, d, m1, m2, ds.drop_first());
        }
    }
}

/// A childless group evaluates to the plain fold of its members.
pub proof fn lemma_leaf_group_eval(
    g: ShapeGroup,
    planes: Seq<Sample>,
    spheres: Seq<Sample>,
    cubes: Seq<Sample>,
    images: Seq<Sample>,
    far: int,
)
    requires
        g.children@.len() == 0,
    ensures
        eval_group(g, planes, spheres, cubes, images, far) == fold_samples(
            g.operation,
            seed_dist(g.operation, far),
            default_material(),
            group_members(g, planes, spheres, cubes, images),
        ),
{
}

/// Select-and-carry correctness for a union group: when one member is
/// strictly closer than every other member and than the far sentinel, the
/// group returns exactly that member's distance and material, never
/// another's.
pub proof fn lemma_union_carry(
    g: ShapeGroup,
    planes: Seq<Sample>,
    spheres: Seq<Sample>,
    cubes: Seq<Sample>,
    images: Seq<Sample>,
    far: int,
    x: int,
)
    requires
        g.children@.len() == 0,
        g.operation == Operation::Union,
        0 <= x < group_members(g, planes, spheres, cubes, images).len(),
        (group_members(g, planes, spheres, cubes, images)[x].dist as int) < far,
        forall|y: int|
            0 <= y < group_members(g, planes, spheres, cubes, images).len() && y != x
                ==> ((#[trigger] group_members(g, planes, spheres, cubes, images)[y]).dist as int)
                > group_members(g, planes, spheres, cubes, images)[x].dist as int,
    ensures
        eval_group(g, planes, spheres, cubes, images, far).0 == group_members(
            g,
            planes,
            spheres,
            cubes,
            images,
        )[x].dist as int,
        eval_group(g, planes, spheres, cubes, images, far).1 == group_members(
            g,
            planes,
            spheres,
            cubes,
            images,
        )[x].material,
{
    let ds = group_members(g, planes, spheres, cubes, images);
    let op = g.operation;
    lemma_leaf_group_eval(g, planes, spheres, cubes, images, far);
    lemma_fold_extremum(op, far, default_material(), ds);
    let r = fold_samples(op, far, default_material(), ds);
    assert(!combine_changes(op, r.0, ds[x].dist as int));
    assert(r.0 <= ds[x].dist as int);
    if r.0 == far {
        assert(false);
    }
    let w = choose|w: int| 0 <= w < ds.len() && r.0 == (#[trigger] ds[w]).dist as int;
    assert(w == x) by {
        if w != x {
            assert((ds[x].dist as int) < ds[w].dist as int);
        }
    }
    assert(r.0 == ds[x].dist as int);
    assert forall|y: int| 0 <= y < x implies (#[trigger] ds[y]).dist as int != r.0 by {
        assert((ds[x].dist as int) < ds[y].dist as int);
    }
    lemma_fold_carry(op, far, default_material(), ds, x);
}

/// Sign law for an intersection group: the combined distance is strictly
/// positive exactly when some member is strictly positive (the point is
/// outside at least one member), and strictly negative exactly when every
/// member is strictly negative (the point is inside all of them).
pub proof fn lemma_intersection_sign(
    g: ShapeGroup,
    planes: Seq<Sample>,
    spheres: Seq<Sample>,
    cubes: Seq<Sample>,
    images: Seq<Sample>,
    far: int,
)
    requires
        g.children@.len() == 0,
        g.operation == Operation::Intersection,
        far > 0,
    ensures
        eval_group(g, planes, spheres, cubes, images, far).0 > 0 <==> exists|x: int|
            0 <= x < group_members(g, planes, spheres, cubes, images).len() && (
            #[trigger] group_members(g, planes, spheres, cubes, images)[x]).dist > 0,
        eval_group(g, planes, spheres, cubes, images, far).0 < 0 <==> forall|x: int|
            0 <= x < group_members(g, planes, spheres, cubes, images).len() ==> (
            #[trigger] group_members(g, planes, spheres, cubes, images)[x]).dist < 0,
{
    let ds = group_members(g, planes, spheres, cubes, images);
    let op = g.operation;
    lemma_leaf_group_eval(g, planes, spheres, cubes, images, far);
    lemma_fold_extremum(op, -far, default_material(), ds);
}

} // verus!
