//! The shape packer: flattens a scene snapshot into fixed-capacity per-kind
//! primitive arrays and a tree of index-range groups.
//!
//! One traversal counter per primitive kind runs across the whole tree in
//! pre-order, a group's own childless members coming before the members of
//! its descendant groups.  Each group records the counter values around its
//! own members as a half-open range per kind.  When a kind's array is full,
//! further shapes of that kind are dropped and counted, never an abort.

use vstd::prelude::*;
use crate::shape::{
    kind_of, signed_scale, Material, Operation, PrimKind, Primitive, Scene, ShapeType, Transform,
    node_children_wf, MAX_CUBES, MAX_IMAGES, MAX_PLANES, MAX_SPHERES,
};

verus! {

/// Half-open index range `[start, end)` into one kind's flat array.
#[derive(Clone, Copy, PartialEq, Eq, Structural, Debug)]
pub struct IndexRange {
    pub start: u8,
    pub end: u8,
}

/// The compiled form of one compound scene node (or of the implicit root
/// union): per-kind index ranges over the flat arrays covering exactly the
/// group's own childless members, the compiled child groups in order, and
/// the operation and negation of the source node.
pub struct ShapeGroup {
    pub plane_index_range: IndexRange,
    pub sphere_index_range: IndexRange,
    pub cube_index_range: IndexRange,
    pub image_index_range: IndexRange,
    pub children: Vec<ShapeGroup>,
    pub operation: Operation,
    pub negative: bool,
}

/// One packed plane instance.
#[derive(Clone, Copy, Debug)]
pub struct PackedPlane {
    pub inv_bits: [u32; 16],
    pub scale_bits: u32,
    pub material: Material,
}

/// One packed sphere instance.
#[derive(Clone, Copy, Debug)]
pub struct PackedSphere {
    pub radius_bits: u32,
    pub inv_bits: [u32; 16],
    pub scale_bits: u32,
    pub material: Material,
}

/// One packed cube instance, with half-extents per axis.
#[derive(Clone, Copy, Debug)]
pub struct PackedCube {
    pub bounds_bits: [u32; 3],
    pub inv_bits: [u32; 16],
    pub scale_bits: u32,
    pub material: Material,
}

/// One packed volumetric-image instance, carrying its asset identifier.
#[derive(Clone, Copy, Debug)]
pub struct PackedImage {
    pub image: u64,
    pub inv_bits: [u32; 16],
    pub scale_bits: u32,
    pub material: Material,
}

/// A primitive occurrence in traversal order: its shape and material, the
/// conditioned transform of its node, and whether the subtraction sign is
/// applied when it is stored.
pub struct PrimSource {
    pub prim: Primitive,
    pub material: Material,
    pub transform: Transform,
    pub negative: bool,
}

/// Capacity of the flat array of kind `k`.
pub open spec fn max_of(k: PrimKind) -> int {
    match k {
        PrimKind::Plane => MAX_PLANES as int,
        PrimKind::Sphere => MAX_SPHERES as int,
        PrimKind::Cube => MAX_CUBES as int,
        PrimKind::Image => MAX_IMAGES as int,
    }
}

/// `x` clipped from above to `m`.
pub open spec fn clip(x: int, m: int) -> int {
    if x <= m {
        x
    } else {
        m
    }
}

pub open spec fn is_leaf(s: Scene, c: int) -> bool {
    s.nodes@[c].children is None
}

pub open spec fn is_group_node(s: Scene, c: int) -> bool {
    s.nodes@[c].children is Some
}

/// Node `c` is a childless primitive of kind `k`.
pub open spec fn leaf_prim(s: Scene, c: int, k: PrimKind) -> bool {
    is_leaf(s, c) && match s.nodes@[c].shape_type {
        ShapeType::Primitive(p, _) => kind_of(p) == k,
        ShapeType::Compound(_) => false,
    }
}

/// The primitive occurrence contributed by leaf node `c`.
pub open spec fn source_of(s: Scene, c: int) -> PrimSource {
    match s.nodes@[c].shape_type {
        ShapeType::Primitive(p, m) => PrimSource {
            prim: p,
            material: m,
            transform: s.nodes@[c].transform,
            negative: s.nodes@[c].negative,
        },
        ShapeType::Compound(_) => arbitrary(),
    }
}

/// The primitive occurrence a primitive-bearing group contributes for
/// itself.  Its subtraction sign is not applied to the stored instance; the
/// group's own negation flag governs how the whole group combines.
pub open spec fn self_source(s: Scene, i: int) -> PrimSource {
    match s.nodes@[i].shape_type {
        ShapeType::Primitive(p, m) => PrimSource {
            prim: p,
            material: m,
            transform: s.nodes@[i].transform,
            negative: false,
        },
        ShapeType::Compound(_) => arbitrary(),
    }
}

/// The resolved child list of group `i`; the implicit root (`i == -1`) owns
/// the scene's root nodes.
pub open spec fn child_list(s: Scene, i: int) -> Seq<usize> {
    if i < 0 {
        s.roots@
    } else {
        match s.nodes@[i].children {
            Some(cs) => cs@,
            None => Seq::empty(),
        }
    }
}

/// Group `i` itself carries a primitive of kind `k`.
pub open spec fn has_self_prim(s: Scene, i: int, k: PrimKind) -> bool {
    0 <= i < s.nodes@.len() && match s.nodes@[i].shape_type {
        ShapeType::Primitive(p, _) => kind_of(p) == k,
        ShapeType::Compound(_) => false,
    }
}

/// Primitive occurrences of kind `k` among the childless members of the
/// child-list prefix `cs[..n]`, in list order.
pub open spec fn leaf_prims_prefix(s: Scene, cs: Seq<usize>, n: int, k: PrimKind) -> Seq<
    PrimSource,
>
    decreases n,
{
    if n <= 0 {
        Seq::empty()
    } else {
        let rest = leaf_prims_prefix(s, cs, n - 1, k);
        if leaf_prim(s, cs[n - 1] as int, k) {
            rest.push(source_of(s, cs[n - 1] as int))
        } else {
            rest
        }
    }
}

/// The child-group members (nodes owning children) of the child-list prefix
/// `cs[..n]`, in list order.
pub open spec fn group_list_prefix(s: Scene, cs: Seq<usize>, n: int) -> Seq<usize>
    decreases n,
{
    if n <= 0 {
        Seq::empty()
    } else {
        let rest = group_list_prefix(s, cs, n - 1);
        if is_group_node(s, cs[n - 1] as int) {
            rest.push(cs[n - 1])
        } else {
            rest
        }
    }
}

/// The kind-`k` primitives owned directly by group `i`: its own primitive,
/// if any, then its childless members in child-list order.
pub open spec fn own_prims(s: Scene, i: int, k: PrimKind) -> Seq<PrimSource> {
    let selfpart: Seq<PrimSource> = if has_self_prim(s, i, k) {
        seq![self_source(s, i)]
    } else {
        Seq::empty()
    };
    selfpart + leaf_prims_prefix(s, child_list(s, i), child_list(s, i).len() as int, k)
}

/// The child groups of group `i`, as node indices in child-list order.
pub open spec fn group_children_of(s: Scene, i: int) -> Seq<usize> {
    group_list_prefix(s, child_list(s, i), child_list(s, i).len() as int)
}

/// All kind-`k` primitives of the subtree rooted at group `i`, in traversal
/// order: the group's own members first, then each child group's subtree in
/// order.
pub open spec fn subtree_prims(s: Scene, i: int, k: PrimKind) -> Seq<PrimSource>
    decreases s.nodes@.len() - i, 1int, 0int,
    when s.wf() && -1 <= i < s.nodes@.len()
    via subtree_prims_dec
{
    own_prims(s, i, k) + groups_prims(
        s,
        i,
        group_children_of(s, i),
        group_children_of(s, i).len() as int,
        k,
    )
}

/// Concatenation of the subtree primitives of the child groups `gs[..n]`.
pub open spec fn groups_prims(s: Scene, lo: int, gs: Seq<usize>, n: int, k: PrimKind) -> Seq<
    PrimSource,
>
    decreases s.nodes@.len() - lo, 0int, n,
    when s.wf() && -1 <= lo && n <= gs.len() && (forall|j: int|
        0 <= j < gs.len() ==> lo < (#[trigger] gs[j]) < s.nodes@.len())
    via groups_prims_dec
{
    if n <= 0 {
        Seq::empty()
    } else {
        groups_prims(s, lo, gs, n - 1, k) + subtree_prims(s, gs[n - 1] as int, k)
    }
}

#[via_fn]
proof fn subtree_prims_dec(s: Scene, i: int, k: PrimKind) {
    lemma_child_list_bounds(s, i);
    lemma_group_list_entries(s, child_list(s, i), child_list(s, i).len() as int, i);
}

#[via_fn]
proof fn groups_prims_dec(s: Scene, lo: int, gs: Seq<usize>, n: int, k: PrimKind) {
}

/// One traversal-counter value per primitive kind.
pub struct Counts {
    pub plane: int,
    pub sphere: int,
    pub cube: int,
    pub image: int,
}

pub open spec fn zero_counts() -> Counts {
    Counts { plane: 0, sphere: 0, cube: 0, image: 0 }
}

pub open spec fn count_at(c: Counts, k: PrimKind) -> int {
    match k {
        PrimKind::Plane => c.plane,
        PrimKind::Sphere => c.sphere,
        PrimKind::Cube => c.cube,
        PrimKind::Image => c.image,
    }
}

/// Number of kind-`k` primitives owned directly by group `i`.
pub open spec fn own_count(s: Scene, i: int, k: PrimKind) -> int {
    own_prims(s, i, k).len() as int
}

/// Number of kind-`k` primitives in the whole subtree of group `i`.
pub open spec fn subtree_count(s: Scene, i: int, k: PrimKind) -> int {
    subtree_prims(s, i, k).len() as int
}

/// The counters after packing group `i`'s own members, starting from `c`.
pub open spec fn add_own(c: Counts, s: Scene, i: int) -> Counts {
    Counts {
        plane: c.plane + own_count(s, i, PrimKind::Plane),
        sphere: c.sphere + own_count(s, i, PrimKind::Sphere),
        cube: c.cube + own_count(s, i, PrimKind::Cube),
        image: c.image + own_count(s, i, PrimKind::Image),
    }
}

/// The counters after packing the whole subtree of group `i`, from `c`.
pub open spec fn add_subtree(c: Counts, s: Scene, i: int) -> Counts {
    Counts {
        plane: c.plane + subtree_count(s, i, PrimKind::Plane),
        sphere: c.sphere + subtree_count(s, i, PrimKind::Sphere),
        cube: c.cube + subtree_count(s, i, PrimKind::Cube),
        image: c.image + subtree_count(s, i, PrimKind::Image),
    }
}

/// The counters after packing the subtrees of the child groups `gs[..j]`,
/// starting from `c`.
pub open spec fn add_group_run(c: Counts, s: Scene, gs: Seq<usize>, j: int) -> Counts
    decreases j,
{
    if j <= 0 {
        c
    } else {
        add_subtree(add_group_run(c, s, gs, j - 1), s, gs[j - 1] as int)
    }
}

/// Operation of the group compiled from node `i`: compounds keep their
/// operation; the implicit root and primitive-bearing groups combine as a
/// union.
pub open spec fn group_operation(s: Scene, i: int) -> Operation {
    if i < 0 {
        Operation::Union
    } else {
        match s.nodes@[i].shape_type {
            ShapeType::Compound(op) => op,
            ShapeType::Primitive(_, _) => Operation::Union,
        }
    }
}

/// Negation flag of the group compiled from node `i`.
pub open spec fn group_negative(s: Scene, i: int) -> bool {
    if i < 0 {
        false
    } else {
        s.nodes@[i].negative
    }
}

/// The per-kind range of a group.
pub open spec fn range_of(g: ShapeGroup, k: PrimKind) -> IndexRange {
    match k {
        PrimKind::Plane => g.plane_index_range,
        PrimKind::Sphere => g.sphere_index_range,
        PrimKind::Cube => g.cube_index_range,
        PrimKind::Image => g.image_index_range,
    }
}

/// The range a group records for kind `k` when its own members start at
/// counter value `base`: the counter values around its own members, each
/// clipped to the kind's capacity (the counter saturates there).
pub open spec fn range_matches(s: Scene, g: ShapeGroup, i: int, base: Counts, k: PrimKind) -> bool {
    &&& range_of(g, k).start as int == clip(count_at(base, k), max_of(k))
    &&& range_of(g, k).end as int == clip(count_at(base, k) + own_count(s, i, k), max_of(k))
}

/// `g` is the group tree the packer compiles for group `i` of scene `s`
/// when the traversal counters stand at `base`: the operation, negation and
/// clipped per-kind ranges of every group in the tree are pinned, child
/// groups correspond one-to-one to the child compounds in order, and each
/// child's ranges continue where its left siblings' subtrees ended.
pub open spec fn group_matches(s: Scene, g: ShapeGroup, i: int, base: Counts) -> bool
    decreases s.nodes@.len() - i, 1int, 0int,
    when s.wf() && -1 <= i < s.nodes@.len()
    via group_matches_dec
{
    let gs = group_children_of(s, i);
    &&& g.operation == group_operation(s, i)
    &&& g.negative == group_negative(s, i)
    &&& range_matches(s, g, i, base, PrimKind::Plane)
    &&& range_matches(s, g, i, base, PrimKind::Sphere)
    &&& range_matches(s, g, i, base, PrimKind::Cube)
    &&& range_matches(s, g, i, base, PrimKind::Image)
    &&& g.children@.len() == gs.len()
    &&& children_match(s, i, g.children@, gs, gs.len() as int, add_own(base, s, i))
}

/// The child groups `cg[..n]` match the child compounds `gs[..n]`, the
/// first starting at counter values `base`.
pub open spec fn children_match(
    s: Scene,
    lo: int,
    cg: Seq<ShapeGroup>,
    gs: Seq<usize>,
    n: int,
    base: Counts,
) -> bool
    decreases s.nodes@.len() - lo, 0int, n,
    when s.wf() && -1 <= lo && n <= gs.len() && (forall|j: int|
        0 <= j < gs.len() ==> lo < (#[trigger] gs[j]) < s.nodes@.len())
    via children_match_dec
{
    if n <= 0 {
        true
    } else {
        children_match(s, lo, cg, gs, n - 1, base) && group_matches(
            s,
            cg[n - 1],
            gs[n - 1] as int,
            add_group_run(base, s, gs, n - 1),
        )
    }
}

#[via_fn]
proof fn group_matches_dec(s: Scene, g: ShapeGroup, i: int, base: Counts) {
    lemma_child_list_bounds(s, i);
    lemma_group_list_entries(s, child_list(s, i), child_list(s, i).len() as int, i);
}

#[via_fn]
proof fn children_match_dec(
    s: Scene,
    lo: int,
    cg: Seq<ShapeGroup>,
    gs: Seq<usize>,
    n: int,
    base: Counts,
) {
}

/// The plane instance stored for a primitive occurrence.
pub open spec fn plane_of(p: PrimSource) -> PackedPlane {
    PackedPlane {
        inv_bits: p.transform.inv_bits,
        scale_bits: signed_scale(p.transform.scale_bits, p.negative),
        material: p.material,
    }
}

/// The sphere instance stored for a primitive occurrence.
pub open spec fn sphere_of(p: PrimSource) -> PackedSphere {
    PackedSphere {
        radius_bits: match p.prim {
            Primitive::Sphere { radius_bits } => radius_bits,
            _ => arbitrary(),
        },
        inv_bits: p.transform.inv_bits,
        scale_bits: signed_scale(p.transform.scale_bits, p.negative),
        material: p.material,
    }
}

/// The cube instance stored for a primitive occurrence.
pub open spec fn cube_of(p: PrimSource) -> PackedCube {
    PackedCube {
        bounds_bits: match p.prim {
            Primitive::Cube { bounds_bits } => bounds_bits,
            _ => arbitrary(),
        },
        inv_bits: p.transform.inv_bits,
        scale_bits: signed_scale(p.transform.scale_bits, p.negative),
        material: p.material,
    }
}

/// The volumetric-image instance stored for a primitive occurrence.
pub open spec fn image_of(p: PrimSource) -> PackedImage {
    PackedImage {
        image: match p.prim {
            Primitive::Image { image } => image,
            _ => arbitrary(),
        },
        inv_bits: p.transform.inv_bits,
        scale_bits: signed_scale(p.transform.scale_bits, p.negative),
        material: p.material,
    }
}

pub open spec fn planes_of(ps: Seq<PrimSource>) -> Seq<PackedPlane> {
    ps.map_values(|p: PrimSource| plane_of(p))
}

pub open spec fn spheres_of(ps: Seq<PrimSource>) -> Seq<PackedSphere> {
    ps.map_values(|p: PrimSource| sphere_of(p))
}

pub open spec fn cubes_of(ps: Seq<PrimSource>) -> Seq<PackedCube> {
    ps.map_values(|p: PrimSource| cube_of(p))
}

pub open spec fn images_of(ps: Seq<PrimSource>) -> Seq<PackedImage> {
    ps.map_values(|p: PrimSource| image_of(p))
}

/// The pre-order sequence of the groups of a compiled tree: the group
/// itself, then each child's pre-order run in order.
pub open spec fn group_run(g: ShapeGroup) -> Seq<ShapeGroup>
    decreases g, 0int,
{
    seq![g] + groups_run(g.children@, g.children@.len() as int)
}

/// Concatenated pre-order runs of the groups `cs[..n]`.
pub open spec fn groups_run(cs: Seq<ShapeGroup>, n: int) -> Seq<ShapeGroup>
    decreases cs, n,
    when n <= cs.len()
{
    if n <= 0 {
        Seq::empty()
    } else {
        groups_run(cs, n - 1) + group_run(cs[n - 1])
    }
}

/// The first `m` entries of `sq`, or all of them if there are fewer.
pub open spec fn capped<T>(sq: Seq<T>, m: int) -> Seq<T> {
    if sq.len() <= m {
        sq
    } else {
        sq.take(m)
    }
}

/// The occurrence recorded for one packed (or dropped) primitive.
pub open spec fn make_source(
    prim: Primitive,
    material: Material,
    transform: Transform,
    negative: bool,
) -> PrimSource {
    PrimSource { prim, material, transform, negative }
}

/// Running state of one packing traversal: the flat arrays, the per-kind
/// drop counts, and (as ghost history) the full per-kind traversal
/// sequences, of which the arrays hold the capacity-capped prefix.
pub struct PackState {
    pub planes: Vec<PackedPlane>,
    pub spheres: Vec<PackedSphere>,
    pub cubes: Vec<PackedCube>,
    pub images: Vec<PackedImage>,
    pub dropped_planes: usize,
    pub dropped_spheres: usize,
    pub dropped_cubes: usize,
    pub dropped_images: usize,
    pub trail_planes: Ghost<Seq<PrimSource>>,
    pub trail_spheres: Ghost<Seq<PrimSource>>,
    pub trail_cubes: Ghost<Seq<PrimSource>>,
    pub trail_images: Ghost<Seq<PrimSource>>,
}

impl PackState {
    /// Each array holds the instances of its kind's traversal prefix up to
    /// capacity; each drop count is the number of occurrences beyond it
    /// (saturating at the machine limit).
    pub open spec fn wf(self) -> bool {
        &&& self.planes@ == planes_of(capped(self.trail_planes@, MAX_PLANES as int))
        &&& self.planes@.len() == clip(self.trail_planes@.len() as int, MAX_PLANES as int)
        &&& self.dropped_planes as int == clip(
            self.trail_planes@.len() - self.planes@.len(),
            usize::MAX as int,
        )
        &&& self.spheres@ == spheres_of(capped(self.trail_spheres@, MAX_SPHERES as int))
        &&& self.spheres@.len() == clip(self.trail_spheres@.len() as int, MAX_SPHERES as int)
        &&& self.dropped_spheres as int == clip(
            self.trail_spheres@.len() - self.spheres@.len(),
            usize::MAX as int,
        )
        &&& self.cubes@ == cubes_of(capped(self.trail_cubes@, MAX_CUBES as int))
        &&& self.cubes@.len() == clip(self.trail_cubes@.len() as int, MAX_CUBES as int)
        &&& self.dropped_cubes as int == clip(
            self.trail_cubes@.len() - self.cubes@.len(),
            usize::MAX as int,
        )
        &&& self.images@ == images_of(capped(self.trail_images@, MAX_IMAGES as int))
        &&& self.images@.len() == clip(self.trail_images@.len() as int, MAX_IMAGES as int)
        &&& self.dropped_images as int == clip(
            self.trail_images@.len() - self.images@.len(),
            usize::MAX as int,
        )
    }

    /// The traversal counters: how many occurrences of each kind have been
    /// seen, stored or dropped.
    pub open spec fn counts(self) -> Counts {
        Counts {
            plane: self.trail_planes@.len() as int,
            sphere: self.trail_spheres@.len() as int,
            cube: self.trail_cubes@.len() as int,
            image: self.trail_images@.len() as int,
        }
    }

    /// An empty packing state.
    pub fn new() -> (st: Self)
        ensures
            st.wf(),
            st.trail_planes@ == Seq::<PrimSource>::empty(),
            st.trail_spheres@ == Seq::<PrimSource>::empty(),
            st.trail_cubes@ == Seq::<PrimSource>::empty(),
            st.trail_images@ == Seq::<PrimSource>::empty(),
    {
        let st = PackState {
            planes: Vec::new(),
            spheres: Vec::new(),
            cubes: Vec::new(),
            images: Vec::new(),
            dropped_planes: 0,
            dropped_spheres: 0,
            dropped_cubes: 0,
            dropped_images: 0,
            trail_planes: Ghost(Seq::empty()),
            trail_spheres: Ghost(Seq::empty()),
            trail_cubes: Ghost(Seq::empty()),
            trail_images: Ghost(Seq::empty()),
        };
        proof {
            assert(planes_of(capped(st.trail_planes@, MAX_PLANES as int)) =~= Seq::empty());
            assert(spheres_of(capped(st.trail_spheres@, MAX_SPHERES as int)) =~= Seq::empty());
            assert(cubes_of(capped(st.trail_cubes@, MAX_CUBES as int)) =~= Seq::empty());
            assert(images_of(capped(st.trail_images@, MAX_IMAGES as int)) =~= Seq::empty());
        }
        st
    }
}

/// Appends one primitive occurrence to its kind's flat array, or counts it
/// as dropped when that array is full.  The subtraction sign of `negative`
/// is folded into the stored scale factor.
pub fn add_primitive(
    st: &mut PackState,
    prim: &Primitive,
    material: &Material,
    transform: &Transform,
    negative: bool,
)
    requires
        old(st).wf(),
    ensures
        final(st).wf(),
        final(st).trail_planes@ == if kind_of(*prim) == PrimKind::Plane {
            old(st).trail_planes@.push(make_source(*prim, *material, *transform, negative))
        } else {
            old(st).trail_planes@
        },
        final(st).trail_spheres@ == if kind_of(*prim) == PrimKind::Sphere {
            old(st).trail_spheres@.push(make_source(*prim, *material, *transform, negative))
        } else {
            old(st).trail_spheres@
        },
        final(st).trail_cubes@ == if kind_of(*prim) == PrimKind::Cube {
            old(st).trail_cubes@.push(make_source(*prim, *material, *transform, negative))
        } else {
            old(st).trail_cubes@
        },
        final(st).trail_images@ == if kind_of(*prim) == PrimKind::Image {
            old(st).trail_images@.push(make_source(*prim, *material, *transform, negative))
        } else {
            old(st).trail_images@
        },
{
    let ghost src = make_source(*prim, *material, *transform, negative);
    match prim {
        Primitive::Plane => {
            if st.planes.len() < MAX_PLANES as usize {
                st.planes.push(
                    PackedPlane {
                        inv_bits: transform.inv_bits,
                        scale_bits: crate::shape::apply_negative(transform.scale_bits, negative),
                        material: *material,
                    },
                );
            } else if st.dropped_planes < usize::MAX {
                st.dropped_planes = st.dropped_planes + 1;
            }
            proof {
                let t0 = old(st).trail_planes@;
                if t0.len() < MAX_PLANES as int {
                    assert(planes_of(capped(t0.push(src), MAX_PLANES as int)) =~= planes_of(
                        capped(t0, MAX_PLANES as int),
                    ).push(plane_of(src)));
                } else {
                    assert(capped(t0.push(src), MAX_PLANES as int) =~= capped(
                        t0,
                        MAX_PLANES as int,
                    ));
                }
            }
            st.trail_planes = Ghost(st.trail_planes@.push(src));
        }
        Primitive::Sphere { radius_bits } => {
            if st.spheres.len() < MAX_SPHERES as usize {
                st.spheres.push(
                    PackedSphere {
                        radius_bits: *radius_bits,
                        inv_bits: transform.inv_bits,
                        scale_bits: crate::shape::apply_negative(transform.scale_bits, negative),
                        material: *material,
                    },
                );
            } else if st.dropped_spheres < usize::MAX {
                st.dropped_spheres = st.dropped_spheres + 1;
            }
            proof {
                let t0 = old(st).trail_spheres@;
                if t0.len() < MAX_SPHERES as int {
                    assert(spheres_of(capped(t0.push(src), MAX_SPHERES as int)) =~= spheres_of(
                        capped(t0, MAX_SPHERES as int),
                    ).push(sphere_of(src)));
                } else {
                    assert(capped(t0.push(src), MAX_SPHERES as int) =~= capped(
                        t0,
                        MAX_SPHERES as int,
                    ));
                }
            }
            st.trail_spheres = Ghost(st.trail_spheres@.push(src));
        }
        Primitive::Cube { bounds_bits } => {
            if st.cubes.len() < MAX_CUBES as usize {
                st.cubes.push(
                    PackedCube {
                        bounds_bits: *bounds_bits,
                        inv_bits: transform.inv_bits,
                        scale_bits: crate::shape::apply_negative(transform.scale_bits, negative),
                        material: *material,
                    },
                );
            } else if st.dropped_cubes < usize::MAX {
                st.dropped_cubes = st.dropped_cubes + 1;
            }
            proof {
                let t0 = old(st).trail_cubes@;
                if t0.len() < MAX_CUBES as int {
                    assert(cubes_of(capped(t0.push(src), MAX_CUBES as int)) =~= cubes_of(
                        capped(t0, MAX_CUBES as int),
                    ).push(cube_of(src)));
                } else {
                    assert(capped(t0.push(src), MAX_CUBES as int) =~= capped(
                        t0,
                        MAX_CUBES as int,
                    ));
                }
            }
            st.trail_cubes = Ghost(st.trail_cubes@.push(src));
        }
        Primitive::Image { image } => {
            if st.images.len() < MAX_IMAGES as usize {
                st.images.push(
                    PackedImage {
                        image: *image,
                        inv_bits: transform.inv_bits,
                        scale_bits: crate::shape::apply_negative(transform.scale_bits, negative),
                        material: *material,
                    },
                );
            } else if st.dropped_images < usize::MAX {
                st.dropped_images = st.dropped_images + 1;
            }
            proof {
                let t0 = old(st).trail_images@;
                if t0.len() < MAX_IMAGES as int {
                    assert(images_of(capped(t0.push(src), MAX_IMAGES as int)) =~= images_of(
                        capped(t0, MAX_IMAGES as int),
                    ).push(image_of(src)));
                } else {
                    assert(capped(t0.push(src), MAX_IMAGES as int) =~= capped(
                        t0,
                        MAX_IMAGES as int,
                    ));
                }
            }
            st.trail_images = Ghost(st.trail_images@.push(src));
        }
    }
}

/// Entries of a child list stay within the arena and past the parent.
pub proof fn lemma_child_list_bounds(s: Scene, i: int)
    requires
        s.wf(),
        -1 <= i < s.nodes@.len(),
    ensures
        forall|j: int|
            0 <= j < child_list(s, i).len() ==> i < (#[trigger] child_list(s, i)[j])
                < s.nodes@.len(),
{
    if i >= 0 {
        assert(node_children_wf(s, i));
    }
}

/// Entries of a group-member list are entries of the child list.
pub proof fn lemma_group_list_entries(s: Scene, cs: Seq<usize>, n: int, lo: int)
    requires
        forall|j: int| 0 <= j < cs.len() ==> lo < (#[trigger] cs[j]) < s.nodes@.len(),
        n <= cs.len(),
    ensures
        forall|j: int|
            0 <= j < group_list_prefix(s, cs, n).len() ==> lo < (#[trigger] group_list_prefix(
                s,
                cs,
                n,
            )[j]) < s.nodes@.len(),
    decreases n,
{
    if n > 0 {
        lemma_group_list_entries(s, cs, n - 1, lo);
        let rest = group_list_prefix(s, cs, n - 1);
        let cur = group_list_prefix(s, cs, n);
        assert forall|j: int| 0 <= j < cur.len() implies lo < (#[trigger] cur[j])
            < s.nodes@.len() by {
            if is_group_node(s, cs[n - 1] as int) {
                if j < rest.len() {
                    assert(cur[j] == rest[j]);
                } else {
                    assert(cur[j] == cs[n - 1]);
                }
            } else {
                assert(cur[j] == rest[j]);
            }
        }
    }
}

/// Entries of a group-member list are group nodes.
pub proof fn lemma_group_list_are_groups(s: Scene, cs: Seq<usize>, n: int)
    requires
        n <= cs.len(),
    ensures
        forall|j: int|
            0 <= j < group_list_prefix(s, cs, n).len() ==> is_group_node(
                s,
                (#[trigger] group_list_prefix(s, cs, n)[j]) as int,
            ),
    decreases n,
{
    if n > 0 {
        lemma_group_list_are_groups(s, cs, n - 1);
        let rest = group_list_prefix(s, cs, n - 1);
        let cur = group_list_prefix(s, cs, n);
        assert forall|j: int| 0 <= j < cur.len() implies is_group_node(
            s,
            (#[trigger] cur[j]) as int,
        ) by {
            if is_group_node(s, cs[n - 1] as int) {
                if j < rest.len() {
                    assert(cur[j] == rest[j]);
                } else {
                    assert(cur[j] == cs[n - 1]);
                }
            } else {
                assert(cur[j] == rest[j]);
            }
        }
    }
}

/// Running the counters over a group run adds exactly the lengths of the
/// concatenated subtree traversals.
pub proof fn lemma_run_counts(s: Scene, lo: int, gs: Seq<usize>, n: int, c: Counts)
    requires
        s.wf(),
        -1 <= lo < s.nodes@.len(),
        n <= gs.len(),
        forall|j: int| 0 <= j < gs.len() ==> lo < (#[trigger] gs[j]) < s.nodes@.len(),
    ensures
        add_group_run(c, s, gs, n).plane == c.plane + groups_prims(
            s,
            lo,
            gs,
            n,
            PrimKind::Plane,
        ).len(),
        add_group_run(c, s, gs, n).sphere == c.sphere + groups_prims(
            s,
            lo,
            gs,
            n,
            PrimKind::Sphere,
        ).len(),
        add_group_run(c, s, gs, n).cube == c.cube + groups_prims(
            s,
            lo,
            gs,
            n,
            PrimKind::Cube,
        ).len(),
        add_group_run(c, s, gs, n).image == c.image + groups_prims(
            s,
            lo,
            gs,
            n,
            PrimKind::Image,
        ).len(),
    decreases n,
{
    if n > 0 {
        lemma_run_counts(s, lo, gs, n - 1, c);
    }
}

/// A per-group forall over a child run gives the chained `children_match`.
pub proof fn lemma_children_match_intro(
    s: Scene,
    lo: int,
    cg: Seq<ShapeGroup>,
    gs: Seq<usize>,
    n: int,
    base: Counts,
)
    requires
        s.wf(),
        -1 <= lo < s.nodes@.len(),
        n <= gs.len(),
        forall|j: int| 0 <= j < gs.len() ==> lo < (#[trigger] gs[j]) < s.nodes@.len(),
        forall|x: int|
            0 <= x < n ==> group_matches(
                s,
                #[trigger] cg[x],
                gs[x] as int,
                add_group_run(base, s, gs, x),
            ),
    ensures
        children_match(s, lo, cg, gs, n, base),
    decreases n,
{
    if n > 0 {
        lemma_children_match_intro(s, lo, cg, gs, n - 1, base);
    }
}

/// The node index compiled by `create_group`: the node itself, or the
/// implicit root.
pub open spec fn node_idx(node: Option<usize>) -> int {
    match node {
        Some(i) => i as int,
        None => -1,
    }
}

/// Compiles the group rooted at `node` (`None` for the implicit root, whose
/// members are the scene's root nodes), appending the subtree's primitives
/// to the flat arrays in traversal order: the group's own members first,
/// then each child group's subtree in child order.
pub fn create_group(
    scene: &Scene,
    node: Option<usize>,
    children: &Vec<usize>,
    st: &mut PackState,
) -> (g: ShapeGroup)
    requires
        scene.wf(),
        old(st).wf(),
        node matches Some(i) ==> i < scene.nodes@.len(),
        children@ == child_list(*scene, node_idx(node)),
    ensures
        final(st).wf(),
        final(st).trail_planes@ == old(st).trail_planes@ + subtree_prims(
            *scene,
            node_idx(node),
            PrimKind::Plane,
        ),
        final(st).trail_spheres@ == old(st).trail_spheres@ + subtree_prims(
            *scene,
            node_idx(node),
            PrimKind::Sphere,
        ),
        final(st).trail_cubes@ == old(st).trail_cubes@ + subtree_prims(
            *scene,
            node_idx(node),
            PrimKind::Cube,
        ),
        final(st).trail_images@ == old(st).trail_images@ + subtree_prims(
            *scene,
            node_idx(node),
            PrimKind::Image,
        ),
        group_matches(*scene, g, node_idx(node), old(st).counts()),
    decreases scene.nodes@.len() - node_idx(node),
{
    let ghost ni: int = node_idx(node);
    let ghost base: Counts = old(st).counts();
    let ghost tp0 = st.trail_planes@;
    let ghost ts0 = st.trail_spheres@;
    let ghost tc0 = st.trail_cubes@;
    let ghost ti0 = st.trail_images@;

    // record the range starts: the clipped counters before the own members
    let plane_start: u8 = st.planes.len() as u8;
    let sphere_start: u8 = st.spheres.len() as u8;
    let cube_start: u8 = st.cubes.len() as u8;
    let image_start: u8 = st.images.len() as u8;

    // the group's own primitive, if it carries one; its subtraction sign is
    // not applied here, the group's negation governs the combine instead
    let (operation, negative) = match node {
        None => (Operation::Union, false),
        Some(i) => {
            let sh = &scene.nodes[i];
            match &sh.shape_type {
                ShapeType::Primitive(p, m) => {
                    add_primitive(st, p, m, &sh.transform, false);
                    (Operation::Union, sh.negative)
                }
                ShapeType::Compound(op) => (*op, sh.negative),
            }
        }
    };
    let ghost tp1 = st.trail_planes@;
    let ghost ts1 = st.trail_spheres@;
    let ghost tc1 = st.trail_cubes@;
    let ghost ti1 = st.trail_images@;
    proof {
        assert(tp1 == tp0 + self_part(*scene, ni, PrimKind::Plane)) by {
            assert(tp0 + self_part(*scene, ni, PrimKind::Plane) =~= tp1);
        }
        assert(ts1 == ts0 + self_part(*scene, ni, PrimKind::Sphere)) by {
            assert(ts0 + self_part(*scene, ni, PrimKind::Sphere) =~= ts1);
        }
        assert(tc1 == tc0 + self_part(*scene, ni, PrimKind::Cube)) by {
            assert(tc0 + self_part(*scene, ni, PrimKind::Cube) =~= tc1);
        }
        assert(ti1 == ti0 + self_part(*scene, ni, PrimKind::Image)) by {
            assert(ti0 + self_part(*scene, ni, PrimKind::Image) =~= ti1);
        }
        lemma_child_list_bounds(*scene, ni);
    }

    // pack the childless members, collect the child groups
    let mut group_nodes: Vec<usize> = Vec::new();
    let mut j: usize = 0;
    while j < children.len()
        invariant
            scene.wf(),
            st.wf(),
            j <= children@.len(),
            children@ == child_list(*scene, ni),
            -1 <= ni < scene.nodes@.len(),
            forall|x: int|
                0 <= x < children@.len() ==> ni < (#[trigger] children@[x]) < scene.nodes@.len(),
            st.trail_planes@ == tp1 + leaf_prims_prefix(
                *scene,
                children@,
                j as int,
                PrimKind::Plane,
            ),
            st.trail_spheres@ == ts1 + leaf_prims_prefix(
                *scene,
                children@,
                j as int,
                PrimKind::Sphere,
            ),
            st.trail_cubes@ == tc1 + leaf_prims_prefix(*scene, children@, j as int, PrimKind::Cube),
            st.trail_images@ == ti1 + leaf_prims_prefix(
                *scene,
                children@,
                j as int,
                PrimKind::Image,
            ),
            group_nodes@ == group_list_prefix(*scene, children@, j as int),
        decreases children@.len() - j,
    {
        let c = children[j];
        let sh = &scene.nodes[c];
        let ghost tp_in = st.trail_planes@;
        let ghost ts_in = st.trail_spheres@;
        let ghost tc_in = st.trail_cubes@;
        let ghost ti_in = st.trail_images@;
        match &sh.children {
            Option::Some(_) => {
                group_nodes.push(c);
            }
            Option::None => {
                match &sh.shape_type {
                    ShapeType::Primitive(p, m) => {
                        add_primitive(st, p, m, &sh.transform, sh.negative);
                    }
                    ShapeType::Compound(_) => {}
                }
            }
        }
        proof {
            assert(st.trail_planes@ =~= tp1 + leaf_prims_prefix(
                *scene,
                children@,
                j + 1,
                PrimKind::Plane,
            ));
            assert(st.trail_spheres@ =~= ts1 + leaf_prims_prefix(
                *scene,
                children@,
                j + 1,
                PrimKind::Sphere,
            ));
            assert(st.trail_cubes@ =~= tc1 + leaf_prims_prefix(
                *scene,
                children@,
                j + 1,
                PrimKind::Cube,
            ));
            assert(st.trail_images@ =~= ti1 + leaf_prims_prefix(
                *scene,
                children@,
                j + 1,
                PrimKind::Image,
            ));
        }
        j = j + 1;
    }

    // record the range ends: the clipped counters after the own members
    let plane_end: u8 = st.planes.len() as u8;
    let sphere_end: u8 = st.spheres.len() as u8;
    let cube_end: u8 = st.cubes.len() as u8;
    let image_end: u8 = st.images.len() as u8;

    let ghost gs = group_children_of(*scene, ni);
    let ghost mid: Counts = st.counts();
    let ghost tp2 = st.trail_planes@;
    let ghost ts2 = st.trail_spheres@;
    let ghost tc2 = st.trail_cubes@;
    let ghost ti2 = st.trail_images@;
    proof {
        lemma_group_list_entries(*scene, children@, children@.len() as int, ni);
        lemma_group_list_are_groups(*scene, children@, children@.len() as int);
        assert(tp2 =~= tp0 + own_prims(*scene, ni, PrimKind::Plane));
        assert(ts2 =~= ts0 + own_prims(*scene, ni, PrimKind::Sphere));
        assert(tc2 =~= tc0 + own_prims(*scene, ni, PrimKind::Cube));
        assert(ti2 =~= ti0 + own_prims(*scene, ni, PrimKind::Image));
        assert(mid == add_own(base, *scene, ni));
    }

    // compile the child groups; each continues where the previous subtree
    // ended
    let mut child_groups: Vec<ShapeGroup> = Vec::new();
    let mut j2: usize = 0;
    while j2 < group_nodes.len()
        invariant
            scene.wf(),
            st.wf(),
            j2 <= group_nodes@.len(),
            group_nodes@ == gs,
            gs == group_children_of(*scene, ni),
            ni == node_idx(node),
            -1 <= ni < scene.nodes@.len(),
            forall|x: int| 0 <= x < gs.len() ==> ni < (#[trigger] gs[x]) < scene.nodes@.len(),
            forall|x: int|
                0 <= x < gs.len() ==> is_group_node(*scene, (#[trigger] gs[x]) as int),
            st.trail_planes@ == tp2 + groups_prims(*scene, ni, gs, j2 as int, PrimKind::Plane),
            st.trail_spheres@ == ts2 + groups_prims(*scene, ni, gs, j2 as int, PrimKind::Sphere),
            st.trail_cubes@ == tc2 + groups_prims(*scene, ni, gs, j2 as int, PrimKind::Cube),
            st.trail_images@ == ti2 + groups_prims(*scene, ni, gs, j2 as int, PrimKind::Image),
            tp2 == tp0 + own_prims(*scene, ni, PrimKind::Plane),
            ts2 == ts0 + own_prims(*scene, ni, PrimKind::Sphere),
            tc2 == tc0 + own_prims(*scene, ni, PrimKind::Cube),
            ti2 == ti0 + own_prims(*scene, ni, PrimKind::Image),
            mid == add_own(base, *scene, ni),
            base == (Counts {
                plane: tp0.len() as int,
                sphere: ts0.len() as int,
                cube: tc0.len() as int,
                image: ti0.len() as int,
            }),
            child_groups@.len() == j2,
            forall|x: int|
                0 <= x < j2 ==> group_matches(
                    *scene,
                    #[trigger] child_groups@[x],
                    gs[x] as int,
                    add_group_run(mid, *scene, gs, x),
                ),
        decreases group_nodes@.len() - j2,
    {
        let c = group_nodes[j2];
        let sh = &scene.nodes[c];
        let cl: &Vec<usize> = match &sh.children {
            Option::Some(v) => v,
            Option::None => vstd::pervasive::unreached(),
        };
        proof {
            lemma_run_counts(*scene, ni, gs, j2 as int, mid);
            assert(st.counts() == add_group_run(mid, *scene, gs, j2 as int));
            assert(gs[j2 as int] == c);
            assert(ni < (c as int) && (c as int) < scene.nodes@.len());
        }
        let cg = create_group(scene, Some(c), cl, st);
        child_groups.push(cg);
        proof {
            assert(st.trail_planes@ =~= tp2 + groups_prims(
                *scene,
                ni,
                gs,
                j2 + 1,
                PrimKind::Plane,
            ));
            assert(st.trail_spheres@ =~= ts2 + groups_prims(
                *scene,
                ni,
                gs,
                j2 + 1,
                PrimKind::Sphere,
            ));
            assert(st.trail_cubes@ =~= tc2 + groups_prims(*scene, ni, gs, j2 + 1, PrimKind::Cube));
            assert(st.trail_images@ =~= ti2 + groups_prims(
                *scene,
                ni,
                gs,
                j2 + 1,
                PrimKind::Image,
            ));
        }
        j2 = j2 + 1;
    }

    let g = ShapeGroup {
        plane_index_range: IndexRange { start: plane_start, end: plane_end },
        sphere_index_range: IndexRange { start: sphere_start, end: sphere_end },
        cube_index_range: IndexRange { start: cube_start, end: cube_end },
        image_index_range: IndexRange { start: image_start, end: image_end },
        children: child_groups,
        operation,
        negative,
    };
    proof {
        lemma_children_match_intro(
            *scene,
            ni,
            g.children@,
            gs,
            gs.len() as int,
            add_own(base, *scene, ni),
        );
        assert(st.trail_planes@ =~= tp0 + subtree_prims(*scene, ni, PrimKind::Plane));
        assert(st.trail_spheres@ =~= ts0 + subtree_prims(*scene, ni, PrimKind::Sphere));
        assert(st.trail_cubes@ =~= tc0 + subtree_prims(*scene, ni, PrimKind::Cube));
        assert(st.trail_images@ =~= ti0 + subtree_prims(*scene, ni, PrimKind::Image));
        assert(group_matches(*scene, g, ni, base));
    }
    g
}

/// Result of packing one scene snapshot: the four flat arrays holding the
/// capacity-capped traversal prefix of each kind, the per-kind counts of
/// dropped occurrences, and the compiled root group.
pub struct PackedShapes {
    pub planes: Vec<PackedPlane>,
    pub spheres: Vec<PackedSphere>,
    pub cubes: Vec<PackedCube>,
    pub images: Vec<PackedImage>,
    pub dropped_planes: usize,
    pub dropped_spheres: usize,
    pub dropped_cubes: usize,
    pub dropped_images: usize,
    pub root: ShapeGroup,
}

/// Flattens a scene snapshot: packs every primitive of the tree, in
/// traversal order, into its kind's flat array until that array is full
/// (later occurrences are dropped and counted), and compiles the index-range
/// group tree rooted at the implicit root union.  A scene with no roots
/// yields empty arrays and an empty root group.
pub fn pack_scene(scene: &Scene) -> (out: PackedShapes)
    requires
        scene.wf(),
    ensures
        out.planes@ == planes_of(
            capped(subtree_prims(*scene, -1, PrimKind::Plane), MAX_PLANES as int),
        ),
        out.spheres@ == spheres_of(
            capped(subtree_prims(*scene, -1, PrimKind::Sphere), MAX_SPHERES as int),
        ),
        out.cubes@ == cubes_of(
            capped(subtree_prims(*scene, -1, PrimKind::Cube), MAX_CUBES as int),
        ),
        out.images@ == images_of(
            capped(subtree_prims(*scene, -1, PrimKind::Image), MAX_IMAGES as int),
        ),
        out.planes@.len() == clip(subtree_count(*scene, -1, PrimKind::Plane), MAX_PLANES as int),
        out.spheres@.len() == clip(
            subtree_count(*scene, -1, PrimKind::Sphere),
            MAX_SPHERES as int,
        ),
        out.cubes@.len() == clip(subtree_count(*scene, -1, PrimKind::Cube), MAX_CUBES as int),
        out.images@.len() == clip(subtree_count(*scene, -1, PrimKind::Image), MAX_IMAGES as int),
        out.dropped_planes as int == clip(
            subtree_count(*scene, -1, PrimKind::Plane) - out.planes@.len(),
            usize::MAX as int,
        ),
        out.dropped_spheres as int == clip(
            subtree_count(*scene, -1, PrimKind::Sphere) - out.spheres@.len(),
            usize::MAX as int,
        ),
        out.dropped_cubes as int == clip(
            subtree_count(*scene, -1, PrimKind::Cube) - out.cubes@.len(),
            usize::MAX as int,
        ),
        out.dropped_images as int == clip(
            subtree_count(*scene, -1, PrimKind::Image) - out.images@.len(),
            usize::MAX as int,
        ),
        group_matches(*scene, out.root, -1, zero_counts()),
{
    let mut st = PackState::new();
    let root = create_group(scene, None, &scene.roots, &mut st);
    proof {
        assert(st.trail_planes@ =~= subtree_prims(*scene, -1, PrimKind::Plane));
        assert(st.trail_spheres@ =~= subtree_prims(*scene, -1, PrimKind::Sphere));
        assert(st.trail_cubes@ =~= subtree_prims(*scene, -1, PrimKind::Cube));
        assert(st.trail_images@ =~= subtree_prims(*scene, -1, PrimKind::Image));
    }
    let PackState {
        planes,
        spheres,
        cubes,
        images,
        dropped_planes,
        dropped_spheres,
        dropped_cubes,
        dropped_images,
        ..
    } = st;
    PackedShapes {
        planes,
        spheres,
        cubes,
        images,
        dropped_planes,
        dropped_spheres,
        dropped_cubes,
        dropped_images,
        root,
    }
}

/// The group's own primitive occurrence of kind `k`, as a sequence.
pub open spec fn self_part(s: Scene, i: int, k: PrimKind) -> Seq<PrimSource> {
    if has_self_prim(s, i, k) {
        seq![self_source(s, i)]
    } else {
        Seq::empty()
    }
}


} // verus!
