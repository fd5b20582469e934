//! Laws of the shape packer: the per-kind index ranges of a compiled group
//! tree tile the packed arrays in pre-order with no overlaps and no gaps, a
//! group's own range precedes its descendants' ranges, and the compiled
//! tree is a deterministic function of the scene's topology alone.

use vstd::prelude::*;
use crate::shape::{kind_of, PrimKind, Scene, Shape, ShapeType};
use crate::eval::{children_in_bounds, group_in_bounds};
use crate::pack::{
    add_group_run, add_own, child_list, children_match, clip, count_at, group_children_of,
    group_matches, group_run, groups_run, lemma_child_list_bounds, lemma_group_list_entries,
    lemma_run_counts, max_of, own_count, range_of, subtree_count, zero_counts, Counts, IndexRange,
    ShapeGroup,
};

verus! {

/// The counters after a group's own members equal the counters before,
/// plus the group's own count, for each kind.
proof fn lemma_add_own_at(base: Counts, s: Scene, i: int, k: PrimKind)
    ensures
        count_at(add_own(base, s, i), k) == count_at(base, k) + own_count(s, i, k),
{
}

/// Chain law for the pre-order run of one compiled group: the first range
/// starts at the (clipped) base counter, consecutive ranges meet exactly,
/// every range is well formed, and the last range ends at the (clipped)
/// counter after the whole subtree.
pub proof fn lemma_group_chain(s: Scene, g: ShapeGroup, i: int, base: Counts, k: PrimKind)
    requires
        s.wf(),
        -1 <= i < s.nodes@.len(),
        group_matches(s, g, i, base),
    ensures
        group_run(g).len() >= 1,
        group_run(g)[0] == g,
        range_of(g, k).start as int == clip(count_at(base, k), max_of(k)),
        range_of(group_run(g).last(), k).end as int == clip(
            count_at(base, k) + subtree_count(s, i, k),
            max_of(k),
        ),
        forall|x: int|
            0 <= x < group_run(g).len() ==> (#[trigger] range_of(group_run(g)[x], k)).start
                <= range_of(group_run(g)[x], k).end,
        forall|x: int|
            0 <= x && x + 1 < group_run(g).len() ==> (#[trigger] range_of(group_run(g)[x], k)).end
                == range_of(group_run(g)[x + 1], k).start,
    decreases s.nodes@.len() - i, 1int, 0int,
{
    lemma_child_list_bounds(s, i);
    lemma_group_list_entries(s, child_list(s, i), child_list(s, i).len() as int, i);
    let gs = group_children_of(s, i);
    let mid = add_own(base, s, i);
    lemma_add_own_at(base, s, i, k);
    lemma_children_chain(s, i, g.children@, gs, gs.len() as int, mid, k);
    let crun = groups_run(g.children@, g.children@.len() as int);
    let run = group_run(g);
    assert(run == seq![g] + crun);
    assert((seq![g] + crun)[0] == g);
    assert(run[0] == g);
    lemma_run_counts(s, i, gs, gs.len() as int, mid);
    if gs.len() == 0 {
        assert(run.len() == 1);
        assert(subtree_count(s, i, k) == own_count(s, i, k));
    } else {
        assert(crun.len() >= 1);
        assert(range_of(crun[0], k).start as int == clip(count_at(mid, k), max_of(k)));
        assert(range_of(g, k).end as int == clip(count_at(mid, k), max_of(k)));
        assert((seq![g] + crun)[run.len() - 1] == crun[crun.len() - 1]);
        assert(run.last() == crun.last());
        assert(count_at(add_group_run(mid, s, gs, gs.len() as int), k) == count_at(base, k)
            + subtree_count(s, i, k));
    }
    assert forall|x: int| 0 <= x < run.len() implies (#[trigger] range_of(run[x], k)).start
        <= range_of(run[x], k).end by {
        if x >= 1 {
            assert((seq![g] + crun)[x] == crun[x - 1]);
            assert(run[x] == crun[x - 1]);
        }
    }
    assert forall|x: int| 0 <= x && x + 1 < run.len() implies (#[trigger] range_of(run[x], k)).end
        == range_of(run[x + 1], k).start by {
        if x == 0 {
            assert((seq![g] + crun)[1] == crun[0]);
            assert(run[1] == crun[0]);
        } else {
            assert((seq![g] + crun)[x] == crun[x - 1]);
            assert((seq![g] + crun)[x + 1] == crun[x]);
            assert(run[x] == crun[x - 1]);
            assert(run[x + 1] == crun[x]);
        }
    }
}

/// Chain law for the concatenated pre-order runs of a child-group prefix.
proof fn lemma_children_chain(
    s: Scene,
    lo: int,
    cg: Seq<ShapeGroup>,
    gs: Seq<usize>,
    n: int,
    base: Counts,
    k: PrimKind,
)
    requires
        s.wf(),
        -1 <= lo < s.nodes@.len(),
        0 <= n <= gs.len(),
        n <= cg.len(),
        forall|j: int| 0 <= j < gs.len() ==> lo < (#[trigger] gs[j]) < s.nodes@.len(),
        children_match(s, lo, cg, gs, n, base),
    ensures
        n == 0 ==> groups_run(cg, n).len() == 0,
        n > 0 ==> groups_run(cg, n).len() >= 1,
        n > 0 ==> range_of(groups_run(cg, n)[0], k).start as int == clip(
            count_at(base, k),
            max_of(k),
        ),
        n > 0 ==> range_of(groups_run(cg, n).last(), k).end as int == clip(
            count_at(add_group_run(base, s, gs, n), k),
            max_of(k),
        ),
        forall|x: int|
            0 <= x < groups_run(cg, n).len() ==> (#[trigger] range_of(
                groups_run(cg, n)[x],
                k,
            )).start <= range_of(groups_run(cg, n)[x], k).end,
        forall|x: int|
            0 <= x && x + 1 < groups_run(cg, n).len() ==> (#[trigger] range_of(
                groups_run(cg, n)[x],
                k,
            )).end == range_of(groups_run(cg, n)[x + 1], k).start,
    decreases s.nodes@.len() - lo, 0int, n,
{
    if n > 0 {
        lemma_children_chain(s, lo, cg, gs, n - 1, base, k);
        let base1 = add_group_run(base, s, gs, n - 1);
        lemma_group_chain(s, cg[n - 1], gs[n - 1] as int, base1, k);
        let head = groups_run(cg, n - 1);
        let tail = group_run(cg[n - 1]);
        let run = groups_run(cg, n);
        assert(run == head + tail);
        assert(tail.len() >= 1);
        if n == 1 {
            assert(head.len() == 0);
            assert(run =~= tail);
        }
        if head.len() > 0 {
            assert((head + tail)[0] == head[0]);
            assert(run[0] == head[0]);
        } else {
            assert((head + tail)[0] == tail[0]);
            assert(run[0] == tail[0]);
        }
        assert((head + tail)[run.len() - 1] == tail[tail.len() - 1]);
        assert(run.last() == tail.last());
        assert(range_of(tail.last(), k).end as int == clip(
            count_at(base1, k) + subtree_count(s, gs[n - 1] as int, k),
            max_of(k),
        ));
        assert(count_at(add_group_run(base, s, gs, n), k) == count_at(base1, k) + subtree_count(
            s,
            gs[n - 1] as int,
            k,
        ));
        assert forall|x: int| 0 <= x < run.len() implies (#[trigger] range_of(run[x], k)).start
            <= range_of(run[x], k).end by {
            if x < head.len() {
                assert((head + tail)[x] == head[x]);
                assert(run[x] == head[x]);
            } else {
                assert((head + tail)[x] == tail[x - head.len()]);
                assert(run[x] == tail[x - head.len()]);
            }
        }
        assert forall|x: int| 0 <= x && x + 1 < run.len() implies (#[trigger] range_of(run[x], k)).end
            == range_of(run[x + 1], k).start by {
            if x + 1 < head.len() {
                assert((head + tail)[x] == head[x]);
                assert((head + tail)[x + 1] == head[x + 1]);
            } else if x + 1 == head.len() {
                assert((head + tail)[x] == head[x]);
                assert((head + tail)[x + 1] == tail[0]);
                assert(range_of(head.last(), k).end as int == clip(
                    count_at(base1, k),
                    max_of(k),
                ));
            } else {
                assert((head + tail)[x] == tail[x - head.len()]);
                assert((head + tail)[x + 1] == tail[x + 1 - head.len()]);
            }
        }
    }
}

/// In a chained run, every earlier range ends before (or where) any later
/// range starts: the ranges are mutually disjoint.
pub proof fn lemma_ranges_ordered(run: Seq<ShapeGroup>, k: PrimKind)
    requires
        forall|x: int|
            0 <= x < run.len() ==> (#[trigger] range_of(run[x], k)).start <= range_of(
                run[x],
                k,
            ).end,
        forall|x: int|
            0 <= x && x + 1 < run.len() ==> (#[trigger] range_of(run[x], k)).end == range_of(
                run[x + 1],
                k,
            ).start,
    ensures
        forall|x: int, y: int|
            0 <= x < y < run.len() ==> (#[trigger] range_of(run[x], k)).end <= (
            #[trigger] range_of(run[y], k)).start,
{
    assert forall|x: int, y: int| 0 <= x < y < run.len() implies (#[trigger] range_of(
        run[x],
        k,
    )).end <= (#[trigger] range_of(run[y], k)).start by {
        lemma_ranges_ordered_step(run, k, x, y);
    }
}

proof fn lemma_ranges_ordered_step(run: Seq<ShapeGroup>, k: PrimKind, x: int, y: int)
    requires
        forall|z: int|
            0 <= z < run.len() ==> (#[trigger] range_of(run[z], k)).start <= range_of(
                run[z],
                k,
            ).end,
        forall|z: int|
            0 <= z && z + 1 < run.len() ==> (#[trigger] range_of(run[z], k)).end == range_of(
                run[z + 1],
                k,
            ).start,
        0 <= x < y < run.len(),
    ensures
        range_of(run[x], k).end <= range_of(run[y], k).start,
    decreases y - x,
{
    if x + 1 == y {
    } else {
        lemma_ranges_ordered_step(run, k, x + 1, y);
    }
}

/// Every index between the first range's start and the last range's end is
/// covered by some range of a chained run: there are no gaps.
pub proof fn lemma_ranges_cover(run: Seq<ShapeGroup>, k: PrimKind, j: int)
    requires
        run.len() >= 1,
        forall|x: int|
            0 <= x < run.len() ==> (#[trigger] range_of(run[x], k)).start <= range_of(
                run[x],
                k,
            ).end,
        forall|x: int|
            0 <= x && x + 1 < run.len() ==> (#[trigger] range_of(run[x], k)).end == range_of(
                run[x + 1],
                k,
            ).start,
        range_of(run[0], k).start <= j < range_of(run.last(), k).end,
    ensures
        exists|x: int|
            0 <= x < run.len() && (#[trigger] range_of(run[x], k)).start <= j < range_of(
                run[x],
                k,
            ).end,
    decreases run.len(),
{
    if j < range_of(run[0], k).end {
        assert(range_of(run[0], k).start <= j < range_of(run[0], k).end);
    } else {
        let rest = run.drop_first();
        assert(run.len() >= 2);
        assert(rest =~= run.subrange(1, run.len() as int));
        assert(forall|x: int|
            0 <= x < rest.len() ==> #[trigger] rest[x] == run[x + 1]);
        assert(rest.last() == run.last());
        lemma_ranges_cover(rest, k, j);
        let x = choose|x: int|
            0 <= x < rest.len() && (#[trigger] range_of(rest[x], k)).start <= j < range_of(
                rest[x],
                k,
            ).end;
        assert(range_of(run[x + 1], k).start <= j < range_of(run[x + 1], k).end);
    }
}

/// Some range of the run contains index `j`.
pub open spec fn range_covers(run: Seq<ShapeGroup>, k: PrimKind, j: int) -> bool {
    exists|x: int|
        0 <= x < run.len() && (#[trigger] range_of(run[x], k)).start <= j < range_of(
            run[x],
            k,
        ).end
}

/// Range-partition law: for a compiled tree and each primitive kind, the
/// pre-order sequence of group ranges starts at zero, consecutive ranges
/// meet exactly, earlier ranges lie entirely before later ones, the last
/// range ends at the packed count, and every packed index is covered.  The
/// ranges thus partition the packed prefix of the kind's flat array.
pub proof fn lemma_range_partition(s: Scene, root: ShapeGroup, k: PrimKind)
    requires
        s.wf(),
        group_matches(s, root, -1, crate::pack::zero_counts()),
    ensures
        group_run(root).len() >= 1,
        group_run(root)[0] == root,
        range_of(root, k).start == 0,
        range_of(group_run(root).last(), k).end as int == clip(
            subtree_count(s, -1, k),
            max_of(k),
        ),
        forall|x: int|
            0 <= x < group_run(root).len() ==> (#[trigger] range_of(group_run(root)[x], k)).start
                <= range_of(group_run(root)[x], k).end,
        forall|x: int|
            0 <= x && x + 1 < group_run(root).len() ==> (#[trigger] range_of(
                group_run(root)[x],
                k,
            )).end == range_of(group_run(root)[x + 1], k).start,
        forall|x: int, y: int|
            0 <= x < y < group_run(root).len() ==> (#[trigger] range_of(
                group_run(root)[x],
                k,
            )).end <= (#[trigger] range_of(group_run(root)[y], k)).start,
        forall|j: int|
            0 <= j < clip(subtree_count(s, -1, k), max_of(k)) ==> #[trigger] range_covers(
                group_run(root),
                k,
                j,
            ),
{
    lemma_group_chain(s, root, -1, crate::pack::zero_counts(), k);
    lemma_ranges_ordered(group_run(root), k);
    assert forall|j: int| 0 <= j < clip(subtree_count(s, -1, k), max_of(k)) implies #[trigger] range_covers(
        group_run(root),
        k,
        j,
    ) by {
        lemma_ranges_cover(group_run(root), k, j);
    }
}

/// Pre-order precedence law: a group's own range never starts after any
/// range of its descendant groups; the group's own members always come
/// first in index space.
pub proof fn lemma_preorder_precedence(s: Scene, g: ShapeGroup, i: int, base: Counts, k: PrimKind)
    requires
        s.wf(),
        -1 <= i < s.nodes@.len(),
        group_matches(s, g, i, base),
    ensures
        forall|x: int|
            1 <= x < group_run(g).len() ==> range_of(g, k).end <= (#[trigger] range_of(
                group_run(g)[x],
                k,
            )).start,
{
    lemma_group_chain(s, g, i, base, k);
    lemma_ranges_ordered(group_run(g), k);
}

/// Deep structural equality of compiled group trees: equal ranges,
/// operations and negation flags throughout, with children compared
/// pairwise in order.  This is the equality that keys the shader cache.
pub open spec fn group_like(a: ShapeGroup, b: ShapeGroup) -> bool
    decreases a, 0int,
{
    &&& a.plane_index_range == b.plane_index_range
    &&& a.sphere_index_range == b.sphere_index_range
    &&& a.cube_index_range == b.cube_index_range
    &&& a.image_index_range == b.image_index_range
    &&& a.operation == b.operation
    &&& a.negative == b.negative
    &&& a.children@.len() == b.children@.len()
    &&& children_like(a.children@, b.children@, a.children@.len() as int)
}

/// The first `n` groups of `a` and `b` are structurally equal pairwise.
pub open spec fn children_like(a: Seq<ShapeGroup>, b: Seq<ShapeGroup>, n: int) -> bool
    decreases a, n,
    when n <= a.len()
{
    n <= 0 || (children_like(a, b, n - 1) && group_like(a[n - 1], b[n - 1]))
}

/// Determinism law: two trees compiled for the same group of the same
/// scene at the same counter state are structurally equal.  Regenerating
/// the tree from an unchanged snapshot changes nothing.
pub proof fn lemma_pack_deterministic(
    s: Scene,
    g1: ShapeGroup,
    g2: ShapeGroup,
    i: int,
    base: Counts,
)
    requires
        s.wf(),
        -1 <= i < s.nodes@.len(),
        group_matches(s, g1, i, base),
        group_matches(s, g2, i, base),
    ensures
        group_like(g1, g2),
    decreases s.nodes@.len() - i, 1int, 0int,
{
    lemma_child_list_bounds(s, i);
    lemma_group_list_entries(s, child_list(s, i), child_list(s, i).len() as int, i);
    let gs = group_children_of(s, i);
    lemma_children_deterministic(
        s,
        i,
        g1.children@,
        g2.children@,
        gs,
        gs.len() as int,
        add_own(base, s, i),
    );
}

proof fn lemma_children_deterministic(
    s: Scene,
    lo: int,
    cg1: Seq<ShapeGroup>,
    cg2: Seq<ShapeGroup>,
    gs: Seq<usize>,
    n: int,
    base: Counts,
)
    requires
        s.wf(),
        -1 <= lo < s.nodes@.len(),
        0 <= n <= gs.len(),
        n <= cg1.len(),
        forall|j: int| 0 <= j < gs.len() ==> lo < (#[trigger] gs[j]) < s.nodes@.len(),
        children_match(s, lo, cg1, gs, n, base),
        children_match(s, lo, cg2, gs, n, base),
    ensures
        children_like(cg1, cg2, n),
    decreases s.nodes@.len() - lo, 0int, n,
{
    if n > 0 {
        lemma_children_deterministic(s, lo, cg1, cg2, gs, n - 1, base);
        lemma_pack_deterministic(
            s,
            cg1[n - 1],
            cg2[n - 1],
            gs[n - 1] as int,
            add_group_run(base, s, gs, n - 1),
        );
    }
}

/// Numeric-edit stability law: trees compiled from two scenes of the same
/// topology are structurally equal — editing only transforms, materials or
/// primitive parameters between frames never changes the compiled tree,
/// and therefore never invalidates its cached shader.
pub proof fn lemma_numeric_edits_keep_structure(s1: Scene, s2: Scene, g1: ShapeGroup, g2: ShapeGroup)
    requires
        s1.wf(),
        same_topology(s1, s2),
        group_matches(s1, g1, -1, zero_counts()),
        group_matches(s2, g2, -1, zero_counts()),
    ensures
        group_like(g1, g2),
{
    lemma_same_topology_wf(s1, s2);
    lemma_topology_stable(s1, s2, g1, -1, zero_counts());
    lemma_pack_deterministic(s2, g1, g2, -1, zero_counts());
}

/// Two nodes agree on everything the compiled tree depends on: negation,
/// child list, and the kind of the node's content — while the primitive's
/// parameters, material and transform may differ.
pub open spec fn same_node_topology(a: Shape, b: Shape) -> bool {
    &&& a.negative == b.negative
    &&& match (a.children, b.children) {
        (Some(ca), Some(cb)) => ca@ == cb@,
        (None, None) => true,
        _ => false,
    }
    &&& match (a.shape_type, b.shape_type) {
        (ShapeType::Primitive(pa, _), ShapeType::Primitive(pb, _)) => kind_of(pa) == kind_of(pb),
        (ShapeType::Compound(oa), ShapeType::Compound(ob)) => oa == ob,
        _ => false,
    }
}

/// Two scenes have the same topology: the same arena shape, the same
/// roots, and node-wise the same structure, differing at most in
/// transforms, materials and primitive parameters.
pub open spec fn same_topology(s1: Scene, s2: Scene) -> bool {
    &&& s1.nodes@.len() == s2.nodes@.len()
    &&& s1.roots@ == s2.roots@
    &&& forall|i: int|
        0 <= i < s1.nodes@.len() ==> same_node_topology(
            #[trigger] s1.nodes@[i],
            s2.nodes@[i],
        )
}

/// A scene with the same topology as a well-formed scene is well formed.
pub proof fn lemma_same_topology_wf(s1: Scene, s2: Scene)
    requires
        s1.wf(),
        same_topology(s1, s2),
    ensures
        s2.wf(),
{
    assert forall|i: int| 0 <= i < s2.nodes@.len() implies #[trigger] crate::shape::node_children_wf(
        s2,
        i,
    ) by {
        assert(crate::shape::node_children_wf(s1, i));
        assert(same_node_topology(s1.nodes@[i], s2.nodes@[i]));
    }
}

proof fn lemma_same_topology_lists(s1: Scene, s2: Scene, i: int)
    requires
        same_topology(s1, s2),
        -1 <= i < s1.nodes@.len(),
    ensures
        child_list(s2, i) == child_list(s1, i),
{
    if i >= 0 {
        assert(same_node_topology(s1.nodes@[i], s2.nodes@[i]));
    }
}

proof fn lemma_same_topology_leaf_prims(s1: Scene, s2: Scene, cs: Seq<usize>, n: int, k: PrimKind)
    requires
        same_topology(s1, s2),
        n <= cs.len(),
        forall|j: int| 0 <= j < cs.len() ==> (#[trigger] cs[j]) < s1.nodes@.len(),
    ensures
        crate::pack::leaf_prims_prefix(s2, cs, n, k).len() == crate::pack::leaf_prims_prefix(
            s1,
            cs,
            n,
            k,
        ).len(),
        crate::pack::group_list_prefix(s2, cs, n) == crate::pack::group_list_prefix(s1, cs, n),
    decreases n,
{
    if n > 0 {
        lemma_same_topology_leaf_prims(s1, s2, cs, n - 1, k);
        assert(same_node_topology(s1.nodes@[cs[n - 1] as int], s2.nodes@[cs[n - 1] as int]));
    }
}

proof fn lemma_same_topology_own(s1: Scene, s2: Scene, i: int, k: PrimKind)
    requires
        s1.wf(),
        same_topology(s1, s2),
        -1 <= i < s1.nodes@.len(),
    ensures
        own_count(s2, i, k) == own_count(s1, i, k),
        group_children_of(s2, i) == group_children_of(s1, i),
{
    lemma_child_list_bounds(s1, i);
    lemma_same_topology_lists(s1, s2, i);
    let cs = child_list(s1, i);
    lemma_same_topology_leaf_prims(s1, s2, cs, cs.len() as int, k);
    if 0 <= i {
        assert(same_node_topology(s1.nodes@[i], s2.nodes@[i]));
    }
}

proof fn lemma_same_topology_subtree(s1: Scene, s2: Scene, i: int, k: PrimKind)
    requires
        s1.wf(),
        same_topology(s1, s2),
        -1 <= i < s1.nodes@.len(),
    ensures
        subtree_count(s2, i, k) == subtree_count(s1, i, k),
    decreases s1.nodes@.len() - i, 1int, 0int,
{
    lemma_same_topology_wf(s1, s2);
    lemma_child_list_bounds(s1, i);
    lemma_group_list_entries(s1, child_list(s1, i), child_list(s1, i).len() as int, i);
    lemma_same_topology_own(s1, s2, i, k);
    let gs = group_children_of(s1, i);
    lemma_same_topology_groups_len(s1, s2, i, gs, gs.len() as int, k);
}

proof fn lemma_same_topology_groups_len(
    s1: Scene,
    s2: Scene,
    lo: int,
    gs: Seq<usize>,
    n: int,
    k: PrimKind,
)
    requires
        s1.wf(),
        same_topology(s1, s2),
        -1 <= lo < s1.nodes@.len(),
        0 <= n <= gs.len(),
        forall|j: int| 0 <= j < gs.len() ==> lo < (#[trigger] gs[j]) < s1.nodes@.len(),
    ensures
        crate::pack::groups_prims(s2, lo, gs, n, k).len() == crate::pack::groups_prims(
            s1,
            lo,
            gs,
            n,
            k,
        ).len(),
    decreases s1.nodes@.len() - lo, 0int, n,
{
    lemma_same_topology_wf(s1, s2);
    if n > 0 {
        lemma_same_topology_groups_len(s1, s2, lo, gs, n - 1, k);
        lemma_same_topology_subtree(s1, s2, gs[n - 1] as int, k);
    }
}

proof fn lemma_same_topology_run(s1: Scene, s2: Scene, lo: int, gs: Seq<usize>, n: int, c: Counts)
    requires
        s1.wf(),
        same_topology(s1, s2),
        -1 <= lo < s1.nodes@.len(),
        0 <= n <= gs.len(),
        forall|j: int| 0 <= j < gs.len() ==> lo < (#[trigger] gs[j]) < s1.nodes@.len(),
    ensures
        add_group_run(c, s2, gs, n) == add_group_run(c, s1, gs, n),
    decreases n,
{
    if n > 0 {
        lemma_same_topology_run(s1, s2, lo, gs, n - 1, c);
        lemma_same_topology_subtree(s1, s2, gs[n - 1] as int, PrimKind::Plane);
        lemma_same_topology_subtree(s1, s2, gs[n - 1] as int, PrimKind::Sphere);
        lemma_same_topology_subtree(s1, s2, gs[n - 1] as int, PrimKind::Cube);
        lemma_same_topology_subtree(s1, s2, gs[n - 1] as int, PrimKind::Image);
    }
}

/// Topology-stability law: a tree compiled for a scene also matches any
/// scene of the same topology.  Changing only transforms, materials or
/// primitive parameters leaves the compiled tree unchanged.
pub proof fn lemma_topology_stable(s1: Scene, s2: Scene, g: ShapeGroup, i: int, base: Counts)
    requires
        s1.wf(),
        same_topology(s1, s2),
        -1 <= i < s1.nodes@.len(),
        group_matches(s1, g, i, base),
    ensures
        group_matches(s2, g, i, base),
    decreases s1.nodes@.len() - i, 1int, 0int,
{
    lemma_same_topology_wf(s1, s2);
    lemma_child_list_bounds(s1, i);
    lemma_group_list_entries(s1, child_list(s1, i), child_list(s1, i).len() as int, i);
    lemma_same_topology_own(s1, s2, i, PrimKind::Plane);
    lemma_same_topology_own(s1, s2, i, PrimKind::Sphere);
    lemma_same_topology_own(s1, s2, i, PrimKind::Cube);
    lemma_same_topology_own(s1, s2, i, PrimKind::Image);
    if 0 <= i {
        assert(same_node_topology(s1.nodes@[i], s2.nodes@[i]));
    }
    let gs = group_children_of(s1, i);
    lemma_topology_stable_children(
        s1,
        s2,
        i,
        g.children@,
        gs,
        gs.len() as int,
        add_own(base, s1, i),
    );
    assert(add_own(base, s2, i) == add_own(base, s1, i));
}

proof fn lemma_topology_stable_children(
    s1: Scene,
    s2: Scene,
    lo: int,
    cg: Seq<ShapeGroup>,
    gs: Seq<usize>,
    n: int,
    base: Counts,
)
    requires
        s1.wf(),
        same_topology(s1, s2),
        -1 <= lo < s1.nodes@.len(),
        0 <= n <= gs.len(),
        forall|j: int| 0 <= j < gs.len() ==> lo < (#[trigger] gs[j]) < s1.nodes@.len(),
        children_match(s1, lo, cg, gs, n, base),
    ensures
        children_match(s2, lo, cg, gs, n, base),
    decreases s1.nodes@.len() - lo, 0int, n,
{
    lemma_same_topology_wf(s1, s2);
    if n > 0 {
        lemma_topology_stable_children(s1, s2, lo, cg, gs, n - 1, base);
        lemma_topology_stable(
            s1,
            s2,
            cg[n - 1],
            gs[n - 1] as int,
            add_group_run(base, s1, gs, n - 1),
        );
        lemma_same_topology_run(s1, s2, lo, gs, n - 1, base);
    }
}

/// A matched group whose counter window fits under `total` has all its
/// ranges within the capacity-clipped totals.
proof fn lemma_matched_in_bounds(s: Scene, g: ShapeGroup, i: int, base: Counts, total: Counts)
    requires
        s.wf(),
        -1 <= i < s.nodes@.len(),
        group_matches(s, g, i, base),
        count_at(base, PrimKind::Plane) >= 0,
        count_at(base, PrimKind::Sphere) >= 0,
        count_at(base, PrimKind::Cube) >= 0,
        count_at(base, PrimKind::Image) >= 0,
        count_at(base, PrimKind::Plane) + subtree_count(s, i, PrimKind::Plane) <= count_at(
            total,
            PrimKind::Plane,
        ),
        count_at(base, PrimKind::Sphere) + subtree_count(s, i, PrimKind::Sphere) <= count_at(
            total,
            PrimKind::Sphere,
        ),
        count_at(base, PrimKind::Cube) + subtree_count(s, i, PrimKind::Cube) <= count_at(
            total,
            PrimKind::Cube,
        ),
        count_at(base, PrimKind::Image) + subtree_count(s, i, PrimKind::Image) <= count_at(
            total,
            PrimKind::Image,
        ),
    ensures
        group_in_bounds(
            g,
            clip(count_at(total, PrimKind::Plane), max_of(PrimKind::Plane)),
            clip(count_at(total, PrimKind::Sphere), max_of(PrimKind::Sphere)),
            clip(count_at(total, PrimKind::Cube), max_of(PrimKind::Cube)),
            clip(count_at(total, PrimKind::Image), max_of(PrimKind::Image)),
        ),
    decreases s.nodes@.len() - i, 1int, 0int,
{
    lemma_child_list_bounds(s, i);
    lemma_group_list_entries(s, child_list(s, i), child_list(s, i).len() as int, i);
    let gs = group_children_of(s, i);
    let mid = add_own(base, s, i);
    lemma_run_counts(s, i, gs, gs.len() as int, mid);
    lemma_matched_children_in_bounds(s, i, g.children@, gs, gs.len() as int, mid, total);
}

proof fn lemma_matched_children_in_bounds(
    s: Scene,
    lo: int,
    cg: Seq<ShapeGroup>,
    gs: Seq<usize>,
    n: int,
    base: Counts,
    total: Counts,
)
    requires
        s.wf(),
        -1 <= lo < s.nodes@.len(),
        0 <= n <= gs.len(),
        n <= cg.len(),
        forall|j: int| 0 <= j < gs.len() ==> lo < (#[trigger] gs[j]) < s.nodes@.len(),
        children_match(s, lo, cg, gs, n, base),
        count_at(base, PrimKind::Plane) >= 0,
        count_at(base, PrimKind::Sphere) >= 0,
        count_at(base, PrimKind::Cube) >= 0,
        count_at(base, PrimKind::Image) >= 0,
        count_at(add_group_run(base, s, gs, n), PrimKind::Plane) <= count_at(
            total,
            PrimKind::Plane,
        ),
        count_at(add_group_run(base, s, gs, n), PrimKind::Sphere) <= count_at(
            total,
            PrimKind::Sphere,
        ),
        count_at(add_group_run(base, s, gs, n), PrimKind::Cube) <= count_at(
            total,
            PrimKind::Cube,
        ),
        count_at(add_group_run(base, s, gs, n), PrimKind::Image) <= count_at(
            total,
            PrimKind::Image,
        ),
    ensures
        children_in_bounds(
            cg,
            n,
            clip(count_at(total, PrimKind::Plane), max_of(PrimKind::Plane)),
            clip(count_at(total, PrimKind::Sphere), max_of(PrimKind::Sphere)),
            clip(count_at(total, PrimKind::Cube), max_of(PrimKind::Cube)),
            clip(count_at(total, PrimKind::Image), max_of(PrimKind::Image)),
        ),
    decreases s.nodes@.len() - lo, 0int, n,
{
    if n > 0 {
        let prev = add_group_run(base, s, gs, n - 1);
        lemma_run_counts(s, lo, gs, n - 1, base);
        lemma_run_counts(s, lo, gs, n, base);
        lemma_matched_children_in_bounds(s, lo, cg, gs, n - 1, base, total);
        lemma_matched_in_bounds(s, cg[n - 1], gs[n - 1] as int, prev, total);
    }
}

/// Packed-output bounds law: every range of a compiled tree stays within
/// the packed arrays of its scene, so the tree can be evaluated directly
/// against them.
pub proof fn lemma_packed_in_bounds(s: Scene, root: ShapeGroup)
    requires
        s.wf(),
        group_matches(s, root, -1, zero_counts()),
    ensures
        group_in_bounds(
            root,
            clip(subtree_count(s, -1, PrimKind::Plane), max_of(PrimKind::Plane)),
            clip(subtree_count(s, -1, PrimKind::Sphere), max_of(PrimKind::Sphere)),
            clip(subtree_count(s, -1, PrimKind::Cube), max_of(PrimKind::Cube)),
            clip(subtree_count(s, -1, PrimKind::Image), max_of(PrimKind::Image)),
        ),
{
    let total = Counts {
        plane: subtree_count(s, -1, PrimKind::Plane),
        sphere: subtree_count(s, -1, PrimKind::Sphere),
        cube: subtree_count(s, -1, PrimKind::Cube),
        image: subtree_count(s, -1, PrimKind::Image),
    };
    lemma_matched_in_bounds(s, root, -1, zero_counts(), total);
}

} // verus!
