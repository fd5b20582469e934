//! The evaluator code generator: walks a compiled group tree and emits the
//! source text of the scene's distance and material evaluators.
//!
//! Group accumulators are numbered by a single pre-order counter.  A union
//! group seeds its accumulator with the far sentinel and folds members in
//! with `min`; an intersection group seeds with the negated sentinel and
//! folds with `max`.  In the material variant the fold is select-and-carry:
//! the material is overwritten exactly when the combine changes the
//! distance.  A subtractive child contributes the negation of its distance.

use vstd::prelude::*;
use crate::pack::{IndexRange, ShapeGroup};
use crate::pack_laws::{children_like, group_like};
use crate::shape::{Operation, PrimKind};
use crate::text::{dec_str, push_dec_u8};

verus! {

/// Name of the plain combine function of an operation.
pub open spec fn op_name(op: Operation) -> Seq<char> {
    match op {
        Operation::Union => "min"@,
        Operation::Intersection => "max"@,
    }
}

/// Name of the select-and-carry combine function of an operation.
pub open spec fn op_select_name(op: Operation) -> Seq<char> {
    match op {
        Operation::Union => "min_select"@,
        Operation::Intersection => "max_select"@,
    }
}

/// Shape-function name fragment of a primitive kind.
pub open spec fn kind_name(k: PrimKind) -> Seq<char> {
    match k {
        PrimKind::Plane => "plane"@,
        PrimKind::Sphere => "sphere"@,
        PrimKind::Cube => "cube"@,
        PrimKind::Image => "image"@,
    }
}

/// Number of entries of a range (empty when inverted).
pub open spec fn range_len(r: IndexRange) -> int {
    if r.start <= r.end {
        r.end - r.start
    } else {
        0
    }
}

/// The accumulator seed line of a group: the far sentinel for a union, its
/// negation for an intersection.
pub open spec fn seed_text(op: Operation, gi: int) -> Seq<char> {
    "var dist_"@ + dec_str(gi) + (match op {
        Operation::Union => " = #{FAR}f;\n"@,
        Operation::Intersection => " = -#{FAR}f;\n"@
    })
}

/// The material seed line of a group.
pub open spec fn material_seed_text(gi: int) -> Seq<char> {
    "var material_"@ + dec_str(gi) + " = Material(vec3(1.0));\n"@
}

/// A plain combine line: fold `expr` into the group's accumulator.
pub open spec fn op_line(op: Operation, gi: int, expr: Seq<char>) -> Seq<char> {
    "dist_"@ + dec_str(gi) + " = "@ + op_name(op) + "(dist_"@ + dec_str(gi) + ", "@ + expr
        + ");\n"@
}

/// A select-and-carry combine line: fold `expr` into the accumulator and
/// overwrite the group's material with `mexpr` when the distance changed.
pub open spec fn op_line_mat(op: Operation, gi: int, expr: Seq<char>, mexpr: Seq<char>) -> Seq<
    char,
> {
    "if "@ + op_select_name(op) + "(&dist_"@ + dec_str(gi) + ", "@ + expr + ") { material_"@
        + dec_str(gi) + " = "@ + mexpr + "; }\n"@
}

/// The combine line for one member expression, in the requested variant.
pub open spec fn member_line(
    op: Operation,
    gi: int,
    expr: Seq<char>,
    mexpr: Seq<char>,
    material: bool,
) -> Seq<char> {
    if material {
        op_line_mat(op, gi, expr, mexpr)
    } else {
        op_line(op, gi, expr)
    }
}

/// The distance expression of one shape of kind `k`: `sdf_<kind>(<at>, pnt)`.
pub open spec fn shape_expr(k: PrimKind, at: Seq<char>) -> Seq<char> {
    "sdf_"@ + kind_name(k) + "("@ + at + ", pnt)"@
}

/// The material expression of one shape of kind `k`:
/// `shapes.<kind>s[<at>].material`.
pub open spec fn shape_mexpr(k: PrimKind, at: Seq<char>) -> Seq<char> {
    "shapes."@ + kind_name(k) + "s["@ + at + "].material"@
}

/// An index literal: the decimal index with the unsigned suffix.
pub open spec fn index_lit(v: int) -> Seq<char> {
    dec_str(v) + "u"@
}

/// The text folding one kind's range into a group's accumulator: nothing
/// for an empty range, a single combine line for one shape, and a bounded
/// loop over the range otherwise.
pub open spec fn shapes_text(
    k: PrimKind,
    r: IndexRange,
    op: Operation,
    gi: int,
    material: bool,
) -> Seq<char> {
    if range_len(r) == 0 {
        Seq::empty()
    } else if range_len(r) == 1 {
        member_line(
            op,
            gi,
            shape_expr(k, index_lit(r.start as int)),
            shape_mexpr(k, index_lit(r.start as int)),
            material,
        )
    } else {
        "for (var i = "@ + index_lit(r.start as int) + "; i < "@ + index_lit(r.end as int)
            + "; i = i + 1u) {\n"@ + member_line(
            op,
            gi,
            shape_expr(k, "i"@),
            shape_mexpr(k, "i"@),
            material,
        ) + "}\n"@
    }
}

/// Total number of groups in a compiled tree.
pub open spec fn group_count(g: ShapeGroup) -> int
    decreases g, 0int,
{
    1 + run_group_count(g.children@, g.children@.len() as int)
}

/// Total number of groups in the trees `cs[..n]`.
pub open spec fn run_group_count(cs: Seq<ShapeGroup>, n: int) -> int
    decreases cs, n,
    when n <= cs.len()
{
    if n <= 0 {
        0
    } else {
        run_group_count(cs, n - 1) + group_count(cs[n - 1])
    }
}

/// The accumulator expression of a child group, negated when the child is
/// subtractive.
pub open spec fn child_expr(c: ShapeGroup, ci: int) -> Seq<char> {
    if c.negative {
        "-dist_"@ + dec_str(ci)
    } else {
        "dist_"@ + dec_str(ci)
    }
}

/// The full evaluator fragment of one group with pre-order index `gi`: the
/// seed lines, the four kind ranges in fixed order, then each child's
/// fragment followed by the line folding the child in.
pub open spec fn group_text(g: ShapeGroup, gi: int, material: bool) -> Seq<char>
    decreases g, 0int,
{
    seed_text(g.operation, gi) + (if material {
        material_seed_text(gi)
    } else {
        Seq::empty()
    }) + shapes_text(PrimKind::Plane, g.plane_index_range, g.operation, gi, material)
        + shapes_text(PrimKind::Sphere, g.sphere_index_range, g.operation, gi, material)
        + shapes_text(PrimKind::Cube, g.cube_index_range, g.operation, gi, material)
        + shapes_text(PrimKind::Image, g.image_index_range, g.operation, gi, material)
        + children_text(
        g.children@,
        g.children@.len() as int,
        g.operation,
        gi,
        gi + 1,
        material,
    )
}

/// The fragments of the children `cs[..n]`, with the first child's group
/// index at `base`.
pub open spec fn children_text(
    cs: Seq<ShapeGroup>,
    n: int,
    op: Operation,
    parent_gi: int,
    base: int,
    material: bool,
) -> Seq<char>
    decreases cs, n,
    when n <= cs.len()
{
    if n <= 0 {
        Seq::empty()
    } else {
        children_text(cs, n - 1, op, parent_gi, base, material) + child_text(
            cs[n - 1],
            op,
            parent_gi,
            base + run_group_count(cs, n - 1),
            material,
        )
    }
}

/// One child's fragment followed by the combine line folding it into the
/// parent's accumulator.
pub open spec fn child_text(
    c: ShapeGroup,
    op: Operation,
    parent_gi: int,
    ci: int,
    material: bool,
) -> Seq<char>
    decreases c, 1int,
{
    group_text(c, ci, material) + member_line(
        op,
        parent_gi,
        child_expr(c, ci),
        "material_"@ + dec_str(ci),
        material,
    )
}

/// The distance evaluator: the root group's fragment wrapped in the scalar
/// entry point.
pub open spec fn sdf_entry_text(g: ShapeGroup) -> Seq<char> {
    "fn sdf_generated(pnt: vec3<f32>) -> f32 {\n"@ + group_text(g, 0, false)
        + "return dist_0;\n}"@
}

/// The material evaluator: the root group's fragment wrapped in the
/// distance-and-material entry point.
pub open spec fn material_entry_text(g: ShapeGroup) -> Seq<char> {
    "fn sdf_material_generated(pnt: vec3<f32>) -> SDFMaterialResult {\n"@ + group_text(g, 0, true)
        + "return SDFMaterialResult(dist_0, material_0);\n}"@
}

/// `group_count` counts at least the group itself; child runs count at
/// least nothing.
proof fn lemma_group_count_pos(g: ShapeGroup)
    ensures
        group_count(g) >= 1,
        run_group_count(g.children@, g.children@.len() as int) >= 0,
    decreases g, 0int,
{
    lemma_run_count_nonneg(g.children@, g.children@.len() as int);
}

proof fn lemma_run_count_nonneg(cs: Seq<ShapeGroup>, n: int)
    requires
        n <= cs.len(),
    ensures
        run_group_count(cs, n) >= 0,
    decreases cs, n,
{
    if n > 0 {
        lemma_run_count_nonneg(cs, n - 1);
        lemma_group_count_pos(cs[n - 1]);
    }
}

/// Group counts of child-run prefixes grow with the prefix.
proof fn lemma_run_count_mono(cs: Seq<ShapeGroup>, a: int, b: int)
    requires
        0 <= a <= b <= cs.len(),
    ensures
        run_group_count(cs, a) <= run_group_count(cs, b),
    decreases b - a,
{
    if a < b {
        lemma_run_count_mono(cs, a, b - 1);
        lemma_group_count_pos(cs[b - 1]);
    }
}

/// The shape-function name fragment of a primitive kind.
fn kind_str(k: PrimKind) -> (r: &'static str)
    ensures
        r@ == kind_name(k),
{
    match k {
        PrimKind::Plane => "plane",
        PrimKind::Sphere => "sphere",
        PrimKind::Cube => "cube",
        PrimKind::Image => "image",
    }
}

/// Appends one combine line in the requested variant.
fn push_member_line(
    out: &mut String,
    op: Operation,
    gi: u8,
    expr: &str,
    mexpr: &str,
    material: bool,
)
    ensures
        final(out)@ == old(out)@ + member_line(op, gi as int, expr@, mexpr@, material),
{
    if material {
        out.append("if ");
        match op {
            Operation::Union => out.append("min_select"),
            Operation::Intersection => out.append("max_select"),
        }
        out.append("(&dist_");
        push_dec_u8(out, gi);
        out.append(", ");
        out.append(expr);
        out.append(") { material_");
        push_dec_u8(out, gi);
        out.append(" = ");
        out.append(mexpr);
        out.append("; }\n");
        proof {
            assert(out@ =~= old(out)@ + op_line_mat(op, gi as int, expr@, mexpr@));
        }
    } else {
        out.append("dist_");
        push_dec_u8(out, gi);
        out.append(" = ");
        match op {
            Operation::Union => out.append("min"),
            Operation::Intersection => out.append("max"),
        }
        out.append("(dist_");
        push_dec_u8(out, gi);
        out.append(", ");
        out.append(expr);
        out.append(");\n");
        proof {
            assert(out@ =~= old(out)@ + op_line(op, gi as int, expr@));
        }
    }
}

/// Appends the text folding one kind's range into a group's accumulator.
fn generate_shapes_sdf(
    out: &mut String,
    gi: u8,
    op: Operation,
    k: PrimKind,
    r: &IndexRange,
    material: bool,
)
    ensures
        final(out)@ == old(out)@ + shapes_text(k, *r, op, gi as int, material),
{
    let len: u8 = if r.end >= r.start {
        r.end - r.start
    } else {
        0
    };
    if len == 0 {
        proof {
            assert(old(out)@ + shapes_text(k, *r, op, gi as int, material) =~= old(out)@);
        }
    } else if len == 1 {
        let mut at = String::new();
        push_dec_u8(&mut at, r.start);
        at.append("u");
        proof {
            assert(at@ =~= index_lit(r.start as int));
        }
        let mut expr = String::new();
        expr.append("sdf_");
        expr.append(kind_str(k));
        expr.append("(");
        expr.append(at.as_str());
        expr.append(", pnt)");
        proof {
            assert(expr@ =~= shape_expr(k, index_lit(r.start as int)));
        }
        let mut mexpr = String::new();
        mexpr.append("shapes.");
        mexpr.append(kind_str(k));
        mexpr.append("s[");
        mexpr.append(at.as_str());
        mexpr.append("].material");
        proof {
            assert(mexpr@ =~= shape_mexpr(k, index_lit(r.start as int)));
        }
        push_member_line(out, op, gi, expr.as_str(), mexpr.as_str(), material);
    } else {
        let ghost pre = out@;
        out.append("for (var i = ");
        push_dec_u8(out, r.start);
        out.append("u");
        out.append("; i < ");
        push_dec_u8(out, r.end);
        out.append("u");
        out.append("; i = i + 1u) {\n");
        proof {
            assert(out@ =~= pre + ("for (var i = "@ + index_lit(r.start as int) + "; i < "@
                + index_lit(r.end as int) + "; i = i + 1u) {\n"@));
        }
        let mut expr = String::new();
        expr.append("sdf_");
        expr.append(kind_str(k));
        expr.append("(");
        expr.append("i");
        expr.append(", pnt)");
        proof {
            assert(expr@ =~= shape_expr(k, "i"@));
        }
        let mut mexpr = String::new();
        mexpr.append("shapes.");
        mexpr.append(kind_str(k));
        mexpr.append("s[");
        mexpr.append("i");
        mexpr.append("].material");
        proof {
            assert(mexpr@ =~= shape_mexpr(k, "i"@));
        }
        push_member_line(out, op, gi, expr.as_str(), mexpr.as_str(), material);
        out.append("}\n");
        proof {
            assert(out@ =~= pre + shapes_text(k, *r, op, gi as int, material));
        }
    }
}

/// Emits the evaluator fragment of one group and its subtree, numbering
/// groups from `*index` in pre-order.
#[verifier::rlimit(60)]
pub fn generate_group_sdf(group: &ShapeGroup, index: &mut u8, material: bool) -> (r: String)
    requires
        *old(index) as int + group_count(*group) <= 255,
    ensures
        r@ == group_text(*group, *old(index) as int, material),
        *final(index) as int == *old(index) as int + group_count(*group),
    decreases *group,
{
    let group_index: u8 = *index;
    proof {
        lemma_group_count_pos(*group);
    }
    *index = *index + 1;
    let mut source = String::new();
    source.append("var dist_");
    push_dec_u8(&mut source, group_index);
    match group.operation {
        Operation::Union => source.append(" = #{FAR}f;\n"),
        Operation::Intersection => source.append(" = -#{FAR}f;\n"),
    }
    proof {
        assert(source@ =~= seed_text(group.operation, group_index as int));
    }
    if material {
        let ghost pre = source@;
        source.append("var material_");
        push_dec_u8(&mut source, group_index);
        source.append(" = Material(vec3(1.0));\n");
        proof {
            assert(source@ =~= pre + material_seed_text(group_index as int));
        }
    }
    let ghost seeded = source@;
    proof {
        assert(seeded =~= seed_text(group.operation, group_index as int) + (if material {
            material_seed_text(group_index as int)
        } else {
            Seq::empty()
        }));
    }
    generate_shapes_sdf(
        &mut source,
        group_index,
        group.operation,
        PrimKind::Plane,
        &group.plane_index_range,
        material,
    );
    generate_shapes_sdf(
        &mut source,
        group_index,
        group.operation,
        PrimKind::Sphere,
        &group.sphere_index_range,
        material,
    );
    generate_shapes_sdf(
        &mut source,
        group_index,
        group.operation,
        PrimKind::Cube,
        &group.cube_index_range,
        material,
    );
    generate_shapes_sdf(
        &mut source,
        group_index,
        group.operation,
        PrimKind::Image,
        &group.image_index_range,
        material,
    );
    let ghost pre = source@;
    let ghost og: u8 = group_index;
    let mut j: usize = 0;
    while j < group.children.len()
        invariant
            j <= group.children@.len(),
            group_index == og,
            og as int + group_count(*group) <= 255,
            group_count(*group) == 1 + run_group_count(
                group.children@,
                group.children@.len() as int,
            ),
            *index as int == og as int + 1 + run_group_count(group.children@, j as int),
            source@ == pre + children_text(
                group.children@,
                j as int,
                group.operation,
                og as int,
                og as int + 1,
                material,
            ),
        decreases group.children@.len() - j,
    {
        proof {
            lemma_run_count_mono(group.children@, j as int + 1, group.children@.len() as int);
            lemma_group_count_pos(group.children@[j as int]);
            lemma_run_count_nonneg(group.children@, j as int);
        }
        let child = &group.children[j];
        let child_index: u8 = *index;
        let child_source = generate_group_sdf(child, index, material);
        source.append(child_source.as_str());
        let mut expr = String::new();
        if child.negative {
            expr.append("-dist_");
        } else {
            expr.append("dist_");
        }
        push_dec_u8(&mut expr, child_index);
        proof {
            assert(expr@ =~= child_expr(group.children@[j as int], child_index as int));
        }
        let mut mexpr = String::new();
        mexpr.append("material_");
        push_dec_u8(&mut mexpr, child_index);
        push_member_line(
            &mut source,
            group.operation,
            group_index,
            expr.as_str(),
            mexpr.as_str(),
            material,
        );
        proof {
            let cs = group.children@;
            let ct_j = children_text(cs, j as int, group.operation, og as int, og as int + 1, material);
            let gt = group_text(cs[j as int], child_index as int, material);
            let ml = member_line(
                group.operation,
                og as int,
                child_expr(cs[j as int], child_index as int),
                "material_"@ + dec_str(child_index as int),
                material,
            );
            assert(mexpr@ =~= "material_"@ + dec_str(child_index as int));
            assert(child_text(cs[j as int], group.operation, og as int, child_index as int, material)
                == gt + ml);
            assert(children_text(cs, j as int + 1, group.operation, og as int, og as int + 1, material)
                == ct_j + child_text(cs[j as int], group.operation, og as int, child_index as int, material));
            assert(source@ == ((pre + ct_j) + gt) + ml);
            vstd::seq_lib::lemma_concat_associative(pre + ct_j, gt, ml);
            vstd::seq_lib::lemma_concat_associative(pre, ct_j, gt + ml);
            assert(source@ == pre + children_text(
                cs,
                j as int + 1,
                group.operation,
                og as int,
                og as int + 1,
                material,
            ));
        }
        j = j + 1;
    }
    proof {
        assert(source@ =~= group_text(*group, og as int, material));
    }
    source
}

/// Emits the scalar distance evaluator for a compiled tree.
pub fn generate_sdf(group: &ShapeGroup) -> (r: String)
    requires
        group_count(*group) <= 255,
    ensures
        r@ == sdf_entry_text(*group),
{
    let mut index: u8 = 0;
    let mut out = String::new();
    out.append("fn sdf_generated(pnt: vec3<f32>) -> f32 {\n");
    let body = generate_group_sdf(group, &mut index, false);
    out.append(body.as_str());
    out.append("return dist_0;\n}");
    proof {
        assert(out@ =~= sdf_entry_text(*group));
    }
    out
}

/// Emits the distance-and-material evaluator for a compiled tree.
pub fn generate_material(group: &ShapeGroup) -> (r: String)
    requires
        group_count(*group) <= 255,
    ensures
        r@ == material_entry_text(*group),
{
    let mut index: u8 = 0;
    let mut out = String::new();
    out.append("fn sdf_material_generated(pnt: vec3<f32>) -> SDFMaterialResult {\n");
    let body = generate_group_sdf(group, &mut index, true);
    out.append(body.as_str());
    out.append("return SDFMaterialResult(dist_0, material_0);\n}");
    proof {
        assert(out@ =~= material_entry_text(*group));
    }
    out
}

/// Joins the fixed evaluator prelude with the two generated evaluators
/// into one compilable unit.
pub fn assemble_shader(prelude: &str, sdf: &str, material: &str) -> (r: String)
    ensures
        r@ == prelude@ + "\n"@ + sdf@ + "\n"@ + material@,
{
    let mut out = String::new();
    out.append(prelude);
    out.append("\n");
    out.append(sdf);
    out.append("\n");
    out.append(material);
    proof {
        assert(out@ =~= prelude@ + "\n"@ + sdf@ + "\n"@ + material@);
    }
    out
}

/// Number of groups in a compiled tree, saturating at 256: enough to
/// decide whether the tree fits the generator's one-byte index budget.
pub fn group_count_capped(g: &ShapeGroup) -> (r: u16)
    ensures
        r as int == crate::pack::clip(group_count(*g), 256),
    decreases *g,
{
    proof {
        lemma_run_count_nonneg(g.children@, g.children@.len() as int);
    }
    let mut total: u16 = 1;
    let mut j: usize = 0;
    while j < g.children.len()
        invariant
            j <= g.children@.len(),
            total as int == crate::pack::clip(
                1 + run_group_count(g.children@, j as int),
                256,
            ),
            1 <= total <= 256,
        decreases g.children@.len() - j,
    {
        proof {
            lemma_run_count_nonneg(g.children@, j as int);
            lemma_group_count_pos(g.children@[j as int]);
        }
        let c = group_count_capped(&g.children[j]);
        let s: u16 = total + c;
        total = if s > 256 {
            256
        } else {
            s
        };
        j = j + 1;
    }
    total
}

/// Emits the scalar distance evaluator when the tree fits the generator's
/// group budget, and reports an oversized tree instead of failing.
pub fn try_generate_sdf(group: &ShapeGroup) -> (r: Option<String>)
    ensures
        (r is Some) == (group_count(*group) <= 255),
        r matches Some(s) ==> s@ == sdf_entry_text(*group),
{
    let n = group_count_capped(group);
    if n <= 255 {
        Some(generate_sdf(group))
    } else {
        None
    }
}

/// Emits the distance-and-material evaluator when the tree fits the
/// generator's group budget.
pub fn try_generate_material(group: &ShapeGroup) -> (r: Option<String>)
    ensures
        (r is Some) == (group_count(*group) <= 255),
        r matches Some(s) ==> s@ == material_entry_text(*group),
{
    let n = group_count_capped(group);
    if n <= 255 {
        Some(generate_material(group))
    } else {
        None
    }
}

/// Structurally equal trees have equally many groups.
proof fn lemma_like_same_count(a: ShapeGroup, b: ShapeGroup)
    requires
        group_like(a, b),
    ensures
        group_count(a) == group_count(b),
    decreases a, 0int,
{
    lemma_like_children_count(a.children@, b.children@, a.children@.len() as int);
}

proof fn lemma_like_children_count(ca: Seq<ShapeGroup>, cb: Seq<ShapeGroup>, n: int)
    requires
        n <= ca.len(),
        n <= cb.len(),
        children_like(ca, cb, n),
    ensures
        run_group_count(ca, n) == run_group_count(cb, n),
    decreases ca, n,
{
    if n > 0 {
        lemma_like_children_count(ca, cb, n - 1);
        lemma_like_same_count(ca[n - 1], cb[n - 1]);
    }
}

/// Cache-coherence law: structurally equal trees generate identical
/// evaluator text, so a shader cached under structural equality always
/// stands for exactly the text a regeneration would produce.
pub proof fn lemma_like_same_text(a: ShapeGroup, b: ShapeGroup, gi: int, material: bool)
    requires
        group_like(a, b),
    ensures
        group_text(a, gi, material) == group_text(b, gi, material),
    decreases a, 0int,
{
    lemma_like_children_text(
        a.children@,
        b.children@,
        a.children@.len() as int,
        a.operation,
        gi,
        gi + 1,
        material,
    );
}

proof fn lemma_like_children_text(
    ca: Seq<ShapeGroup>,
    cb: Seq<ShapeGroup>,
    n: int,
    op: Operation,
    parent_gi: int,
    base: int,
    material: bool,
)
    requires
        n <= ca.len(),
        n <= cb.len(),
        children_like(ca, cb, n),
    ensures
        children_text(ca, n, op, parent_gi, base, material) == children_text(
            cb,
            n,
            op,
            parent_gi,
            base,
            material,
        ),
    decreases ca, n,
{
    if n > 0 {
        assert(children_like(ca, cb, n - 1) && group_like(ca[n - 1], cb[n - 1]));
        lemma_like_children_text(ca, cb, n - 1, op, parent_gi, base, material);
        lemma_like_children_count(ca, cb, n - 1);
        let ci = base + run_group_count(ca, n - 1);
        lemma_like_same_text(ca[n - 1], cb[n - 1], ci, material);
        assert(ca[n - 1].negative == cb[n - 1].negative);
        assert(child_expr(ca[n - 1], ci) == child_expr(cb[n - 1], ci));
        assert(child_text(ca[n - 1], op, parent_gi, ci, material) == child_text(
            cb[n - 1],
            op,
            parent_gi,
            ci,
            material,
        ));
    }
}

/// Both entry points inherit the cache-coherence law.
pub proof fn lemma_like_same_unit(a: ShapeGroup, b: ShapeGroup)
    requires
        group_like(a, b),
    ensures
        sdf_entry_text(a) == sdf_entry_text(b),
        material_entry_text(a) == material_entry_text(b),
{
    lemma_like_same_text(a, b, 0, false);
    lemma_like_same_text(a, b, 0, true);
}

} // verus!
