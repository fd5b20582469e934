//! The stage scheduler: computes the coarse-to-fine chain of render stages
//! for one camera from its viewport size and resolution configuration.
//!
//! The chain has one first stage, a run of mid stages each `scaling` times
//! finer than the one before, and a last stage at the full viewport size.
//! The first stage is as close as possible to the configured start
//! resolution while preserving the viewport's aspect ratio, never exceeding
//! the viewport divided by the scaling factor and never dropping below one
//! pixel on either axis.

use vstd::prelude::*;
use vstd::arithmetic::div_mod::*;
use vstd::arithmetic::mul::*;
use vstd::arithmetic::power::*;

verus! {

/// Pixel size of one render stage.
#[derive(Clone, Copy, PartialEq, Eq, Structural, Debug)]
pub struct StageSize {
    pub width: u32,
    pub height: u32,
}

/// The ordered stage chain for one camera: first, mid stages in increasing
/// resolution order, last at full viewport resolution.
#[derive(Clone, Debug)]
pub struct StagePlan {
    pub first: StageSize,
    pub mid: Vec<StageSize>,
    pub last: StageSize,
}

pub open spec fn imin(a: int, b: int) -> int {
    if a <= b {
        a
    } else {
        b
    }
}

pub open spec fn imax(a: int, b: int) -> int {
    if a >= b {
        a
    } else {
        b
    }
}

/// The start resolution clamped so that it fits both viewport axes divided
/// by the scaling factor, and never drops below one pixel.
pub open spec fn start_res(width: int, height: int, start: int, scaling: int) -> int {
    imax(1, imin(start, imin(width / scaling, height / scaling)))
}

/// Division rounded to the nearest integer, ties rounded up.
pub open spec fn round_div(a: int, b: int) -> int {
    (2 * a + b) / (2 * b)
}

/// The first-stage size of the secondary (smaller) viewport axis: the
/// aspect-preserving match of the start resolution on the primary axis,
/// clamped to `[1, secondary / scaling]` (or to 1 when that bound is zero).
pub open spec fn derived_dim(st: int, primary: int, secondary: int, scaling: int) -> int {
    imax(1, imin(round_div(st * secondary, primary), secondary / scaling))
}

/// First-stage width: the clamped start resolution when the width is the
/// larger axis, else derived from the height to preserve aspect ratio.
pub open spec fn first_width(width: int, height: int, start: int, scaling: int) -> int {
    if height <= width {
        start_res(width, height, start, scaling)
    } else {
        derived_dim(start_res(width, height, start, scaling), height, width, scaling)
    }
}

/// First-stage height, symmetric to `first_width`.
pub open spec fn first_height(width: int, height: int, start: int, scaling: int) -> int {
    if height <= width {
        derived_dim(start_res(width, height, start, scaling), width, height, scaling)
    } else {
        start_res(width, height, start, scaling)
    }
}

/// Largest `e` with `pow(base, e) <= x`, for `base >= 2` and `x >= 1`.
pub open spec fn log_floor(base: int, x: int) -> nat
    decreases x,
    when base >= 2 && x >= 1
    via log_floor_decreases
{
    if x < base {
        0
    } else {
        (1 + log_floor(base, x / base)) as nat
    }
}

#[via_fn]
proof fn log_floor_decreases(base: int, x: int) {
    if x >= base {
        lemma_div_is_ordered(base, x, base);
        lemma_div_by_self(base);
        lemma_div_is_strictly_smaller(x, base);
    }
}

/// Number of mid stages: how often the first stage can be scaled up by the
/// scaling factor while still fitting the viewport on both axes.
pub open spec fn mid_count(width: int, height: int, start: int, scaling: int) -> nat {
    let w0 = first_width(width, height, start, scaling);
    let h0 = first_height(width, height, start, scaling);
    log_floor(scaling, imin(width / w0, height / h0))
}

/// The stage plan that `prepare_stages` owes for a non-degenerate viewport.
pub open spec fn stage_plan_matches(
    p: StagePlan,
    width: int,
    height: int,
    start: int,
    scaling: int,
) -> bool {
    let w0 = first_width(width, height, start, scaling);
    let h0 = first_height(width, height, start, scaling);
    &&& p.first.width == w0
    &&& p.first.height == h0
    &&& p.mid@.len() == mid_count(width, height, start, scaling)
    &&& forall|k: int|
        0 <= k < p.mid@.len() ==> (#[trigger] p.mid@[k]).width == w0 * pow(scaling, (k + 1) as nat)
            && p.mid@[k].height == h0 * pow(scaling, (k + 1) as nat)
    &&& p.last.width == width
    &&& p.last.height == height
}

/// `pow(b, e)` outgrows `e` for bases of at least 2.
proof fn lemma_pow_exceeds(b: int, e: nat)
    requires
        b >= 2,
    ensures
        pow(b, e) >= e + 1,
    decreases e,
{
    if e == 0 {
        lemma_pow0(b);
    } else {
        lemma_pow_exceeds(b, (e - 1) as nat);
        lemma_pow_positive(b, (e - 1) as nat);
        assert(pow(b, e) == b * pow(b, (e - 1) as nat)) by {
            reveal(pow);
        }
        lemma_mul_inequality(2, b, pow(b, (e - 1) as nat));
    }
}

/// `log_floor` brackets its argument between two adjacent powers.
proof fn lemma_log_floor_bracket(b: int, x: int)
    requires
        b >= 2,
        x >= 1,
    ensures
        pow(b, log_floor(b, x)) <= x,
        x < pow(b, (log_floor(b, x) + 1) as nat),
    decreases x,
{
    if x < b {
        lemma_pow0(b);
        lemma_pow1(b);
    } else {
        lemma_div_pos_is_pos(x, b);
        lemma_div_is_ordered(b, x, b);
        lemma_div_by_self(b);
        lemma_div_is_strictly_smaller(x, b);
        let q = x / b;
        lemma_log_floor_bracket(b, q);
        let l = log_floor(b, q);
        lemma_fundamental_div_mod(x, b);
        lemma_mod_division_less_than_divisor(x, b);
        // pow(b, l + 1) == b * pow(b, l) <= b * q <= x
        assert(pow(b, (l + 1) as nat) == b * pow(b, l)) by {
            reveal(pow);
        }
        lemma_mul_inequality(pow(b, l), q, b);
        lemma_mul_is_commutative(pow(b, l), b);
        lemma_mul_is_commutative(q, b);
        // x < b * (q + 1) <= b * pow(b, l + 1) == pow(b, l + 2)
        assert(pow(b, (l + 2) as nat) == b * pow(b, (l + 1) as nat)) by {
            reveal(pow);
        }
        lemma_mul_inequality(q + 1, pow(b, (l + 1) as nat), b);
        lemma_mul_is_commutative(q + 1, b);
        lemma_mul_is_commutative(pow(b, (l + 1) as nat), b);
        lemma_mul_is_distributive_add(b, q, 1);
        assert(log_floor(b, x) == l + 1);
    }
}

/// An exponent bracketing `x` between adjacent powers is `log_floor`.
proof fn lemma_log_floor_unique(b: int, x: int, m: nat)
    requires
        b >= 2,
        x >= 1,
        pow(b, m) <= x,
        x < pow(b, (m + 1) as nat),
    ensures
        m == log_floor(b, x),
{
    let l = log_floor(b, x);
    lemma_log_floor_bracket(b, x);
    if m < l {
        lemma_pow_increases(b as nat, (m + 1) as nat, l);
        assert(false);
    }
    if m > l {
        lemma_pow_increases(b as nat, (l + 1) as nat, m);
        assert(false);
    }
}

/// Computes the ordered stage chain for one camera.
///
/// `width` and `height` are the final pixel size of the last stage (the
/// viewport already multiplied by the resolution-scale factor); `start` is
/// the requested first-stage resolution on the larger axis; `scaling` the
/// per-stage refinement factor.  A degenerate viewport yields no plan, and
/// the camera is skipped for the frame.
pub fn prepare_stages(width: u32, height: u32, start: u32, scaling: u32) -> (r: Option<StagePlan>)
    requires
        scaling >= 2,
    ensures
        (r is None) <==> (width == 0 || height == 0),
        r matches Some(p) ==> stage_plan_matches(
            p,
            width as int,
            height as int,
            start as int,
            scaling as int,
        ),
        r matches Some(p) ==> 1 <= p.first.width <= width && 1 <= p.first.height <= height,
        r matches Some(p) ==> forall|k: int|
            0 <= k < p.mid@.len() ==> 1 <= (#[trigger] p.mid@[k]).width <= width && 1
                <= p.mid@[k].height <= height,
{
    if width == 0 || height == 0 {
        return None;
    }
    let ghost wi = width as int;
    let ghost hi = height as int;
    let ghost sti = start as int;
    let ghost sci = scaling as int;

    let bound_w: u32 = width / scaling;
    let bound_h: u32 = height / scaling;
    let clamp: u32 = if bound_w <= bound_h {
        bound_w
    } else {
        bound_h
    };
    let pre: u32 = if start <= clamp {
        start
    } else {
        clamp
    };
    let st: u32 = if pre >= 1 {
        pre
    } else {
        1
    };
    assert(st == start_res(wi, hi, sti, sci));

    proof {
        lemma_div_nonincreasing(wi, sci);
        lemma_div_nonincreasing(hi, sci);
    }

    let (w0, h0) = if height <= width {
        let d = derived(st, width, height, scaling);
        (st, d)
    } else {
        let d = derived(st, height, width, scaling);
        (d, st)
    };
    assert(w0 == first_width(wi, hi, sti, sci));
    assert(h0 == first_height(wi, hi, sti, sci));
    assert(1 <= w0 <= width && 1 <= h0 <= height);

    let ratio_w: u32 = width / w0;
    let ratio_h: u32 = height / h0;
    let ratio: u32 = if ratio_w <= ratio_h {
        ratio_w
    } else {
        ratio_h
    };
    proof {
        lemma_div_is_ordered(w0 as int, wi, w0 as int);
        lemma_div_by_self(w0 as int);
        lemma_div_is_ordered(h0 as int, hi, h0 as int);
        lemma_div_by_self(h0 as int);
    }
    assert(ratio >= 1);
    assert(ratio == imin(wi / (w0 as int), hi / (h0 as int)));

    let mut mid: Vec<StageSize> = Vec::new();
    let mut sc: u64 = scaling as u64;
    proof {
        lemma_pow0(sci);
        lemma_pow1(sci);
    }
    while sc <= ratio as u64
        invariant
            scaling >= 2,
            1 <= w0 <= width,
            1 <= h0 <= height,
            width >= 1,
            height >= 1,
            ratio >= 1,
            ratio as int == imin(wi / (w0 as int), hi / (h0 as int)),
            wi == width as int,
            hi == height as int,
            sci == scaling as int,
            sc == pow(sci, (mid@.len() + 1) as nat),
            pow(sci, mid@.len() as nat) <= ratio as int,
            forall|k: int|
                0 <= k < mid@.len() ==> (#[trigger] mid@[k]).width == w0 * pow(
                    sci,
                    (k + 1) as nat,
                ) && mid@[k].height == h0 * pow(sci, (k + 1) as nat),
            forall|k: int|
                0 <= k < mid@.len() ==> 1 <= (#[trigger] mid@[k]).width <= width && 1
                    <= mid@[k].height <= height,
        decreases ratio - mid@.len(),
    {
        proof {
            lemma_pow_positive(sci, (mid@.len() + 1) as nat);
            // the stage fits: w0 * sc <= w0 * (width / w0) <= width
            lemma_mul_inequality(sc as int, wi / (w0 as int), w0 as int);
            lemma_remainder_lower(wi, w0 as int);
            lemma_mul_is_commutative(sc as int, w0 as int);
            assert((w0 as int) * (sc as int) <= wi);
            lemma_mul_inequality(sc as int, hi / (h0 as int), h0 as int);
            lemma_remainder_lower(hi, h0 as int);
            lemma_mul_is_commutative(sc as int, h0 as int);
            assert((h0 as int) * (sc as int) <= hi);
            lemma_mul_strictly_positive(w0 as int, sc as int);
            lemma_mul_strictly_positive(h0 as int, sc as int);
            // the exponent stays below the measure bound
            lemma_pow_exceeds(sci, mid@.len() as nat);
        }
        let w: u64 = (w0 as u64) * sc;
        let h: u64 = (h0 as u64) * sc;
        assert(w <= width as u64 && h <= height as u64);
        mid.push(StageSize { width: w as u32, height: h as u32 });
        proof {
            assert(pow(sci, (mid@.len() + 1) as nat) == sci * pow(sci, mid@.len() as nat)) by {
                reveal(pow);
            }
            lemma_mul_is_commutative(sci, pow(sci, mid@.len() as nat));
            lemma_mul_upper_bound(sc as int, 0xFFFF_FFFF, scaling as int, 0xFFFF_FFFF);
        }
        sc = sc * (scaling as u64);
    }
    proof {
        lemma_log_floor_unique(sci, ratio as int, mid@.len() as nat);
    }

    Some(StagePlan { first: StageSize { width: w0, height: h0 }, mid, last: StageSize { width, height } })
}

/// The aspect-preserving first-stage size on the secondary axis, clamped to
/// `[1, secondary / scaling]` (or to 1 when that bound is zero).
fn derived(st: u32, primary: u32, secondary: u32, scaling: u32) -> (r: u32)
    requires
        1 <= st,
        primary >= 1,
        secondary >= 1,
        scaling >= 2,
    ensures
        r == derived_dim(st as int, primary as int, secondary as int, scaling as int),
        1 <= r <= secondary,
{
    proof {
        lemma_mul_upper_bound(st as int, 0xFFFF_FFFF, secondary as int, 0xFFFF_FFFF);
    }
    let a: u128 = (st as u128) * (secondary as u128);
    let b: u128 = primary as u128;
    let rounded: u128 = (2 * a + b) / (2 * b);
    assert(rounded == round_div((st as int) * (secondary as int), primary as int));
    let cap: u32 = secondary / scaling;
    let clipped: u128 = if rounded <= cap as u128 {
        rounded
    } else {
        cap as u128
    };
    let r: u32 = if clipped >= 1 {
        clipped as u32
    } else {
        1
    };
    proof {
        lemma_div_nonincreasing(secondary as int, scaling as int);
    }
    r
}

} // verus!
