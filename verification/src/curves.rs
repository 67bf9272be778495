use vstd::prelude::*;
use vstd::arithmetic::div_mod::{
    lemma_div_is_ordered, lemma_fundamental_div_mod, lemma_div_pos_is_pos,
    lemma_div_by_multiple,
};
use vstd::arithmetic::mul::lemma_mul_inequality;
use crate::SCALE;
use crate::fixed::{mul_fx, div_fx, lemma_mul_fx_le, lemma_mul_fx_mono, lemma_div_anti_mono_divisor};

verus! {

/// Angles are carried as integer counts of a unit such that a full
/// circle is TURN units.  TURN is divisible by 360 (so whole degrees
/// convert exactly) and by every arm count up to four (so evenly
/// spaced arms sit on exact unit boundaries).
pub const TURN: u64 = 1_080_000;

pub const HALF_TURN: u64 = 540_000;

pub const QUARTER_TURN: u64 = 270_000;

/// Angle units per whole degree.
pub const UNITS_PER_DEGREE: u64 = 3_000;

/// Nodes of atan over [0, 1]: atan(i / 16) in angle units.
pub open spec fn spec_atan_node(i: int) -> int {
    if i <= 0 { 0 }
    else if i == 1 { 10729 }
    else if i == 2 { 21375 }
    else if i == 3 { 31859 }
    else if i == 4 { 42109 }
    else if i == 5 { 52062 }
    else if i == 6 { 61668 }
    else if i == 7 { 70888 }
    else if i == 8 { 79695 }
    else if i == 9 { 88073 }
    else if i == 10 { 96016 }
    else if i == 11 { 103526 }
    else if i == 12 { 110610 }
    else if i == 13 { 117282 }
    else if i == 14 { 123558 }
    else if i == 15 { 129457 }
    else { 135000 }
}

fn atan_node(i: u64) -> (r: u64)
    requires
        i <= 16,
    ensures
        r == spec_atan_node(i as int),
{
    if i == 0 { 0 }
    else if i == 1 { 10729 }
    else if i == 2 { 21375 }
    else if i == 3 { 31859 }
    else if i == 4 { 42109 }
    else if i == 5 { 52062 }
    else if i == 6 { 61668 }
    else if i == 7 { 70888 }
    else if i == 8 { 79695 }
    else if i == 9 { 88073 }
    else if i == 10 { 96016 }
    else if i == 11 { 103526 }
    else if i == 12 { 110610 }
    else if i == 13 { 117282 }
    else if i == 14 { 123558 }
    else if i == 15 { 129457 }
    else { 135000 }
}

/// Nodes of exp(-x) over [0, 1]: floor(exp(-i / 16) * SCALE).
pub open spec fn spec_exp_node(i: int) -> int {
    if i <= 0 { 1000000 }
    else if i == 1 { 939413 }
    else if i == 2 { 882496 }
    else if i == 3 { 829029 }
    else if i == 4 { 778800 }
    else if i == 5 { 731615 }
    else if i == 6 { 687289 }
    else if i == 7 { 645648 }
    else if i == 8 { 606530 }
    else if i == 9 { 569782 }
    else if i == 10 { 535261 }
    else if i == 11 { 502831 }
    else if i == 12 { 472366 }
    else if i == 13 { 443747 }
    else if i == 14 { 416862 }
    else if i == 15 { 391605 }
    else { 367879 }
}

fn exp_node(i: u64) -> (r: u64)
    requires
        i <= 16,
    ensures
        r == spec_exp_node(i as int),
{
    if i == 0 { 1000000 }
    else if i == 1 { 939413 }
    else if i == 2 { 882496 }
    else if i == 3 { 829029 }
    else if i == 4 { 778800 }
    else if i == 5 { 731615 }
    else if i == 6 { 687289 }
    else if i == 7 { 645648 }
    else if i == 8 { 606530 }
    else if i == 9 { 569782 }
    else if i == 10 { 535261 }
    else if i == 11 { 502831 }
    else if i == 12 { 472366 }
    else if i == 13 { 443747 }
    else if i == 14 { 416862 }
    else if i == 15 { 391605 }
    else { 367879 }
}

/// Nodes of cos over a quarter turn: floor(cos(i * pi / 32) * SCALE).
pub open spec fn spec_cos_node(i: int) -> int {
    if i <= 0 { 1000000 }
    else if i == 1 { 995184 }
    else if i == 2 { 980785 }
    else if i == 3 { 956940 }
    else if i == 4 { 923879 }
    else if i == 5 { 881921 }
    else if i == 6 { 831469 }
    else if i == 7 { 773010 }
    else if i == 8 { 707106 }
    else if i == 9 { 634393 }
    else if i == 10 { 555570 }
    else if i == 11 { 471396 }
    else if i == 12 { 382683 }
    else if i == 13 { 290284 }
    else if i == 14 { 195090 }
    else if i == 15 { 98017 }
    else { 0 }
}

fn cos_node(i: u64) -> (r: u64)
    requires
        i <= 16,
    ensures
        r == spec_cos_node(i as int),
{
    if i == 0 { 1000000 }
    else if i == 1 { 995184 }
    else if i == 2 { 980785 }
    else if i == 3 { 956940 }
    else if i == 4 { 923879 }
    else if i == 5 { 881921 }
    else if i == 6 { 831469 }
    else if i == 7 { 773010 }
    else if i == 8 { 707106 }
    else if i == 9 { 634393 }
    else if i == 10 { 555570 }
    else if i == 11 { 471396 }
    else if i == 12 { 382683 }
    else if i == 13 { 290284 }
    else if i == 14 { 195090 }
    else if i == 15 { 98017 }
    else { 0 }
}

/// Linear interpolation over an increasing node table, sixteen
/// segments of width `step`, for x in [0, 16 * step].
pub open spec fn spec_interp_up(node: spec_fn(int) -> int, step: int, x: int) -> int {
    let k = x / step;
    if k >= 16 {
        node(16)
    } else {
        node(k) + (node(k + 1) - node(k)) * (x % step) / step
    }
}

/// Linear interpolation over a decreasing node table.
pub open spec fn spec_interp_down(node: spec_fn(int) -> int, step: int, x: int) -> int {
    let k = x / step;
    if k >= 16 {
        node(16)
    } else {
        node(k) - (node(k) - node(k + 1)) * (x % step) / step
    }
}

/// Interpolation over an increasing table stays within the segment's
/// two nodes.
proof fn lemma_interp_up_in_segment(node: spec_fn(int) -> int, step: int, x: int)
    requires
        step > 0,
        0 <= x < 16 * step,
        node(x / step) <= node(x / step + 1),
    ensures
        node(x / step) <= spec_interp_up(node, step, x) <= node(x / step + 1),
{
    let k = x / step;
    let f = x % step;
    assert(k < 16) by {
        if k >= 16 {
            lemma_fundamental_div_mod(x, step);
            lemma_mul_inequality(16, k, step);
            assert(16 * step <= k * step) by (nonlinear_arith)
                requires 16 <= k && step > 0;
        }
    };
    assert(0 <= k) by {
        lemma_div_pos_is_pos(x, step);
    };
    let d = node(k + 1) - node(k);
    assert(0 <= f < step);
    assert(0 <= d * f) by (nonlinear_arith)
        requires d >= 0 && f >= 0;
    lemma_div_is_ordered(0, d * f, step);
    lemma_mul_inequality(f, step, d);
    assert(f * d == d * f) by (nonlinear_arith);
    assert(step * d == d * step) by (nonlinear_arith);
    lemma_div_is_ordered(d * f, d * step, step);
    lemma_div_by_multiple(d, step);
    assert(d * step / step == d);
}

/// Interpolation over an increasing node table is monotone.
pub proof fn lemma_interp_up_mono(node: spec_fn(int) -> int, step: int, x1: int, x2: int)
    requires
        step > 0,
        forall|i: int, j: int| 0 <= i <= j <= 16 ==> #[trigger] node(i) <= #[trigger] node(j),
        0 <= x1 <= x2 <= 16 * step,
    ensures
        spec_interp_up(node, step, x1) <= spec_interp_up(node, step, x2),
{
    let k1 = x1 / step;
    let k2 = x2 / step;
    lemma_div_is_ordered(x1, x2, step);
    lemma_div_pos_is_pos(x1, step);
    assert(k2 <= 16) by {
        lemma_div_is_ordered(x2, 16 * step, step);
        lemma_div_by_multiple(16, step);
        assert(16 * step / step == 16);
    };
    if k1 >= 16 {
        // then x1 == x2 == 16 * step and both sides are node(16)
        assert(x1 == 16 * step) by {
            lemma_fundamental_div_mod(x1, step);
            lemma_mul_inequality(16, k1, step);
            assert(16 * step <= k1 * step) by (nonlinear_arith)
                requires 16 <= k1 && step > 0;
        };
    } else if k2 >= 16 {
        lemma_interp_up_in_segment(node, step, x1);
        assert(node(k1 + 1) <= node(16));
    } else if k1 == k2 {
        let f1 = x1 % step;
        let f2 = x2 % step;
        assert(f1 <= f2) by {
            lemma_fundamental_div_mod(x1, step);
            lemma_fundamental_div_mod(x2, step);
        };
        let d = node(k1 + 1) - node(k1);
        lemma_mul_inequality(f1, f2, d);
        assert(f1 * d == d * f1) by (nonlinear_arith);
        assert(f2 * d == d * f2) by (nonlinear_arith);
        lemma_div_is_ordered(d * f1, d * f2, step);
    } else {
        // k1 < k2 < 16: go through the nodes at the segment borders
        assert(x2 < 16 * step) by {
            if x2 >= 16 * step {
                lemma_div_is_ordered(16 * step, x2, step);
                lemma_div_by_multiple(16, step);
            }
        };
        lemma_interp_up_in_segment(node, step, x1);
        lemma_interp_up_in_segment(node, step, x2);
        assert(node(k1 + 1) <= node(k2));
    }
}

/// Interpolation over an increasing table stays within the table's
/// first and last node.
pub proof fn lemma_interp_up_bounds(node: spec_fn(int) -> int, step: int, x: int)
    requires
        step > 0,
        forall|i: int, j: int| 0 <= i <= j <= 16 ==> #[trigger] node(i) <= #[trigger] node(j),
        0 <= x <= 16 * step,
    ensures
        node(0) <= spec_interp_up(node, step, x) <= node(16),
{
    lemma_interp_up_mono(node, step, 0, x);
    lemma_interp_up_mono(node, step, x, 16 * step);
    assert(spec_interp_up(node, step, 0) == node(0)) by {
        assert(0int / step == 0) by {
            vstd::arithmetic::div_mod::lemma_basic_div(0int, step);
        };
        assert(0int % step == 0) by {
            vstd::arithmetic::div_mod::lemma_small_mod(0nat, step as nat);
        };
        assert(node(0) + (node(1) - node(0)) * 0 / step == node(0)) by {
            assert((node(1) - node(0)) * 0 == 0) by (nonlinear_arith);
            vstd::arithmetic::div_mod::lemma_basic_div(0int, step);
        };
    };
    assert(spec_interp_up(node, step, 16 * step) == node(16)) by {
        lemma_div_by_multiple(16, step);
    };
}

/// A decreasing-table interpolation is the mirror image of an
/// increasing-table one; this flips the node table around node(0).
pub proof fn lemma_interp_down_is_flipped_up(node: spec_fn(int) -> int, step: int, x: int)
    requires
        step > 0,
        0 <= x <= 16 * step,
    ensures
        spec_interp_down(node, step, x)
            == node(0) - spec_interp_up(|i: int| node(0) - node(i), step, x),
{
    let flipped = |i: int| node(0) - node(i);
    let k = x / step;
    lemma_div_pos_is_pos(x, step);
    if k < 16 {
        assert(flipped(k + 1) - flipped(k) == node(k) - node(k + 1));
    }
}

/// Interpolation over a decreasing node table is antitone, and stays
/// within the table's last and first node.
pub proof fn lemma_interp_down_anti_mono(node: spec_fn(int) -> int, step: int, x1: int, x2: int)
    requires
        step > 0,
        forall|i: int, j: int| 0 <= i <= j <= 16 ==> #[trigger] node(j) <= #[trigger] node(i),
        0 <= x1 <= x2 <= 16 * step,
    ensures
        spec_interp_down(node, step, x2) <= spec_interp_down(node, step, x1),
        node(16) <= spec_interp_down(node, step, x1) <= node(0),
{
    let flipped = |i: int| node(0) - node(i);
    assert(forall|i: int, j: int| 0 <= i <= j <= 16 ==> #[trigger] flipped(i) <= #[trigger] flipped(j));
    lemma_interp_down_is_flipped_up(node, step, x1);
    lemma_interp_down_is_flipped_up(node, step, x2);
    lemma_interp_up_mono(flipped, step, x1, x2);
    lemma_interp_up_bounds(flipped, step, x1);
    assert(flipped(0) == 0);
}

/// Step width of the tables over [0, SCALE]: SCALE / 16.
pub const FRAC_STEP: u64 = 62_500;

/// The atan table rises from node to node.
pub proof fn lemma_atan_nodes_increasing()
    ensures
        forall|i: int, j: int| 0 <= i <= j <= 16 ==> #[trigger] spec_atan_node(i) <= #[trigger] spec_atan_node(j),
{
}

/// The exp table falls from node to node.
pub proof fn lemma_exp_nodes_decreasing()
    ensures
        forall|i: int, j: int| 0 <= i <= j <= 16 ==> #[trigger] spec_exp_node(j) <= #[trigger] spec_exp_node(i),
{
}

/// The cos table falls from node to node.
pub proof fn lemma_cos_nodes_decreasing()
    ensures
        forall|i: int, j: int| 0 <= i <= j <= 16 ==> #[trigger] spec_cos_node(j) <= #[trigger] spec_cos_node(i),
{
}

/// atan over [0, 1], by interpolation in the atan table.
pub open spec fn spec_atan_seg(x: int) -> int {
    spec_interp_up(|i: int| spec_atan_node(i), FRAC_STEP as int, x)
}

fn atan_seg(x: u64) -> (r: u64)
    requires
        x <= SCALE,
    ensures
        r == spec_atan_seg(x as int),
        r <= 135000,
{
    proof {
        lemma_atan_nodes_increasing();
        lemma_interp_up_bounds(|i: int| spec_atan_node(i), FRAC_STEP as int, x as int);
    }
    let k = x / FRAC_STEP;
    if k >= 16 {
        135000
    } else {
        let f = x % FRAC_STEP;
        let n0 = atan_node(k);
        let n1 = atan_node(k + 1);
        proof {
            lemma_interp_up_in_segment(|i: int| spec_atan_node(i), FRAC_STEP as int, x as int);
        }
        n0 + (n1 - n0) * f / FRAC_STEP
    }
}

/// atan in angle units, for any nonnegative fixed-point ratio; values
/// above one go through atan(x) = pi/2 - atan(1/x).
pub open spec fn spec_atan(x: int) -> int {
    if x <= SCALE {
        spec_atan_seg(x)
    } else {
        QUARTER_TURN - spec_atan_seg(SCALE as int * SCALE as int / x)
    }
}

pub fn atan_fx(x: u64) -> (r: u64)
    ensures
        r == spec_atan(x as int),
        r <= QUARTER_TURN,
{
    if x <= SCALE {
        atan_seg(x)
    } else {
        let inv = SCALE * SCALE / x;
        proof {
            lemma_div_anti_mono_divisor(SCALE as int * SCALE as int, SCALE as int + 1, x as int);
            assert(SCALE as int * SCALE as int / (SCALE as int + 1) < SCALE as int);
        }
        QUARTER_TURN - atan_seg(inv)
    }
}

/// atan never falls as its argument grows.
pub proof fn lemma_atan_mono(x1: int, x2: int)
    requires
        0 <= x1 <= x2,
    ensures
        spec_atan(x1) <= spec_atan(x2),
        0 <= spec_atan(x1) <= QUARTER_TURN,
{
    let nodes = |i: int| spec_atan_node(i);
    lemma_atan_nodes_increasing();
    let t = SCALE as int * SCALE as int;
    if x2 <= SCALE {
        lemma_interp_up_mono(nodes, FRAC_STEP as int, x1, x2);
        lemma_interp_up_bounds(nodes, FRAC_STEP as int, x1);
        lemma_interp_up_bounds(nodes, FRAC_STEP as int, x2);
    } else if x1 <= SCALE {
        let inv2 = t / x2;
        lemma_div_pos_is_pos(t, x2);
        lemma_div_anti_mono_divisor(t, SCALE as int + 1, x2);
        assert(t / (SCALE as int + 1) < SCALE as int);
        lemma_interp_up_bounds(nodes, FRAC_STEP as int, x1);
        lemma_interp_up_bounds(nodes, FRAC_STEP as int, inv2);
    } else {
        let inv1 = t / x1;
        let inv2 = t / x2;
        lemma_div_pos_is_pos(t, x1);
        lemma_div_pos_is_pos(t, x2);
        lemma_div_anti_mono_divisor(t, SCALE as int + 1, x1);
        assert(t / (SCALE as int + 1) < SCALE as int);
        lemma_div_anti_mono_divisor(t, SCALE as int + 1, x2);
        lemma_div_anti_mono_divisor(t, x1, x2);
        lemma_interp_up_mono(nodes, FRAC_STEP as int, inv2, inv1);
        lemma_interp_up_bounds(nodes, FRAC_STEP as int, inv1);
        lemma_interp_up_bounds(nodes, FRAC_STEP as int, inv2);
    }
}

/// Fixed-point value of exp(-1), the last node of the exp table.
pub const ENEG1: u64 = 367_879;

/// exp(-n) for whole n, as the n-fold fixed-point product of exp(-1).
pub open spec fn spec_exp_unit(n: nat) -> int
    decreases n,
{
    if n == 0 {
        SCALE as int
    } else {
        spec_exp_unit((n - 1) as nat) * ENEG1 as int / SCALE as int
    }
}

/// exp(-n) stays within [0, SCALE] and never rises with n.
pub proof fn lemma_exp_unit_bounds(n1: nat, n2: nat)
    requires
        n1 <= n2,
    ensures
        0 <= spec_exp_unit(n2) <= spec_exp_unit(n1) <= SCALE,
    decreases n2,
{
    if n2 == 0 {
    } else if n1 == n2 {
        lemma_exp_unit_bounds(0, (n2 - 1) as nat);
        lemma_mul_fx_le(spec_exp_unit((n2 - 1) as nat), ENEG1 as int);
    } else {
        lemma_exp_unit_bounds(n1, (n2 - 1) as nat);
        lemma_mul_fx_le(spec_exp_unit((n2 - 1) as nat), ENEG1 as int);
    }
}

fn exp_unit(n: u64) -> (r: u64)
    requires
        n <= 16,
    ensures
        r == spec_exp_unit(n as nat),
        r <= SCALE,
{
    let mut acc: u64 = SCALE;
    let mut i: u64 = 0;
    while i < n
        invariant
            i <= n,
            acc == spec_exp_unit(i as nat),
            acc <= SCALE,
        decreases n - i,
    {
        proof {
            lemma_mul_fx_le(acc as int, ENEG1 as int);
        }
        acc = mul_fx(acc, ENEG1);
        i = i + 1;
    }
    acc
}

/// exp(-x) over [0, 1], by interpolation in the exp table.
pub open spec fn spec_exp_frac(x: int) -> int {
    spec_interp_down(|i: int| spec_exp_node(i), FRAC_STEP as int, x)
}

fn exp_frac(x: u64) -> (r: u64)
    requires
        x <= SCALE,
    ensures
        r == spec_exp_frac(x as int),
        ENEG1 <= r <= SCALE,
{
    proof {
        lemma_exp_nodes_decreasing();
        lemma_interp_down_anti_mono(
            |i: int| spec_exp_node(i), FRAC_STEP as int, x as int, x as int);
    }
    let k = x / FRAC_STEP;
    if k >= 16 {
        367879
    } else {
        let f = x % FRAC_STEP;
        let n0 = exp_node(k);
        let n1 = exp_node(k + 1);
        let d = n0 - n1;
        proof {
            lemma_div_is_ordered(0, d as int * f as int, FRAC_STEP as int);
            lemma_mul_inequality(f as int, FRAC_STEP as int, d as int);
            assert(f as int * d as int == d as int * f as int) by (nonlinear_arith);
            assert(FRAC_STEP as int * d as int == d as int * FRAC_STEP as int)
                by (nonlinear_arith);
            lemma_div_is_ordered(
                d as int * f as int, d as int * FRAC_STEP as int, FRAC_STEP as int);
            lemma_div_by_multiple(d as int, FRAC_STEP as int);
            assert(d as int * f as int >= 0) by (nonlinear_arith)
                requires d >= 0 && f >= 0;
        }
        n0 - d * f / FRAC_STEP
    }
}

/// exp(-x) for any nonnegative fixed-point x; zero from 16 on, where
/// the true value falls below one millionth.
pub open spec fn spec_exp_neg(x: int) -> int {
    let n = x / SCALE as int;
    if n >= 16 {
        0
    } else {
        spec_exp_unit(n as nat) * spec_exp_frac(x % SCALE as int) / SCALE as int
    }
}

pub fn exp_neg(x: u64) -> (r: u64)
    ensures
        r == spec_exp_neg(x as int),
        r <= SCALE,
{
    let n = x / SCALE;
    if n >= 16 {
        0
    } else {
        let e = exp_unit(n);
        let l = exp_frac(x % SCALE);
        proof {
            lemma_mul_fx_le(e as int, l as int);
        }
        mul_fx(e, l)
    }
}

/// exp(-x) never rises as x grows, and stays within [0, SCALE].
pub proof fn lemma_exp_neg_anti_mono(x1: int, x2: int)
    requires
        0 <= x1 <= x2,
    ensures
        spec_exp_neg(x2) <= spec_exp_neg(x1),
        0 <= spec_exp_neg(x1) <= SCALE,
{
    let s = SCALE as int;
    let enodes = |i: int| spec_exp_node(i);
    let n1 = x1 / s;
    let n2 = x2 / s;
    let f1 = x1 % s;
    let f2 = x2 % s;
    lemma_exp_nodes_decreasing();
    lemma_div_is_ordered(x1, x2, s);
    lemma_div_pos_is_pos(x1, s);
    vstd::arithmetic::div_mod::lemma_remainder_lower(x1, s);
    vstd::arithmetic::div_mod::lemma_remainder_upper(x1, s);
    lemma_interp_down_anti_mono(enodes, FRAC_STEP as int, f1, f1);
    lemma_interp_down_anti_mono(enodes, FRAC_STEP as int, f2, f2);
    if n1 < 16 {
        lemma_exp_unit_bounds(0, n1 as nat);
        let e1 = spec_exp_unit(n1 as nat);
        let l1 = spec_exp_frac(f1);
        assert(e1 * l1 >= 0) by (nonlinear_arith)
            requires e1 >= 0 && l1 >= 0;
        lemma_div_is_ordered(0, e1 * l1, s);
        lemma_mul_fx_le(e1, l1);
        if n2 < 16 {
            let e2 = spec_exp_unit(n2 as nat);
            let l2 = spec_exp_frac(f2);
            lemma_exp_unit_bounds(n1 as nat, n2 as nat);
            if n1 == n2 {
                lemma_interp_down_anti_mono(enodes, FRAC_STEP as int, f1, f2);
                lemma_mul_fx_mono(l2, l1, e1);
                assert(l2 * e1 == e1 * l2) by (nonlinear_arith);
                assert(l1 * e1 == e1 * l1) by (nonlinear_arith);
            } else {
                // down a whole step: through exp(-(n1 + 1))
                lemma_exp_unit_bounds((n1 + 1) as nat, n2 as nat);
                lemma_mul_fx_mono(ENEG1 as int, l1, e1);
                assert(ENEG1 as int * e1 == e1 * ENEG1 as int) by (nonlinear_arith);
                assert(l1 * e1 == e1 * l1) by (nonlinear_arith);
                assert(spec_exp_unit((n1 + 1) as nat) == e1 * ENEG1 as int / s);
                lemma_mul_fx_le(e2, l2);
            }
        }
    } else {
        assert(n2 >= 16);
    }
}

/// Step width of the cosine table over [0, QUARTER_TURN].
pub const COS_STEP: u64 = 16_875;

/// cos over the first quarter turn, by interpolation in the cos table.
pub open spec fn spec_cos_quarter(a: int) -> int {
    spec_interp_down(|i: int| spec_cos_node(i), COS_STEP as int, a)
}

fn cos_quarter(a: u64) -> (r: u64)
    requires
        a <= QUARTER_TURN,
    ensures
        r == spec_cos_quarter(a as int),
        r <= SCALE,
{
    proof {
        lemma_cos_nodes_decreasing();
        lemma_interp_down_anti_mono(
            |i: int| spec_cos_node(i), COS_STEP as int, a as int, a as int);
    }
    let k = a / COS_STEP;
    if k >= 16 {
        0
    } else {
        let f = a % COS_STEP;
        let n0 = cos_node(k);
        let n1 = cos_node(k + 1);
        let d = n0 - n1;
        proof {
            lemma_div_is_ordered(0, d as int * f as int, COS_STEP as int);
            lemma_mul_inequality(f as int, COS_STEP as int, d as int);
            assert(f as int * d as int == d as int * f as int) by (nonlinear_arith);
            assert(COS_STEP as int * d as int == d as int * COS_STEP as int)
                by (nonlinear_arith);
            lemma_div_is_ordered(
                d as int * f as int, d as int * COS_STEP as int, COS_STEP as int);
            lemma_div_by_multiple(d as int, COS_STEP as int);
            assert(d as int * f as int >= 0) by (nonlinear_arith)
                requires d >= 0 && f >= 0;
        }
        n0 - d * f / COS_STEP
    }
}

/// Magnitude of cos for an angle within one turn.
pub open spec fn spec_cos_mag(a: int) -> int {
    let q = a / QUARTER_TURN as int;
    let rem = a % QUARTER_TURN as int;
    if q == 0 || q == 2 {
        spec_cos_quarter(rem)
    } else {
        spec_cos_quarter(QUARTER_TURN as int - rem)
    }
}

/// Sign of cos for an angle within one turn: true means negative.
pub open spec fn spec_cos_is_neg(a: int) -> bool {
    let q = a / QUARTER_TURN as int;
    q == 1 || q == 2
}

/// cos of an angle in units, as a magnitude and a sign.
pub fn cos_units(a: u64) -> (r: (u64, bool))
    requires
        a < TURN,
    ensures
        r.0 == spec_cos_mag(a as int),
        r.1 == spec_cos_is_neg(a as int),
        r.0 <= SCALE,
{
    let q = a / QUARTER_TURN;
    let rem = a % QUARTER_TURN;
    let mag = if q == 0 || q == 2 {
        cos_quarter(rem)
    } else {
        cos_quarter(QUARTER_TURN - rem)
    };
    (mag, q == 1 || q == 2)
}

/// sin of an angle in units, as cos shifted by a quarter turn.
pub fn sin_units(a: u64) -> (r: (u64, bool))
    requires
        a < TURN,
    ensures
        r.0 == spec_cos_mag((a + 3 * QUARTER_TURN as int) % TURN as int),
        r.1 == spec_cos_is_neg((a + 3 * QUARTER_TURN as int) % TURN as int),
        r.0 <= SCALE,
{
    let shifted = (a + 3 * QUARTER_TURN) % TURN;
    cos_units(shifted)
}

/// Angle of the point (x, z), measured in units from the positive z
/// axis toward the positive x axis, in [0, TURN].
pub open spec fn spec_atan2(x: int, z: int) -> int {
    if x == 0 && z == 0 {
        0
    } else if x >= 0 && z > 0 {
        spec_atan(x * SCALE as int / z)
    } else if x > 0 && z <= 0 {
        QUARTER_TURN + spec_atan((-z) * SCALE as int / x)
    } else if x <= 0 && z < 0 {
        HALF_TURN + spec_atan((-x) * SCALE as int / (-z))
    } else {
        3 * QUARTER_TURN as int + spec_atan(z * SCALE as int / (-x))
    }
}

/// Largest coordinate magnitude the angle and length helpers accept.
pub const COORD_MAX: u64 = 3_000_000_000;

pub fn atan2_units(x: i64, z: i64) -> (r: u64)
    requires
        -(COORD_MAX as int) <= x as int <= COORD_MAX as int,
        -(COORD_MAX as int) <= z as int <= COORD_MAX as int,
    ensures
        r == spec_atan2(x as int, z as int),
        r <= TURN,
{
    let ax: u64 = if x < 0 { (-x) as u64 } else { x as u64 };
    let az: u64 = if z < 0 { (-z) as u64 } else { z as u64 };
    if ax == 0 && az == 0 {
        0
    } else if x >= 0 && z > 0 {
        atan_fx(div_fx(ax, az))
    } else if x > 0 && z <= 0 {
        QUARTER_TURN + atan_fx(div_fx(az, ax))
    } else if x <= 0 && z < 0 {
        HALF_TURN + atan_fx(div_fx(ax, az))
    } else {
        3 * QUARTER_TURN + atan_fx(div_fx(az, ax))
    }
}

} // verus!
