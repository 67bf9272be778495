use vstd::prelude::*;
use vstd::arithmetic::div_mod::{
    lemma_div_is_ordered, lemma_div_by_multiple, lemma_div_pos_is_pos, lemma_small_mod,
    lemma_mod_self_0,
};
use vstd::arithmetic::mul::lemma_mul_inequality;
use crate::SCALE;
use crate::fixed::{
    mul_fx, div_fx, sat_sub, min64, sqrt_fx, pow_fx, isqrt, spec_pow_fx, spec_isqrt,
    lemma_mul_fx_le, lemma_mul_fx_mono, lemma_div_mono, lemma_div_anti_mono_divisor,
    lemma_isqrt_le, lemma_pow_fx_bounded,
};
use crate::curves::{
    TURN, HALF_TURN, QUARTER_TURN, COORD_MAX, atan_fx, exp_neg, atan2_units,
    spec_atan, spec_exp_neg, spec_atan2, lemma_atan_mono, lemma_exp_neg_anti_mono,
};
use crate::config::{GalaxyConfig, ComponentConfig};

verus! {

/// Offset added to the normalized radius so the winding function has
/// no singularity at the galactic center: 0.05.
pub const WINDING_EPS: u64 = 50_000;

/// Numerator constant of the winding function: 0.5, used identically
/// by the evaluator, the baker and the lookup texture, which all must
/// agree on the same field.
pub const WINDING_K: u64 = 500_000;

/// Ceiling of the radial shape term: 0.1.
pub const RADIAL_CLAMP: u64 = 100_000;

/// Amount subtracted from the radial exponential before clamping: 0.01.
pub const RADIAL_OFFSET: u64 = 10_000;

/// Normalized heights above this yield zero density: 2.0.
pub const HEIGHT_LIMIT: u64 = 2_000_000;

/// Cumulative spiral twist, in angle units, at normalized radius d:
/// atan(exp(-k / (d + eps)) / winding_b) * 2 * winding_n.  A zero
/// winding_b is read as the limit of the quotient, a quarter turn.
pub open spec fn spec_rad_winding(g: GalaxyConfig, d: int) -> int {
    let r = d + WINDING_EPS;
    let t = WINDING_K * SCALE as int / r;
    let u = spec_exp_neg(t);
    let v = if g.winding_b == 0 {
        QUARTER_TURN as int
    } else {
        spec_atan(u * SCALE as int / g.winding_b as int)
    };
    v * (2 * g.winding_n as int) / SCALE as int
}

/// Wrapped angular distance between two angles, normalized by a half
/// turn into [0, 1].
pub open spec fn spec_theta_diff(t1: int, t2: int) -> int {
    let d = (if t1 >= t2 { t1 - t2 } else { t2 - t1 }) % TURN as int;
    let w = if d > HALF_TURN { TURN as int - d } else { d };
    w * SCALE as int / HALF_TURN as int
}

/// Angular coordinate consumed by the arm search: the negated point
/// angle, shifted by the component's rotational bias, within one turn.
pub open spec fn spec_theta(x: int, z: int, angular_offset: int) -> int {
    (TURN as int - (spec_atan2(x, z) + angular_offset) % TURN as int) % TURN as int
}

/// The arm-sharpness exponent arm_width * 15, counted in quarters.
pub open spec fn spec_arm_exponent(c: ComponentConfig) -> int {
    c.arm_width * 60 / SCALE as int
}

/// Fourth root of a fixed-point value in [0, 1].
pub open spec fn spec_qroot(b: int) -> int {
    spec_isqrt((spec_isqrt((b * SCALE) as nat) * SCALE as int) as nat) as int
}

/// Proximity modifier of a single arm whose angular locus is
/// `target`: (1 - wrapped distance)^(arm_width * 15), the power taken
/// in quarter steps through a fourth root.
pub open spec fn spec_one_arm(c: ComponentConfig, winding: int, target: int) -> int {
    let v = spec_theta_diff(winding, target);
    spec_pow_fx(spec_qroot(SCALE as int - v), spec_arm_exponent(c) as nat)
}

/// Largest arm modifier among the first n arms.
pub open spec fn spec_arms_max(
    g: GalaxyConfig, c: ComponentConfig, winding: int, theta: int, n: int,
) -> int
    decreases n,
{
    if n <= 0 {
        0
    } else {
        let prev = spec_arms_max(g, c, winding, theta, n - 1);
        let cur = spec_one_arm(c, winding, theta + g.arm_offsets@[n - 1]);
        if cur > prev {
            cur
        } else {
            prev
        }
    }
}

/// Largest arm modifier among all active arms; zero when no arm is
/// active.
pub open spec fn spec_arms_modifier(
    g: GalaxyConfig, c: ComponentConfig, winding: int, theta: int,
) -> int {
    spec_arms_max(g, c, winding, theta, g.n_arms as int)
}

/// Hermite ramp from edge0 to edge1, quartic-shaped later by the
/// central falloff.  A collapsed ramp (edge1 <= edge0) is read as
/// complete.
pub open spec fn spec_smoothstep(edge0: int, edge1: int, x: int) -> int {
    let s = if edge1 <= edge0 {
        SCALE as int
    } else if x <= edge0 {
        0
    } else if x - edge0 >= edge1 - edge0 {
        SCALE as int
    } else {
        (x - edge0) * SCALE as int / (edge1 - edge0)
    };
    s * s / SCALE as int * (3 * SCALE as int - 2 * s) / SCALE as int
}

/// Quartic central falloff: smoothstep(0, radial_dropoff, d)^4.
pub open spec fn spec_central_falloff(c: ComponentConfig, d: int) -> int {
    let ss = spec_smoothstep(0, c.radial_dropoff as int, d);
    let p2 = ss * ss / SCALE as int;
    p2 * p2 / SCALE as int
}

/// Radial shape term: clamp(exp(-d / (r0 * 0.5)) - 0.01, 0, 0.1), and
/// zero for a degenerate extent.
pub open spec fn spec_radial_intensity(d: int, r0: int) -> int {
    if r0 <= 0 {
        0
    } else {
        let e = if d >= 8 * r0 { 0 } else { spec_exp_neg(2 * d * SCALE as int / r0) };
        let shifted = if e >= RADIAL_OFFSET { e - RADIAL_OFFSET } else { 0 };
        if shifted <= RADIAL_CLAMP { shifted } else { RADIAL_CLAMP as int }
    }
}

/// Vertical profile sech(h)^2 of the normalized height h, cut to
/// zero beyond HEIGHT_LIMIT scale heights exactly (the heights are
/// compared as products, before any rounding); zero when thickness or
/// radius degenerates.
pub open spec fn spec_height_modulation(g: GalaxyConfig, c: ComponentConfig, y: int) -> int {
    let denom = c.y_thickness * g.radius / SCALE as int;
    if denom <= 0 {
        0
    } else {
        let ay = if y >= 0 { y } else { -y };
        if ay * SCALE as int > HEIGHT_LIMIT as int * denom {
            0
        } else {
            let h = ay * SCALE as int / denom;
            let q = spec_exp_neg(2 * h);
            4 * q * SCALE as int * SCALE as int / ((SCALE as int + q) * (SCALE as int + q))
        }
    }
}

/// Planar density at polar coordinates (d, theta): central falloff
/// times arm modifier times radial shape.
pub open spec fn spec_xz_density_polar(
    g: GalaxyConfig, c: ComponentConfig, d: int, theta: int,
) -> int {
    let cf = spec_central_falloff(c, d);
    let arm = spec_arms_modifier(g, c, spec_rad_winding(g, d), theta);
    let rad = spec_radial_intensity(d, c.radial_extent as int);
    cf * arm / SCALE as int * rad / SCALE as int
}

/// Planar density at cartesian coordinates, zero for a degenerate
/// radius.
pub open spec fn spec_xz_density(g: GalaxyConfig, c: ComponentConfig, x: int, z: int) -> int {
    if g.radius == 0 {
        0
    } else {
        let len = spec_isqrt((x * x + z * z) as nat);
        let d = len * SCALE as int / g.radius as int;
        spec_xz_density_polar(g, c, d, spec_theta(x, z, c.angular_offset as int))
    }
}

/// Spatial density: the planar density modulated by the vertical
/// profile.
pub open spec fn spec_xyz_density(
    g: GalaxyConfig, c: ComponentConfig, x: int, y: int, z: int,
) -> int {
    spec_xz_density(g, c, x, z) * spec_height_modulation(g, c, y) / SCALE as int
}

/// The pure density field evaluator for one (galaxy, component) pair.
/// It holds no mutable state: every method is a function of the two
/// borrowed parameter sets and its arguments alone.
pub struct GalaxyComponentDensity<'a> {
    galaxy: &'a GalaxyConfig,
    component: &'a ComponentConfig,
}

/// The cubic bound behind smoothstep staying within [0, SCALE].
proof fn lemma_smoothstep_cube_le(s: int)
    requires
        0 <= s <= SCALE,
    ensures
        s * s / SCALE as int * (3 * SCALE as int - 2 * s) / SCALE as int <= SCALE,
        s * s / SCALE as int * (3 * SCALE as int - 2 * s) / SCALE as int >= 0,
{
    let sc = SCALE as int;
    let p = s * s / sc;
    lemma_mul_fx_le(s, s);
    assert(0 <= p <= s);
    let m = 3 * sc - 2 * s;
    assert(0 <= m);
    assert(p * m >= 0) by (nonlinear_arith)
        requires p >= 0 && m >= 0;
    lemma_div_is_ordered(0, p * m, sc);
    // p * m <= s * s * (3 sc - 2 s) / sc and the cubic is at most sc^3
    assert(s * s * (3 * sc - 2 * s) <= sc * sc * sc) by (nonlinear_arith)
        requires 0 <= s <= sc;
    // p <= s * s / sc exactly, so p * m <= (s * s) * m / sc ... work via sc * p <= s * s
    vstd::arithmetic::div_mod::lemma_fundamental_div_mod(s * s, sc);
    assert(sc * p <= s * s);
    assert(p * m * sc <= s * s * m) by (nonlinear_arith)
        requires sc * p <= s * s && m >= 0 && sc > 0;
    assert(s * s * m <= sc * sc * sc) by (nonlinear_arith)
        requires s * s * (3 * sc - 2 * s) <= sc * sc * sc && m == 3 * sc - 2 * s;
    assert(p * m <= sc * sc) by (nonlinear_arith)
        requires p * m * sc <= sc * sc * sc && sc > 0;
    lemma_div_is_ordered(p * m, sc * sc, sc);
    lemma_div_by_multiple(sc, sc);
}

/// smoothstep stays within [0, SCALE].
pub proof fn lemma_smoothstep_bounds(edge0: int, edge1: int, x: int)
    ensures
        0 <= spec_smoothstep(edge0, edge1, x) <= SCALE,
{
    let s = if edge1 <= edge0 {
        SCALE as int
    } else if x <= edge0 {
        0
    } else if x - edge0 >= edge1 - edge0 {
        SCALE as int
    } else {
        (x - edge0) * SCALE as int / (edge1 - edge0)
    };
    if !(edge1 <= edge0) && edge0 < x && x - edge0 < edge1 - edge0 {
        lemma_div_pos_is_pos((x - edge0) * SCALE as int, edge1 - edge0);
        assert((x - edge0) * SCALE as int >= 0) by (nonlinear_arith)
            requires x - edge0 >= 0;
        assert((x - edge0) * SCALE as int <= (edge1 - edge0) * SCALE as int) by (nonlinear_arith)
            requires x - edge0 <= edge1 - edge0;
        lemma_div_is_ordered(
            (x - edge0) * SCALE as int, (edge1 - edge0) * SCALE as int, edge1 - edge0);
        assert((edge1 - edge0) * SCALE as int / (edge1 - edge0) == SCALE as int) by {
            assert((edge1 - edge0) * SCALE as int == SCALE as int * (edge1 - edge0))
                by (nonlinear_arith);
            lemma_div_by_multiple(SCALE as int, edge1 - edge0);
        };
    }
    assert(0 <= s <= SCALE);
    lemma_smoothstep_cube_le(s);
}

/// The Hermite ramp, in executable form.
fn smoothstep(edge0: u64, edge1: u64, x: u64) -> (r: u64)
    requires
        edge0 <= SCALE,
        edge1 <= SCALE,
        x <= 100_000_000_000_000_000,
    ensures
        r == spec_smoothstep(edge0 as int, edge1 as int, x as int),
        r <= SCALE,
{
    proof {
        lemma_smoothstep_bounds(edge0 as int, edge1 as int, x as int);
    }
    let s: u64 = if edge1 <= edge0 {
        SCALE
    } else if x <= edge0 {
        0
    } else if x - edge0 >= edge1 - edge0 {
        SCALE
    } else {
        let num = (x - edge0) * SCALE;
        proof {
            lemma_mul_inequality(x as int - edge0 as int, edge1 as int - edge0 as int,
                SCALE as int);
            lemma_div_is_ordered(num as int, (edge1 as int - edge0 as int) * SCALE as int,
                edge1 as int - edge0 as int);
            assert((edge1 as int - edge0 as int) * SCALE as int
                == SCALE as int * (edge1 as int - edge0 as int)) by (nonlinear_arith);
            lemma_div_by_multiple(SCALE as int, edge1 as int - edge0 as int);
        }
        num / (edge1 - edge0)
    };
    proof {
        lemma_smoothstep_cube_le(s as int);
        lemma_mul_fx_le(s as int, s as int);
    }
    let p2 = s * s / SCALE;
    p2 * (3 * SCALE - 2 * s) / SCALE
}

impl<'a> GalaxyComponentDensity<'a> {
    /// Pair a galaxy with one of its components for evaluation.
    pub fn new(config: &'a GalaxyConfig, component: &'a ComponentConfig) -> (r:
        GalaxyComponentDensity<'a>)
        ensures
            r.galaxy() == *config,
            r.component() == *component,
    {
        GalaxyComponentDensity { galaxy: config, component }
    }

    /// The galaxy parameters this evaluator reads.
    pub closed spec fn galaxy(self) -> GalaxyConfig {
        *self.galaxy
    }

    /// The component parameters this evaluator reads.
    pub closed spec fn component(self) -> ComponentConfig {
        *self.component
    }

    /// Winding value at a normalized radial distance from the center.
    pub fn rad_winding(&self, d: u64) -> (r: u64)
        requires
            self.galaxy().wf(),
            d <= 10_000_000_000_000_000,
        ensures
            r == spec_rad_winding(self.galaxy(), d as int),
    {
        let r = d + WINDING_EPS;
        let t = div_fx(WINDING_K, r);
        proof {
            lemma_div_anti_mono_divisor(
                WINDING_K as int * SCALE as int, WINDING_EPS as int, r as int);
        }
        let u = exp_neg(t);
        let v = if self.galaxy.winding_b == 0 {
            QUARTER_TURN
        } else {
            atan_fx(div_fx(u, self.galaxy.winding_b))
        };
        proof {
            assert(v as int * (2 * self.galaxy.winding_n as int)
                <= 270_000 * 2_000_000_000) by (nonlinear_arith)
                requires
                    0 <= v as int <= 270_000
                        && 0 <= self.galaxy.winding_n as int <= 1_000_000_000;
            lemma_div_mono(v as int * (2 * self.galaxy.winding_n as int),
                270_000int * 2_000_000_000, SCALE as int);
        }
        mul_fx(v, 2 * self.galaxy.winding_n)
    }

    /// Winding value at a planar position.
    pub fn pos_winding(&self, x: i64, z: i64) -> (r: u64)
        requires
            self.galaxy().wf(),
            -(COORD_MAX as int) <= x as int <= COORD_MAX as int,
            -(COORD_MAX as int) <= z as int <= COORD_MAX as int,
        ensures
            r == if self.galaxy().radius == 0 {
                0
            } else {
                spec_rad_winding(
                    self.galaxy(),
                    spec_isqrt((x * x + z * z) as nat) * SCALE as int
                        / self.galaxy().radius as int)
            },
    {
        if self.galaxy.radius == 0 {
            return 0;
        }
        let ax: u64 = if x < 0 { (-x) as u64 } else { x as u64 };
        let az: u64 = if z < 0 { (-z) as u64 } else { z as u64 };
        proof {
            assert(ax as int * ax as int == x as int * x as int) by (nonlinear_arith)
                requires ax as int == x as int || ax as int == -(x as int);
            assert(az as int * az as int == z as int * z as int) by (nonlinear_arith)
                requires az as int == z as int || az as int == -(z as int);
            assert(ax as int * ax as int <= COORD_MAX as int * COORD_MAX as int)
                by (nonlinear_arith)
                requires 0 <= ax as int <= COORD_MAX as int;
            assert(az as int * az as int <= COORD_MAX as int * COORD_MAX as int)
                by (nonlinear_arith)
                requires 0 <= az as int <= COORD_MAX as int;
        }
        let len = isqrt(ax * ax + az * az);
        proof {
            lemma_isqrt_le(((ax * ax + az * az)) as nat, 5_000_000_000nat);
            lemma_div_mono(
                len as int * SCALE as int,
                5_000_000_000 * SCALE as int,
                self.galaxy.radius as int);
        }
        let d = div_fx(len, self.galaxy.radius);
        self.rad_winding(d)
    }

    /// Wrapped angular distance, normalized by a half turn.
    fn find_theta_difference(&self, t1: u64, t2: u64) -> (r: u64)
        ensures
            r == spec_theta_diff(t1 as int, t2 as int),
            r <= SCALE,
    {
        let diff = if t1 >= t2 { t1 - t2 } else { t2 - t1 };
        let d = diff % TURN;
        let w = if d > HALF_TURN { TURN - d } else { d };
        proof {
            lemma_div_mono(
                w as int * SCALE as int,
                HALF_TURN as int * SCALE as int,
                HALF_TURN as int);
            assert(HALF_TURN as int * SCALE as int == SCALE as int * HALF_TURN as int)
                by (nonlinear_arith);
            lemma_div_by_multiple(SCALE as int, HALF_TURN as int);
            lemma_div_pos_is_pos(w as int * SCALE as int, HALF_TURN as int);
            assert(w as int * SCALE as int >= 0) by (nonlinear_arith)
                requires w >= 0;
        }
        w * SCALE / HALF_TURN
    }

    /// Radial shape term at normalized distance d with extent r0.
    fn get_radial_intensity(&self, distance: u64, r0: u64) -> (r: u64)
        requires
            r0 <= SCALE,
        ensures
            r == spec_radial_intensity(distance as int, r0 as int),
            r <= RADIAL_CLAMP,
    {
        if r0 == 0 {
            return 0;
        }
        let e: u64 = if distance >= 8 * r0 {
            0
        } else {
            exp_neg(2 * distance * SCALE / r0)
        };
        let shifted = sat_sub(e, RADIAL_OFFSET);
        min64(shifted, RADIAL_CLAMP)
    }

    /// Proximity modifier of the angularly closest active arm at the
    /// given winding value and angular coordinate.
    fn arms_modifier_polar(&self, winding: u64, theta: u64) -> (r: u64)
        requires
            self.galaxy().wf(),
            self.component().wf(),
            theta <= 2 * TURN,
        ensures
            r == spec_arms_modifier(
                self.galaxy(), self.component(), winding as int, theta as int),
            r <= SCALE,
    {
        let exponent: u32 = (self.component.arm_width * 60 / SCALE) as u32;
        let mut highest: u64 = 0;
        let n = self.galaxy.n_arms;
        let mut arm_id: u64 = 0;
        while arm_id < n
            invariant
                self.galaxy().wf(),
                self.component().wf(),
                theta <= 2 * TURN,
                arm_id <= n,
                n == self.galaxy().n_arms,
                exponent == spec_arm_exponent(self.component()),
                highest == spec_arms_max(
                    self.galaxy(), self.component(), winding as int, theta as int,
                    arm_id as int),
                highest <= SCALE,
            decreases n - arm_id,
        {
            let disp = self.galaxy.arm_offsets[arm_id as usize];
            let v = self.find_theta_difference(winding, theta + disp);
            let base = SCALE - v;
            let q1 = sqrt_fx(base);
            proof {
                lemma_isqrt_le((base * SCALE) as nat, SCALE as nat);
            }
            let q2 = sqrt_fx(q1);
            proof {
                lemma_isqrt_le((q1 * SCALE) as nat, SCALE as nat);
            }
            let arm = pow_fx(q2, exponent);
            if arm > highest {
                highest = arm;
            }
            arm_id = arm_id + 1;
        }
        highest
    }

    /// Vertical profile of the component at height y.
    fn get_height_modulation(&self, height: i64) -> (r: u64)
        requires
            self.galaxy().wf(),
            self.component().wf(),
            -(COORD_MAX as int) <= height as int <= COORD_MAX as int,
        ensures
            r == spec_height_modulation(self.galaxy(), self.component(), height as int),
            r <= SCALE,
    {
        proof {
            assert(self.component.y_thickness as int * self.galaxy.radius as int
                <= 1_000_000 * 1_000_000_000int) by (nonlinear_arith)
                requires
                    0 <= self.component.y_thickness as int <= 1_000_000
                        && 0 <= self.galaxy.radius as int <= 1_000_000_000;
            lemma_div_mono(
                self.component.y_thickness as int * self.galaxy.radius as int,
                1_000_000 * 1_000_000_000int, SCALE as int);
        }
        let denom = mul_fx(self.component.y_thickness, self.galaxy.radius);
        if denom == 0 {
            return 0;
        }
        let ay: u64 = if height < 0 { (-height) as u64 } else { height as u64 };
        // compare products, so the cut sits exactly at the band edge
        if ay * SCALE > HEIGHT_LIMIT * denom {
            return 0;
        }
        proof {
            lemma_div_mono(ay as int * SCALE as int,
                HEIGHT_LIMIT as int * denom as int, denom as int);
            assert(HEIGHT_LIMIT as int * denom as int
                == denom as int * HEIGHT_LIMIT as int) by (nonlinear_arith);
            lemma_div_by_multiple(HEIGHT_LIMIT as int, denom as int);
        }
        let h = div_fx(ay, denom);
        let q = exp_neg(2 * h);
        let dsum = SCALE + q;
        proof {
            let qi = q as int;
            let sc = SCALE as int;
            assert(4 * qi * sc * sc <= (sc + qi) * (sc + qi) * sc) by (nonlinear_arith)
                requires 0 <= qi <= sc;
            assert((sc + qi) * (sc + qi) > 0) by (nonlinear_arith)
                requires qi >= 0 && sc > 0;
            assert(dsum as int * dsum as int <= 4_000_000_000_000) by (nonlinear_arith)
                requires 0 < dsum as int <= 2_000_000;
            lemma_div_is_ordered(4 * qi * sc * sc, (sc + qi) * (sc + qi) * sc,
                (sc + qi) * (sc + qi));
            assert((sc + qi) * (sc + qi) * sc / ((sc + qi) * (sc + qi)) == sc) by {
                lemma_div_by_multiple(sc, (sc + qi) * (sc + qi));
                assert((sc + qi) * (sc + qi) * sc == sc * ((sc + qi) * (sc + qi)))
                    by (nonlinear_arith);
            };
            assert(4 * qi * sc * sc >= 0) by (nonlinear_arith)
                requires qi >= 0;
            lemma_div_pos_is_pos(4 * qi * sc * sc, (sc + qi) * (sc + qi));
            assert(dsum as int * dsum as int == (sc + qi) * (sc + qi));
        }
        4 * q * SCALE * SCALE / (dsum * dsum)
    }

    /// Planar density at polar coordinates: normalized distance from
    /// the center and angular coordinate.
    pub fn xz_density_polar(&self, d: u64, theta: u64) -> (r: u64)
        requires
            self.galaxy().wf(),
            self.component().wf(),
            theta <= 2 * TURN,
            d <= 10_000_000_000_000_000,
        ensures
            r == spec_xz_density_polar(
                self.galaxy(), self.component(), d as int, theta as int),
            r <= SCALE,
    {
        let inner = self.component.radial_dropoff;
        let ss = smoothstep(0, inner, d);
        proof {
            lemma_mul_fx_le(ss as int, ss as int);
        }
        let p2 = mul_fx(ss, ss);
        proof {
            lemma_mul_fx_le(p2 as int, p2 as int);
        }
        let central_falloff = mul_fx(p2, p2);
        let r = self.get_radial_intensity(d, self.component.radial_extent);
        let winding = self.rad_winding(d);
        let arm_mod = self.arms_modifier_polar(winding, theta);
        proof {
            lemma_mul_fx_le(central_falloff as int, arm_mod as int);
        }
        let ca = mul_fx(central_falloff, arm_mod);
        proof {
            lemma_mul_fx_le(ca as int, r as int);
        }
        mul_fx(ca, r)
    }

    /// Planar density at a cartesian position.
    pub fn xz_density(&self, x: i64, z: i64) -> (r: u64)
        requires
            self.galaxy().wf(),
            self.component().wf(),
            -(COORD_MAX as int) <= x as int <= COORD_MAX as int,
            -(COORD_MAX as int) <= z as int <= COORD_MAX as int,
        ensures
            r == spec_xz_density(self.galaxy(), self.component(), x as int, z as int),
            r <= SCALE,
    {
        if self.galaxy.radius == 0 {
            return 0;
        }
        let ax: u64 = if x < 0 { (-x) as u64 } else { x as u64 };
        let az: u64 = if z < 0 { (-z) as u64 } else { z as u64 };
        proof {
            assert(ax as int * ax as int == x as int * x as int) by (nonlinear_arith)
                requires ax as int == x as int || ax as int == -(x as int);
            assert(az as int * az as int == z as int * z as int) by (nonlinear_arith)
                requires az as int == z as int || az as int == -(z as int);
            assert(ax as int * ax as int <= COORD_MAX as int * COORD_MAX as int)
                by (nonlinear_arith)
                requires 0 <= ax as int <= COORD_MAX as int;
            assert(az as int * az as int <= COORD_MAX as int * COORD_MAX as int)
                by (nonlinear_arith)
                requires 0 <= az as int <= COORD_MAX as int;
        }
        let len = isqrt(ax * ax + az * az);
        proof {
            lemma_isqrt_le(((ax * ax + az * az)) as nat, 5_000_000_000nat);
            lemma_div_mono(
                len as int * SCALE as int,
                5_000_000_000 * SCALE as int,
                self.galaxy.radius as int);
        }
        let d = div_fx(len, self.galaxy.radius);
        let a2 = atan2_units(x, z);
        let s = (a2 + self.component.angular_offset) % TURN;
        let theta = if s == 0 { 0 } else { TURN - s };
        proof {
            if s == 0 {
                lemma_mod_self_0(TURN as int);
            } else {
                lemma_small_mod((TURN - s) as nat, TURN as nat);
            }
        }
        self.xz_density_polar(d, theta)
    }

    /// Spatial density at a position.
    pub fn xyz_density(&self, x: i64, y: i64, z: i64) -> (r: u64)
        requires
            self.galaxy().wf(),
            self.component().wf(),
            -(COORD_MAX as int) <= x as int <= COORD_MAX as int,
            -(COORD_MAX as int) <= y as int <= COORD_MAX as int,
            -(COORD_MAX as int) <= z as int <= COORD_MAX as int,
        ensures
            r == spec_xyz_density(
                self.galaxy(), self.component(), x as int, y as int, z as int),
            r <= SCALE,
    {
        let planar = self.xz_density(x, z);
        let hm = self.get_height_modulation(y);
        proof {
            lemma_mul_fx_le(planar as int, hm as int);
        }
        mul_fx(planar, hm)
    }
}


/// Monotonic winding: with fixed parameters, the spiral twist never
/// decreases as the normalized radius grows.
pub proof fn lemma_winding_monotone(g: GalaxyConfig, d1: int, d2: int)
    requires
        0 <= d1 <= d2,
    ensures
        spec_rad_winding(g, d1) <= spec_rad_winding(g, d2),
        0 <= spec_rad_winding(g, d1),
{
    let sc = SCALE as int;
    let r1 = d1 + WINDING_EPS;
    let r2 = d2 + WINDING_EPS;
    let t1 = WINDING_K * sc / r1;
    let t2 = WINDING_K * sc / r2;
    lemma_div_anti_mono_divisor(WINDING_K * sc, r1, r2);
    lemma_div_pos_is_pos(WINDING_K * sc, r2);
    lemma_div_pos_is_pos(WINDING_K * sc, r1);
    lemma_exp_neg_anti_mono(t2, t1);
    lemma_exp_neg_anti_mono(t1, t1);
    let u1 = spec_exp_neg(t1);
    let u2 = spec_exp_neg(t2);
    let v1 = if g.winding_b == 0 {
        QUARTER_TURN as int
    } else {
        spec_atan(u1 * sc / g.winding_b as int)
    };
    let v2 = if g.winding_b == 0 {
        QUARTER_TURN as int
    } else {
        spec_atan(u2 * sc / g.winding_b as int)
    };
    if g.winding_b != 0 {
        let b = g.winding_b as int;
        lemma_mul_inequality(u1, u2, sc);
        lemma_div_is_ordered(u1 * sc, u2 * sc, b);
        vstd::arithmetic::mul::lemma_mul_nonnegative(u1, sc);
        lemma_div_pos_is_pos(u1 * sc, b);
        lemma_atan_mono(u1 * sc / b, u2 * sc / b);
    }
    assert(0 <= v1 <= v2);
    lemma_mul_inequality(v1, v2, 2 * g.winding_n as int);
    lemma_div_is_ordered(
        v1 * (2 * g.winding_n as int), v2 * (2 * g.winding_n as int), sc);
    vstd::arithmetic::mul::lemma_mul_nonnegative(v1, 2 * g.winding_n as int);
    lemma_div_pos_is_pos(v1 * (2 * g.winding_n as int), sc);
}

/// The wrapped angular distance is periodic: shifting one angle by a
/// whole turn leaves it unchanged.
pub proof fn lemma_theta_diff_shift(t1: int, t2: int)
    requires
        0 <= t1,
        0 <= t2,
    ensures
        spec_theta_diff(t1, t2 + TURN) == spec_theta_diff(t1, t2),
{
    let t = TURN as int;
    let h = HALF_TURN as int;
    if t1 >= t2 + t {
        let diff2 = t1 - t2 - t;
        vstd::arithmetic::div_mod::lemma_mod_add_multiples_vanish(diff2, t);
        assert((t1 - t2) % t == diff2 % t);
    } else if t1 >= t2 {
        let diff1 = t1 - t2;
        lemma_small_mod(diff1 as nat, t as nat);
        let diff2 = t2 + t - t1;
        if diff2 == t {
            lemma_mod_self_0(t);
        } else {
            lemma_small_mod(diff2 as nat, t as nat);
        }
    } else {
        let diff1 = t2 - t1;
        vstd::arithmetic::div_mod::lemma_mod_add_multiples_vanish(diff1, t);
        assert((t2 + t - t1) % t == diff1 % t);
    }
}

/// A single arm's modifier lies within [0, SCALE].
proof fn lemma_one_arm_bounds(c: ComponentConfig, winding: int, target: int)
    ensures
        0 <= spec_one_arm(c, winding, target) <= SCALE,
{
    let t = TURN as int;
    let h = HALF_TURN as int;
    let sc = SCALE as int;
    let diff = if winding >= target { winding - target } else { target - winding };
    let d = diff % t;
    vstd::arithmetic::div_mod::lemma_mod_division_less_than_divisor(diff, t);
    let w = if d > h { t - d } else { d };
    assert(0 <= w <= h);
    let v = w * sc / h;
    vstd::arithmetic::mul::lemma_mul_nonnegative(w, sc);
    lemma_div_pos_is_pos(w * sc, h);
    lemma_mul_inequality(w, h, sc);
    lemma_div_is_ordered(w * sc, h * sc, h);
    assert(h * sc == sc * h) by (nonlinear_arith);
    lemma_div_by_multiple(sc, h);
    assert(0 <= v <= sc);
    let b = sc - v;
    lemma_isqrt_le((b * SCALE) as nat, SCALE as nat);
    let q1 = spec_isqrt((b * SCALE) as nat) as int;
    lemma_isqrt_le((q1 * SCALE as int) as nat, SCALE as nat);
    lemma_pow_fx_bounded(spec_qroot(b), spec_arm_exponent(c) as nat);
}

/// Every arm's modifier is at most the maximum over the arms.
proof fn lemma_arms_max_ge(
    g: GalaxyConfig, c: ComponentConfig, winding: int, theta: int, n: int, j: int,
)
    requires
        0 <= j < n,
        n <= g.arm_offsets@.len(),
    ensures
        spec_one_arm(c, winding, theta + g.arm_offsets@[j])
            <= spec_arms_max(g, c, winding, theta, n),
    decreases n,
{
    if j < n - 1 {
        lemma_arms_max_ge(g, c, winding, theta, n - 1, j);
    }
}

/// The maximum over at least one arm is attained by some arm.
proof fn lemma_arms_max_attained(
    g: GalaxyConfig, c: ComponentConfig, winding: int, theta: int, n: int,
)
    requires
        1 <= n,
        n <= g.arm_offsets@.len(),
    ensures
        exists|j: int| 0 <= j < n && spec_arms_max(g, c, winding, theta, n)
            == spec_one_arm(c, winding, theta + g.arm_offsets@[j]),
    decreases n,
{
    let cur = spec_one_arm(c, winding, theta + g.arm_offsets@[n - 1]);
    lemma_one_arm_bounds(c, winding, theta + g.arm_offsets@[n - 1]);
    if n == 1 {
        assert(spec_arms_max(g, c, winding, theta, 0) == 0);
        assert(spec_arms_max(g, c, winding, theta, 1) == cur);
    } else {
        lemma_arms_max_attained(g, c, winding, theta, n - 1);
        if !(cur > spec_arms_max(g, c, winding, theta, n - 1)) {
            let j0 = choose|j: int| 0 <= j < n - 1
                && spec_arms_max(g, c, winding, theta, n - 1)
                    == spec_one_arm(c, winding, theta + g.arm_offsets@[j]);
            assert(spec_arms_max(g, c, winding, theta, n)
                == spec_one_arm(c, winding, theta + g.arm_offsets@[j0]));
        }
    }
}

/// The active arms sit at exact multiples of a turn divided by the
/// arm count.
pub open spec fn spec_arms_evenly_spaced(g: GalaxyConfig) -> bool {
    forall|i: int| 0 <= i < g.n_arms
        ==> #[trigger] g.arm_offsets@[i] == i * (TURN as int / g.n_arms as int)
}

/// A turn splits exactly into up to four arm spacings.
proof fn lemma_turn_divisible(n: int)
    requires
        1 <= n <= 4,
    ensures
        n * (TURN as int / n) == TURN,
{
    if n == 1 {
    } else if n == 2 {
    } else if n == 3 {
    } else {
        assert(n == 4);
    }
}

/// Turning the angular coordinate by one arm spacing turns arm i into
/// arm i + 1 (cyclically).
proof fn lemma_arm_shift(
    g: GalaxyConfig, c: ComponentConfig, winding: int, theta: int, i: int,
)
    requires
        g.wf(),
        1 <= g.n_arms,
        spec_arms_evenly_spaced(g),
        0 <= theta,
        0 <= winding,
        0 <= i < g.n_arms,
    ensures
        spec_one_arm(c, winding, theta + TURN as int / g.n_arms as int + g.arm_offsets@[i])
            == spec_one_arm(c, winding, theta + g.arm_offsets@[(i + 1) % g.n_arms as int]),
{
    let n = g.n_arms as int;
    let delta = TURN as int / n;
    let theta2 = theta + delta;
    lemma_turn_divisible(n);
    assert(g.arm_offsets@[i] == i * delta);
    if i + 1 < n {
        lemma_small_mod((i + 1) as nat, n as nat);
        assert(g.arm_offsets@[i + 1] == (i + 1) * delta);
        assert((i + 1) * delta == i * delta + delta) by (nonlinear_arith);
        assert(theta2 + i * delta == theta + (i + 1) * delta);
    } else {
        lemma_mod_self_0(n);
        assert((i + 1) % n == 0);
        assert(g.arm_offsets@[0] == 0) by {
            assert(0 * (TURN as int / g.n_arms as int) == 0) by (nonlinear_arith);
        };
        assert(i * delta == n * delta - delta) by (nonlinear_arith)
            requires i == n - 1;
        assert(theta2 + i * delta == theta + TURN);
        lemma_theta_diff_shift(winding, theta);
    }
}

/// With evenly spaced arms, turning the angular coordinate by one arm
/// spacing maps the arm set onto itself, so the arm modifier is
/// unchanged.
proof fn lemma_arms_rotational_symmetry(
    g: GalaxyConfig, c: ComponentConfig, winding: int, theta: int,
)
    requires
        g.wf(),
        1 <= g.n_arms,
        spec_arms_evenly_spaced(g),
        0 <= theta,
        0 <= winding,
    ensures
        spec_arms_modifier(g, c, winding, theta + TURN as int / g.n_arms as int)
            == spec_arms_modifier(g, c, winding, theta),
{
    let n = g.n_arms as int;
    let delta = TURN as int / n;
    let theta2 = theta + delta;
    assert forall|i: int| 0 <= i < n implies
        #[trigger] spec_one_arm(c, winding, theta2 + g.arm_offsets@[i])
            == spec_one_arm(c, winding, theta + g.arm_offsets@[(i + 1) % n]) by {
        lemma_arm_shift(g, c, winding, theta, i);
    };
    let a1 = spec_arms_max(g, c, winding, theta, n);
    let a2 = spec_arms_max(g, c, winding, theta2, n);
    lemma_arms_max_attained(g, c, winding, theta2, n);
    let j2 = choose|j: int| 0 <= j < n
        && a2 == spec_one_arm(c, winding, theta2 + g.arm_offsets@[j]);
    vstd::arithmetic::div_mod::lemma_mod_division_less_than_divisor(j2 + 1, n);
    lemma_arms_max_ge(g, c, winding, theta, n, (j2 + 1) % n);
    assert(a2 <= a1);
    lemma_arms_max_attained(g, c, winding, theta, n);
    let j1 = choose|j: int| 0 <= j < n
        && a1 == spec_one_arm(c, winding, theta + g.arm_offsets@[j]);
    let i1 = if j1 == 0 { n - 1 } else { j1 - 1 };
    assert((i1 + 1) % n == j1) by {
        if j1 == 0 {
            lemma_mod_self_0(n);
        } else {
            lemma_small_mod(j1 as nat, n as nat);
        }
    };
    lemma_arms_max_ge(g, c, winding, theta2, n, i1);
    assert(a1 <= a2);
}

/// Rotational symmetry: with the arms evenly spaced, turning a point
/// by one arm spacing leaves the planar density unchanged.
pub proof fn lemma_density_rotational_symmetry(g: GalaxyConfig, c: ComponentConfig, d: int, theta: int)
    requires
        g.wf(),
        1 <= g.n_arms,
        spec_arms_evenly_spaced(g),
        0 <= theta,
        0 <= d,
    ensures
        spec_xz_density_polar(g, c, d, theta + TURN as int / g.n_arms as int)
            == spec_xz_density_polar(g, c, d, theta),
{
    let w = spec_rad_winding(g, d);
    lemma_winding_monotone(g, d, d);
    lemma_arms_rotational_symmetry(g, c, w, theta);
}


/// A degenerate radius resolves to zero density everywhere rather
/// than a division by zero.
pub proof fn lemma_degenerate_radius_yields_zero(g: GalaxyConfig, c: ComponentConfig, x: int, z: int)
    requires
        g.radius == 0,
    ensures
        spec_xz_density(g, c, x, z) == 0,
{
}

/// With no active arm the density field is zero everywhere.
pub proof fn lemma_no_arms_yields_zero(g: GalaxyConfig, c: ComponentConfig, d: int, theta: int)
    requires
        g.n_arms == 0,
    ensures
        spec_xz_density_polar(g, c, d, theta) == 0,
{
    let cf = spec_central_falloff(c, d);
    assert(spec_arms_modifier(g, c, spec_rad_winding(g, d), theta) == 0);
    assert(cf * 0 == 0) by (nonlinear_arith);
    assert(0int / SCALE as int == 0) by {
        vstd::arithmetic::div_mod::lemma_basic_div(0int, SCALE as int);
    };
}


/// The wrapped angular distance lies within [0, SCALE].
pub proof fn lemma_theta_diff_bounds(t1: int, t2: int)
    ensures
        0 <= spec_theta_diff(t1, t2) <= SCALE,
{
    let t = TURN as int;
    let h = HALF_TURN as int;
    let sc = SCALE as int;
    let diff = if t1 >= t2 { t1 - t2 } else { t2 - t1 };
    let d = diff % t;
    vstd::arithmetic::div_mod::lemma_mod_division_less_than_divisor(diff, t);
    let w = if d > h { t - d } else { d };
    assert(0 <= w <= h);
    vstd::arithmetic::mul::lemma_mul_nonnegative(w, sc);
    lemma_div_pos_is_pos(w * sc, h);
    lemma_mul_inequality(w, h, sc);
    lemma_div_is_ordered(w * sc, h * sc, h);
    assert(h * sc == sc * h) by (nonlinear_arith);
    lemma_div_by_multiple(sc, h);
}

/// On an arm's centerline the arm's modifier is exactly one.
proof fn lemma_one_arm_on_centerline(c: ComponentConfig, winding: int, target: int)
    requires
        spec_theta_diff(winding, target) == 0,
    ensures
        spec_one_arm(c, winding, target) == SCALE,
{
    assert(1_000_000 * 1_000_000int == 1_000_000_000_000int) by (nonlinear_arith);
    assert((1_000_000int + 1) * (1_000_000int + 1) > 1_000_000_000_000int)
        by (nonlinear_arith);
    crate::fixed::lemma_isqrt_unique((SCALE as int * SCALE as int) as nat, SCALE as nat);
    assert(spec_qroot(SCALE as int) == SCALE);
    crate::fixed::lemma_pow_fx_of_scale(spec_arm_exponent(c) as nat);
}

/// Off a centerline by any positive wrapped distance, with at least
/// one power factor, an arm's modifier stays strictly below one.
proof fn lemma_one_arm_off_centerline(c: ComponentConfig, winding: int, target: int)
    requires
        spec_theta_diff(winding, target) >= 1,
        spec_arm_exponent(c) >= 1,
    ensures
        spec_one_arm(c, winding, target) <= 999_999,
{
    lemma_theta_diff_bounds(winding, target);
    let v = spec_theta_diff(winding, target);
    let b = SCALE as int - v;
    assert(0 <= b <= 999_999);
    lemma_mul_inequality(b, 999_999, SCALE as int);
    crate::fixed::lemma_isqrt_mono((b * SCALE) as nat, 999_999_000_000nat);
    assert(999_999 * 999_999int == 999_998_000_001int) by (nonlinear_arith);
    assert((999_999int + 1) * (999_999int + 1) == 1_000_000_000_000int) by (nonlinear_arith);
    crate::fixed::lemma_isqrt_unique(999_999_000_000nat, 999_999nat);
    let q1 = spec_isqrt((b * SCALE) as nat) as int;
    assert(q1 <= 999_999);
    lemma_mul_inequality(q1, 999_999, SCALE as int);
    crate::fixed::lemma_isqrt_mono((q1 * SCALE as int) as nat, 999_999_000_000nat);
    let q2 = spec_qroot(b);
    assert(0 <= q2 <= 999_999);
    crate::fixed::lemma_pow_fx_le_base(q2, spec_arm_exponent(c) as nat);
}

/// A bound every arm keeps pushes the maximum down with it.
proof fn lemma_arms_max_le(
    g: GalaxyConfig, c: ComponentConfig, winding: int, theta: int, n: int, bound: int,
)
    requires
        0 <= bound,
        forall|i: int| 0 <= i < n
            ==> #[trigger] spec_one_arm(c, winding, theta + g.arm_offsets@[i]) <= bound,
    ensures
        spec_arms_max(g, c, winding, theta, n) <= bound,
    decreases n,
{
    if n > 0 {
        lemma_arms_max_le(g, c, winding, theta, n - 1, bound);
    }
}

/// The maximum over the arms is never negative.
proof fn lemma_arms_max_nonneg(
    g: GalaxyConfig, c: ComponentConfig, winding: int, theta: int, n: int,
)
    ensures
        0 <= spec_arms_max(g, c, winding, theta, n),
    decreases n,
{
    if n > 0 {
        lemma_arms_max_nonneg(g, c, winding, theta, n - 1);
    }
}

/// With the angular coordinate on some arm's centerline the arm
/// modifier is exactly one; with a positive wrapped distance to every
/// arm it stays strictly below one.
proof fn lemma_arms_modifier_peak(
    g: GalaxyConfig, c: ComponentConfig, winding: int, theta_on: int, theta_off: int,
)
    requires
        g.wf(),
        1 <= g.n_arms,
        spec_arm_exponent(c) >= 1,
        exists|i: int| 0 <= i < g.n_arms
            && #[trigger] spec_theta_diff(winding, theta_on + g.arm_offsets@[i]) == 0,
        forall|i: int| 0 <= i < g.n_arms
            ==> #[trigger] spec_theta_diff(winding, theta_off + g.arm_offsets@[i]) >= 1,
    ensures
        spec_arms_modifier(g, c, winding, theta_on) == SCALE,
        spec_arms_modifier(g, c, winding, theta_off) < SCALE,
{
    let n = g.n_arms as int;
    let i0 = choose|i: int| 0 <= i < n
        && #[trigger] spec_theta_diff(winding, theta_on + g.arm_offsets@[i]) == 0;
    lemma_one_arm_on_centerline(c, winding, theta_on + g.arm_offsets@[i0]);
    lemma_arms_max_ge(g, c, winding, theta_on, n, i0);
    assert forall|i: int| 0 <= i < n
        implies #[trigger] spec_one_arm(c, winding, theta_on + g.arm_offsets@[i])
            <= SCALE by {
        lemma_one_arm_bounds(c, winding, theta_on + g.arm_offsets@[i]);
    };
    lemma_arms_max_le(g, c, winding, theta_on, n, SCALE as int);
    assert forall|i: int| 0 <= i < n
        implies #[trigger] spec_one_arm(c, winding, theta_off + g.arm_offsets@[i])
            <= 999_999 by {
        lemma_one_arm_off_centerline(c, winding, theta_off + g.arm_offsets@[i]);
    };
    lemma_arms_max_le(g, c, winding, theta_off, n, 999_999);
}

/// An arm centerline is a ridge of the field: at a fixed radius, the
/// arm modifier is exactly one on the centerline and strictly below
/// one at any positive wrapped distance from every arm, and the
/// planar density follows the modifier monotonically.  The two final
/// fixed-point products can round two nearby densities to the same
/// value, so the strict part of the claim lives in the modifier.
pub proof fn lemma_on_arm_dominates(g: GalaxyConfig, c: ComponentConfig, d: int, theta_on: int, theta_off: int)
    requires
        g.wf(),
        c.wf(),
        1 <= g.n_arms,
        spec_arm_exponent(c) >= 1,
        exists|i: int| 0 <= i < g.n_arms
            && #[trigger] spec_theta_diff(
                spec_rad_winding(g, d), theta_on + g.arm_offsets@[i]) == 0,
        forall|i: int| 0 <= i < g.n_arms
            ==> #[trigger] spec_theta_diff(
                spec_rad_winding(g, d), theta_off + g.arm_offsets@[i]) >= 1,
    ensures
        spec_arms_modifier(g, c, spec_rad_winding(g, d), theta_on) == SCALE,
        spec_arms_modifier(g, c, spec_rad_winding(g, d), theta_off) < SCALE,
        spec_xz_density_polar(g, c, d, theta_off) <= spec_xz_density_polar(g, c, d, theta_on),
{
    let w = spec_rad_winding(g, d);
    let sc = SCALE as int;
    lemma_arms_modifier_peak(g, c, w, theta_on, theta_off);
    let ss = spec_smoothstep(0, c.radial_dropoff as int, d);
    lemma_smoothstep_bounds(0, c.radial_dropoff as int, d);
    lemma_mul_fx_le(ss, ss);
    let p2 = ss * ss / sc;
    lemma_mul_fx_le(p2, p2);
    let cf = spec_central_falloff(c, d);
    assert(0 <= cf <= SCALE);
    let rad = spec_radial_intensity(d, c.radial_extent as int);
    assert(0 <= rad);
    // on the centerline the modifier factor drops out exactly
    lemma_div_by_multiple(cf, sc);
    // off the centerline both products only shrink
    let a_off = spec_arms_modifier(g, c, w, theta_off);
    lemma_arms_max_nonneg(g, c, w, theta_off, g.n_arms as int);
    lemma_mul_fx_le(cf, a_off);
    lemma_mul_fx_mono(cf * a_off / sc, cf, rad);
}

} // verus!
