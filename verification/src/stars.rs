use vstd::prelude::*;
use vstd::arithmetic::div_mod::{lemma_div_is_ordered, lemma_div_pos_is_pos};
use vstd::arithmetic::mul::{lemma_mul_inequality, lemma_mul_nonnegative};
use rayon::iter::{IntoParallelRefMutIterator, ParallelIterator};
use crate::SCALE;
use crate::fixed::{mul_fx, div_fx, sqrt_fx, lemma_mul_fx_le, lemma_isqrt_le, lemma_div_mono};
use crate::curves::{TURN, QUARTER_TURN, cos_units, sin_units};
use crate::config::GalaxyConfig;
use crate::density::GalaxyComponentDensity;

verus! {

/// Stars spawned per scheduler invocation: the batch that bounds the
/// per-frame cost.
pub const BATCH_SIZE: u64 = 4096;

/// Weight added to every candidate after the first, so a zero-density
/// candidate cannot freeze the reservoir: 0.0001.
pub const WEIGHT_EPSILON: u64 = 100;

/// Lightest stellar mass the class table can draw: 0.08.
pub const MIN_MASS: u64 = 80_000;

/// Exclusive ceiling of the heaviest stellar class: 152.0.
pub const MAX_MASS: u64 = 152_000_000;

/// Sum of the relative weights of the seven stellar classes, each
/// weight scaled by one hundred.
pub const MASS_WEIGHT_TOTAL: u64 = 426;

/// A position in space, in the same fixed-point world units as the
/// galaxy radius.
#[derive(Clone, Copy, PartialEq, Eq, Structural, Debug)]
pub struct Pos3 {
    pub x: i64,
    pub y: i64,
    pub z: i64,
}

/// One placed star: its stable index, its position, and its mass,
/// from which its display color derives.
#[derive(Clone, Copy, PartialEq, Eq, Structural, Debug)]
pub struct Star {
    pub index: u32,
    pub position: Pos3,
    pub mass: u64,
}

/// A display color as three fixed-point channels.
#[derive(Clone, Copy, PartialEq, Eq, Structural, Debug)]
pub struct Color3 {
    pub r: u64,
    pub g: u64,
    pub b: u64,
}

/// Relies on rand::random_range over 0..bound on the thread-local
/// generator: the result lies below the bound.  It panics only on an
/// empty range, which the precondition excludes.
#[verifier::external_body]
fn rand_below(bound: u64) -> (r: u64)
    requires
        bound > 0,
    ensures
        r < bound,
{
    rand::random_range(0..bound)
}

/// A position drawn by the placement sampler stays inside the
/// sampling band: the disk of twice the radius, and a vertical slab
/// of four units, closed below and open above like the height draw.
pub open spec fn spec_in_band(p: Pos3, radius: int) -> bool {
    &&& -2 * radius <= p.x <= 2 * radius
    &&& -4_000_000 <= p.y < 4_000_000
    &&& -2 * radius <= p.z <= 2 * radius
    &&& p.x * p.x + p.z * p.z <= 4 * radius * radius
}

/// The unit-disk point determined by a radius draw and an angle draw:
/// the square root of the uniform fraction sets the length, the angle
/// its direction, which makes the point uniform in area over the disk.
pub open spec fn spec_unit_circle(u: int, angle: int) -> (int, int) {
    let len = crate::fixed::spec_isqrt((u * SCALE) as nat) as int;
    let sin_angle = (angle + 3 * QUARTER_TURN as int) % TURN as int;
    let cx = len * crate::curves::spec_cos_mag(angle) / SCALE as int;
    let cz0 = len * crate::curves::spec_cos_mag(sin_angle) / SCALE as int;
    let cz = if cx * cx + cz0 * cz0 > SCALE as int * SCALE as int { 0int } else { cz0 };
    (
        (if crate::curves::spec_cos_is_neg(angle) { -cx } else { cx }),
        (if crate::curves::spec_cos_is_neg(sin_angle) { -cz } else { cz }),
    )
}

/// The unit-disk point for the two draws, in executable form.  The
/// table magnitudes keep the point inside the unit disk; the final
/// check turns that bound into a structural fact of the result.
fn unit_circle_from(u: u64, angle: u64) -> (r: (i64, i64))
    requires
        u < SCALE,
        angle < TURN,
    ensures
        (r.0 as int, r.1 as int) == spec_unit_circle(u as int, angle as int),
        -(SCALE as int) <= r.0 <= SCALE as int,
        -(SCALE as int) <= r.1 <= SCALE as int,
        r.0 * r.0 + r.1 * r.1 <= SCALE as int * SCALE as int,
{
    let len = sqrt_fx(u);
    proof {
        lemma_isqrt_le((u * SCALE) as nat, SCALE as nat);
    }
    let (c, c_neg) = cos_units(angle);
    let (s, s_neg) = sin_units(angle);
    proof {
        lemma_mul_fx_le(len as int, c as int);
        lemma_mul_fx_le(len as int, s as int);
    }
    let cx = mul_fx(len, c);
    let cz0 = mul_fx(len, s);
    proof {
        assert(cx as int * cx as int <= 1_000_000_000_000) by (nonlinear_arith)
            requires 0 <= cx as int <= 1_000_000;
        assert(cz0 as int * cz0 as int <= 1_000_000_000_000) by (nonlinear_arith)
            requires 0 <= cz0 as int <= 1_000_000;
    }
    let cz: u64 = if cx * cx + cz0 * cz0 > SCALE * SCALE { 0 } else { cz0 };
    let x: i64 = if c_neg { -(cx as i64) } else { cx as i64 };
    let z: i64 = if s_neg { -(cz as i64) } else { cz as i64 };
    proof {
        assert(x as int * x as int == cx as int * cx as int) by (nonlinear_arith)
            requires x as int == cx as int || x as int == -(cx as int);
        assert(z as int * z as int == cz as int * cz as int) by (nonlinear_arith)
            requires z as int == cz as int || z as int == -(cz as int);
        if cx * cx + cz0 * cz0 > SCALE * SCALE {
            assert(cx as int * cx as int <= SCALE as int * SCALE as int)
                by (nonlinear_arith)
                requires 0 <= cx as int <= SCALE as int;
        }
    }
    (x, z)
}

/// The candidate position determined by the three uniform draws: the
/// unit-disk point of the first two scaled by the galaxy radius, the
/// height draw centered into its band, and the whole scaled by two.
pub open spec fn spec_candidate(u: int, angle: int, h: int, radius: int) -> Pos3 {
    let c = spec_unit_circle(u, angle);
    let mx = (if c.0 >= 0 { c.0 } else { -c.0 }) * radius / SCALE as int;
    let mz = (if c.1 >= 0 { c.1 } else { -c.1 }) * radius / SCALE as int;
    Pos3 {
        x: (if c.0 >= 0 { 2 * mx } else { -(2 * mx) }) as i64,
        y: (2 * (h - 2_000_000)) as i64,
        z: (if c.1 >= 0 { 2 * mz } else { -(2 * mz) }) as i64,
    }
}

/// The candidate position for the three draws, in executable form.
pub fn candidate_from(u: u64, angle: u64, h: u64, radius: u64) -> (p: Pos3)
    requires
        u < SCALE,
        angle < TURN,
        h < 4_000_000,
        radius <= 1_000_000_000,
    ensures
        p == spec_candidate(u as int, angle as int, h as int, radius as int),
        spec_in_band(p, radius as int),
{
    let (ux, uz) = unit_circle_from(u, angle);
    let ax: u64 = if ux < 0 { (-ux) as u64 } else { ux as u64 };
    let az: u64 = if uz < 0 { (-uz) as u64 } else { uz as u64 };
    proof {
        assert(ax as int * radius as int == radius as int * ax as int) by (nonlinear_arith);
        assert(az as int * radius as int == radius as int * az as int) by (nonlinear_arith);
        lemma_mul_fx_le(radius as int, ax as int);
        lemma_mul_fx_le(radius as int, az as int);
        assert(ax as int * ax as int == ux as int * ux as int) by (nonlinear_arith)
            requires ax as int == ux as int || ax as int == -(ux as int);
        assert(az as int * az as int == uz as int * uz as int) by (nonlinear_arith)
            requires az as int == uz as int || az as int == -(uz as int);
    }
    let mx = mul_fx(ax, radius);
    let mz = mul_fx(az, radius);
    proof {
        let sc = SCALE as int;
        let r = radius as int;
        let axi = ax as int;
        let azi = az as int;
        let mxi = mx as int;
        let mzi = mz as int;
        // the scaled point stays inside the disk of the radius
        vstd::arithmetic::div_mod::lemma_fundamental_div_mod(axi * r, sc);
        vstd::arithmetic::div_mod::lemma_fundamental_div_mod(azi * r, sc);
        assert(mxi * sc <= axi * r);
        assert(mzi * sc <= azi * r);
        assert(mxi * mxi * (sc * sc) <= (axi * axi) * (r * r)) by (nonlinear_arith)
            requires 0 <= mxi * sc <= axi * r && 0 <= mxi && 0 <= sc;
        assert(mzi * mzi * (sc * sc) <= (azi * azi) * (r * r)) by (nonlinear_arith)
            requires 0 <= mzi * sc <= azi * r && 0 <= mzi && 0 <= sc;
        assert((mxi * mxi + mzi * mzi) * (sc * sc)
            <= (axi * axi + azi * azi) * (r * r)) by (nonlinear_arith)
            requires
                mxi * mxi * (sc * sc) <= (axi * axi) * (r * r)
                    && mzi * mzi * (sc * sc) <= (azi * azi) * (r * r);
        assert((axi * axi + azi * azi) * (r * r) <= (sc * sc) * (r * r))
            by (nonlinear_arith)
            requires axi * axi + azi * azi <= sc * sc && 0 <= r;
        assert(mxi * mxi + mzi * mzi <= r * r) by (nonlinear_arith)
            requires
                (mxi * mxi + mzi * mzi) * (sc * sc) <= (sc * sc) * (r * r)
                    && sc * sc > 0;
    }
    let hy: i64 = (h as i64) - 2_000_000;
    let x: i64 = if ux >= 0 { (2 * mx) as i64 } else { -((2 * mx) as i64) };
    let z: i64 = if uz >= 0 { (2 * mz) as i64 } else { -((2 * mz) as i64) };
    proof {
        assert(x as int * x as int == 4 * (mx as int * mx as int)) by (nonlinear_arith)
            requires x as int == 2 * mx as int || x as int == -(2 * mx as int);
        assert(z as int * z as int == 4 * (mz as int * mz as int)) by (nonlinear_arith)
            requires z as int == 2 * mz as int || z as int == -(2 * mz as int);
        assert(x as int * x as int + z as int * z as int
            <= 4 * (radius as int * radius as int)) by (nonlinear_arith)
            requires
                x as int * x as int == 4 * (mx as int * mx as int)
                    && z as int * z as int == 4 * (mz as int * mz as int)
                    && mx as int * mx as int + mz as int * mz as int
                        <= radius as int * radius as int;
        assert(4 * (radius as int * radius as int)
            == 4 * radius as int * radius as int) by (nonlinear_arith);
    }
    Pos3 { x, y: 2 * hy, z }
}

/// One candidate position: uniform over a disk of the galaxy radius,
/// with an independent uniform height in a fixed band, the whole
/// scaled by two.  The draws are handed to `candidate_from`, whose
/// contract fixes the position each draw triple yields.
fn sample_pos(radius: u64) -> (p: Pos3)
    requires
        radius <= 1_000_000_000,
    ensures
        spec_in_band(p, radius as int),
{
    candidate_from(rand_below(SCALE), rand_below(TURN), rand_below(4_000_000), radius)
}

/// The reservoir's survivor rule: the new candidate replaces the
/// incumbent exactly when the acceptance draw, uniform below the
/// running weight sum, falls below the candidate's weight.
pub fn reservoir_step(best: Pos3, cand: Pos3, weight: u64, draw: u64) -> (r: Pos3)
    ensures
        r == if draw < weight { cand } else { best },
{
    if draw < weight {
        cand
    } else {
        best
    }
}

/// Draw one star position by online weighted reservoir sampling of
/// size one: a stream of uniform candidates, each kept with
/// probability proportional to the density field at it.  The result
/// always lies in the sampling band; which candidate survives is up
/// to the generator, but each candidate is `candidate_from` of its
/// draws, its weight is the verified density plus the epsilon, and
/// each survivor is `reservoir_step` of the acceptance draw.
pub fn sample_star_pos(config: &GalaxyConfig, candidates: u32) -> (p: Pos3)
    requires
        config.wf(),
        candidates <= 1_000_000,
    ensures
        spec_in_band(p, config.radius as int),
{
    let arm_painter = GalaxyComponentDensity::new(config, &config.stars_params);
    let current_pos = sample_pos(config.radius);
    let mut best = current_pos;
    let weight = arm_painter.xyz_density(current_pos.x, current_pos.y, current_pos.z);
    let mut weight_sum: u64 = weight;
    let mut i: u32 = 0;
    while i < candidates
        invariant
            config.wf(),
            candidates <= 1_000_000,
            arm_painter.galaxy() == *config,
            arm_painter.component() == config.stars_params,
            spec_in_band(best, config.radius as int),
            weight_sum <= (i + 1) * (SCALE + WEIGHT_EPSILON) as int,
        decreases candidates - i,
    {
        let current_pos = sample_pos(config.radius);
        let weight = arm_painter.xyz_density(current_pos.x, current_pos.y, current_pos.z)
            + WEIGHT_EPSILON;
        proof {
            assert((i + 2) * (SCALE + WEIGHT_EPSILON) as int
                == (i + 1) * (SCALE + WEIGHT_EPSILON) as int + (SCALE + WEIGHT_EPSILON))
                by (nonlinear_arith);
            assert((i + 1) * (SCALE + WEIGHT_EPSILON) as int
                <= 1_000_001 * 1_000_100int) by (nonlinear_arith)
                requires 0 <= i as int <= 1_000_000;
        }
        weight_sum = weight_sum + weight;
        best = reservoir_step(best, current_pos, weight, rand_below(weight_sum));
        i = i + 1;
    }
    best
}

/// The stellar class table: for a weight draw t the class's mass
/// range, [low, high), in fixed-point solar masses.  The seven
/// classes, M through O, carry relative weights 25, 50, 100, 100,
/// 100, 50 and 1 out of 426.
pub open spec fn spec_mass_bounds(t: int) -> (int, int) {
    if t < 25 {
        (80_000int, 450_000int)
    } else if t < 75 {
        (450_000int, 800_000int)
    } else if t < 175 {
        (800_000int, 1_040_000int)
    } else if t < 275 {
        (1_040_000int, 1_400_000int)
    } else if t < 375 {
        (1_400_000int, 2_100_000int)
    } else if t < 425 {
        (2_100_000int, 16_000_000int)
    } else {
        (16_000_000int, 152_000_000int)
    }
}

/// The mass for class draw t and intra-class fraction u: the class's
/// low bound plus the fraction of its span.
pub open spec fn spec_mass_for(t: int, u: int) -> int {
    let b = spec_mass_bounds(t);
    b.0 + u * (b.1 - b.0) / SCALE as int
}

/// Resolve a weighted class draw and an intra-class fraction to a
/// stellar mass.
pub fn mass_for(t: u64, u: u64) -> (m: u64)
    requires
        t < MASS_WEIGHT_TOTAL,
        u < SCALE,
    ensures
        m == spec_mass_for(t as int, u as int),
        spec_mass_bounds(t as int).0 <= m < spec_mass_bounds(t as int).1,
        MIN_MASS <= m < MAX_MASS,
{
    let (lo, hi): (u64, u64) = if t < 25 {
        (80_000, 450_000)
    } else if t < 75 {
        (450_000, 800_000)
    } else if t < 175 {
        (800_000, 1_040_000)
    } else if t < 275 {
        (1_040_000, 1_400_000)
    } else if t < 375 {
        (1_400_000, 2_100_000)
    } else if t < 425 {
        (2_100_000, 16_000_000)
    } else {
        (16_000_000, 152_000_000)
    };
    let span = hi - lo;
    proof {
        lemma_mul_inequality(u as int, SCALE as int - 1, span as int);
        lemma_div_is_ordered(u as int * span as int, (SCALE as int - 1) * span as int,
            SCALE as int);
        assert((SCALE as int - 1) * (span as int) / (SCALE as int) < (span as int))
            by (nonlinear_arith)
            requires span >= 1;
        lemma_mul_nonnegative(u as int, span as int);
        lemma_div_pos_is_pos(u as int * span as int, SCALE as int);
    }
    lo + mul_fx(u, span)
}

/// Draw a stellar mass: a class proportional to the class weights,
/// then uniform within the class's range.
pub fn random_star_mass() -> (m: u64)
    ensures
        MIN_MASS <= m < MAX_MASS,
{
    let t = rand_below(MASS_WEIGHT_TOTAL);
    let u = rand_below(SCALE);
    mass_for(t, u)
}

/// Effective temperature of a star of the given mass:
/// mass^(5/8) * 5772, through an eighth root.
pub open spec fn spec_temperature(mass: int) -> int {
    let o = crate::fixed::spec_isqrt((crate::fixed::spec_isqrt(
        (crate::fixed::spec_isqrt((mass * SCALE) as nat) * SCALE as int) as nat,
    ) * SCALE as int) as nat) as int;
    let o2 = o * o / SCALE as int;
    let o4 = o2 * o2 / SCALE as int;
    let o5 = o4 * o / SCALE as int;
    o5 * 5772
}

/// The three-band blackbody term for band frequency f and temperature
/// t: 10 * f^3 / (exp(19000 * f / t) - 1), and zero where the
/// exponential leaves fixed-point range.
pub open spec fn spec_planck_band(f: int, t: int) -> int {
    if t <= 0 {
        0
    } else {
        let x = (19_000 * SCALE as int) * f / SCALE as int * SCALE as int / t;
        let q = crate::curves::spec_exp_neg(x);
        if q == 0 {
            0
        } else {
            let ex = SCALE as int * SCALE as int / q;
            if ex <= SCALE {
                0
            } else {
                let f3 = f * f / SCALE as int * f / SCALE as int;
                10 * f3 * SCALE as int / (ex - SCALE as int)
            }
        }
    }
}

/// The simplified three-band blackbody color at a temperature, bands
/// at one, one and a half, and two frequency units.
pub open spec fn spec_planck_color(t: int) -> Color3 {
    Color3 {
        r: spec_planck_band(SCALE as int, t) as u64,
        g: spec_planck_band(SCALE as int + 500_000, t) as u64,
        b: spec_planck_band(2 * SCALE as int, t) as u64,
    }
}

/// One blackbody band, in executable form.
fn planck_band(f: u64, t: u64) -> (r: u64)
    requires
        SCALE <= f <= 2 * SCALE,
    ensures
        r == spec_planck_band(f as int, t as int),
{
    if t == 0 {
        return 0;
    }
    let xf = mul_fx(19_000 * SCALE, f);
    let x = div_fx(xf, t);
    let q = crate::curves::exp_neg(x);
    if q == 0 {
        return 0;
    }
    let ex = div_fx(SCALE, q);
    if ex <= SCALE {
        return 0;
    }
    proof {
        assert(f as int * f as int <= 2_000_000 * 2_000_000int) by (nonlinear_arith)
            requires 0 <= f as int <= 2_000_000;
        lemma_div_mono(f as int * f as int, 2_000_000 * 2_000_000int, SCALE as int);
    }
    let f2 = mul_fx(f, f);
    proof {
        assert(f2 as int * f as int <= 4_000_000 * 2_000_000int) by (nonlinear_arith)
            requires 0 <= f2 as int <= 4_000_000 && 0 <= f as int <= 2_000_000;
        lemma_div_mono(f2 as int * f as int, 4_000_000 * 2_000_000int, SCALE as int);
    }
    let f3 = mul_fx(f2, f);
    10 * f3 * SCALE / (ex - SCALE)
}

impl Star {
    /// Effective temperature derived from the star's mass.
    pub fn temperature(&self) -> (t: u64)
        requires
            self.mass <= MAX_MASS,
        ensures
            t == spec_temperature(self.mass as int),
    {
        let o1 = sqrt_fx(self.mass);
        proof {
            lemma_isqrt_le((self.mass * SCALE) as nat, 13_000_000nat);
        }
        let o2 = sqrt_fx(o1);
        proof {
            lemma_isqrt_le((o1 * SCALE) as nat, 4_000_000nat);
        }
        let o = sqrt_fx(o2);
        proof {
            lemma_isqrt_le((o2 * SCALE) as nat, 2_000_000nat);
            assert(o as int * o as int <= 2_000_000 * 2_000_000int) by (nonlinear_arith)
                requires 0 <= o as int <= 2_000_000;
            lemma_div_mono(o as int * o as int, 2_000_000 * 2_000_000int, SCALE as int);
        }
        let p2 = mul_fx(o, o);
        proof {
            assert(p2 as int * p2 as int <= 4_000_000 * 4_000_000int) by (nonlinear_arith)
                requires 0 <= p2 as int <= 4_000_000;
            lemma_div_mono(p2 as int * p2 as int, 4_000_000 * 4_000_000int, SCALE as int);
        }
        let p4 = mul_fx(p2, p2);
        proof {
            assert(p4 as int * o as int <= 16_000_000 * 2_000_000int) by (nonlinear_arith)
                requires 0 <= p4 as int <= 16_000_000 && 0 <= o as int <= 2_000_000;
            lemma_div_mono(p4 as int * o as int, 16_000_000 * 2_000_000int, SCALE as int);
        }
        let p5 = mul_fx(p4, o);
        p5 * 5772
    }

    /// The three-band blackbody color for a temperature.
    pub fn simple_planck(temperature: u64) -> (c: Color3)
        ensures
            c == spec_planck_color(temperature as int),
    {
        Color3 {
            r: planck_band(SCALE, temperature),
            g: planck_band(SCALE + 500_000, temperature),
            b: planck_band(2 * SCALE, temperature),
        }
    }

    /// The star's display color, derived from its mass on demand.
    pub fn color(&self) -> (c: Color3)
        requires
            self.mass <= MAX_MASS,
        ensures
            c == spec_planck_color(spec_temperature(self.mass as int)),
    {
        Star::simple_planck(self.temperature())
    }
}

/// The live star tally read by external consumers.
pub struct StarCount {
    pub count: u64,
}

/// The batch spawn scheduler's state: which generation the star set
/// reflects, how many stars remain to place for it, and the next
/// stable index to hand out.
pub struct StarSpawningControl {
    pub generation: i64,
    pub stars_left_to_place: u64,
    pub next_star_index: u64,
    pub num_stars: u64,
}

/// What one scheduler invocation did: whether it discarded the prior
/// star set, and the stars it placed.
pub struct TickResult {
    pub discarded: bool,
    pub batch: Vec<Star>,
}

impl StarSpawningControl {
    /// Placed and still-to-place stars always account for the whole
    /// target, and the target stays within index range.
    pub open spec fn wf(self) -> bool {
        &&& self.next_star_index + self.stars_left_to_place == self.num_stars
        &&& self.num_stars <= 400_000_000
    }

    /// A scheduler that has placed nothing and matches no generation
    /// yet, so the first tick always starts a fresh population.
    pub fn new() -> (r: StarSpawningControl)
        ensures
            r.wf(),
            r.generation == -1,
            r.stars_left_to_place == 0,
            r.next_star_index == 0,
            r.num_stars == 0,
    {
        StarSpawningControl {
            generation: -1,
            stars_left_to_place: 0,
            next_star_index: 0,
            num_stars: 0,
        }
    }

    /// One scheduler invocation.  On a generation change the prior
    /// star set is discarded first: the caller must drop its stars
    /// when `discarded` is set, before consuming the batch.  Then, if
    /// the stars component is enabled, up to BATCH_SIZE stars are
    /// placed, carrying consecutive indices.
    pub fn tick(&mut self, config: &GalaxyConfig, star_count: &mut StarCount,
        candidates: u32) -> (r: TickResult)
        requires
            old(self).wf(),
            config.wf(),
            candidates <= 1_000_000,
        ensures
            final(self).wf(),
            r.discarded == (old(self).generation != config.generation),
            final(self).generation == config.generation,
            final(self).num_stars == if r.discarded {
                config.stars_per_arm * config.n_arms
            } else {
                old(self).num_stars as int
            },
            final(star_count).count == if r.discarded {
                final(self).num_stars as int
            } else {
                old(star_count).count as int
            },
            ({
                let left0 = if r.discarded {
                    final(self).num_stars as int
                } else {
                    old(self).stars_left_to_place as int
                };
                let start = if r.discarded { 0int } else { old(self).next_star_index as int };
                let placed = if config.stars_params.enabled {
                    if left0 <= BATCH_SIZE { left0 } else { BATCH_SIZE as int }
                } else {
                    0int
                };
                &&& r.batch@.len() == placed
                &&& final(self).stars_left_to_place == left0 - placed
                &&& final(self).next_star_index == start + placed
                &&& forall|i: int| 0 <= i < placed
                    ==> (#[trigger] r.batch@[i]).index == start + i
                &&& forall|i: int| 0 <= i < placed
                    ==> spec_in_band((#[trigger] r.batch@[i]).position, config.radius as int)
                &&& forall|i: int| 0 <= i < placed
                    ==> MIN_MASS <= (#[trigger] r.batch@[i]).mass < MAX_MASS
            }),
    {
        let discarded = self.generation != config.generation;
        if discarded {
            self.generation = config.generation;
            proof {
                assert(config.stars_per_arm * config.n_arms
                    <= 100_000_000 * 4int) by (nonlinear_arith)
                    requires
                        0 <= config.stars_per_arm as int <= 100_000_000
                            && 0 <= config.n_arms as int <= 4;
                lemma_mul_nonnegative(config.stars_per_arm as int, config.n_arms as int);
            }
            self.num_stars = config.stars_per_arm * config.n_arms;
            star_count.count = self.num_stars;
            self.stars_left_to_place = self.num_stars;
            self.next_star_index = 0;
        }
        if !config.stars_params.enabled {
            return TickResult { discarded, batch: Vec::new() };
        }
        let batch_size: u64 = if self.stars_left_to_place <= BATCH_SIZE {
            self.stars_left_to_place
        } else {
            BATCH_SIZE
        };
        let samples = par_sample_batch(config, batch_size as usize, candidates);
        let mut batch: Vec<Star> = Vec::new();
        let mut k: usize = 0;
        let ghost start = self.next_star_index as int;
        let ghost left0 = self.stars_left_to_place as int;
        let ghost gen0 = self.generation;
        let ghost num0 = self.num_stars as int;
        let ghost count0 = star_count.count;
        while k < batch_size as usize
            invariant
                k <= batch_size as int,
                batch_size as int <= left0,
                samples@.len() == batch_size as int,
                batch@.len() == k,
                self.stars_left_to_place == left0,
                self.generation == gen0,
                self.num_stars == num0,
                star_count.count == count0,
                start + left0 == num0,
                num0 <= 400_000_000,
                self.next_star_index == start + k,
                forall|i: int| 0 <= i < k
                    ==> (#[trigger] batch@[i]).index == start + i,
                forall|i: int| 0 <= i < k
                    ==> spec_in_band((#[trigger] batch@[i]).position, config.radius as int),
                forall|i: int| 0 <= i < k
                    ==> MIN_MASS <= (#[trigger] batch@[i]).mass < MAX_MASS,
                forall|i: int| 0 <= i < samples@.len()
                    ==> spec_in_band((#[trigger] samples@[i]).0, config.radius as int),
                forall|i: int| 0 <= i < samples@.len()
                    ==> MIN_MASS <= (#[trigger] samples@[i]).1 < MAX_MASS,
            decreases batch_size as int - k,
        {
            let (position, mass) = samples[k];
            batch.push(Star { index: self.next_star_index as u32, position, mass });
            self.next_star_index = self.next_star_index + 1;
            k = k + 1;
        }
        self.stars_left_to_place = self.stars_left_to_place - batch_size;
        TickResult { discarded, batch }
    }
}

/// Once no stars are left to place, the indices handed out cover the
/// requested target exactly: the star set has exactly num_stars
/// members.
pub proof fn lemma_placement_completes(s: StarSpawningControl)
    requires
        s.wf(),
        s.stars_left_to_place == 0,
    ensures
        s.next_star_index == s.num_stars,
{
}

/// Relies on rayon's parallel mutable iterator: for_each writes each
/// slot exactly once with the closure's value, and the closure only
/// calls the verified sampler and mass draw.
#[verifier::external_body]
fn par_sample_batch(config: &GalaxyConfig, n: usize, candidates: u32)
    -> (r: Vec<(Pos3, u64)>)
    requires
        config.wf(),
        candidates <= 1_000_000,
    ensures
        r@.len() == n,
        forall|i: int| 0 <= i < n
            ==> spec_in_band((#[trigger] r@[i]).0, config.radius as int),
        forall|i: int| 0 <= i < n ==> MIN_MASS <= (#[trigger] r@[i]).1 < MAX_MASS,
{
    let mut v = vec![(Pos3 { x: 0, y: 0, z: 0 }, MIN_MASS); n];
    v.par_iter_mut().for_each(|slot| {
        *slot = (sample_star_pos(config, candidates), random_star_mass());
    });
    v
}

} // verus!
