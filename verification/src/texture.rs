use vstd::prelude::*;
use vstd::arithmetic::div_mod::{
    lemma_div_is_ordered, lemma_div_by_multiple, lemma_div_pos_is_pos,
    lemma_mod_division_less_than_divisor,
};
use vstd::arithmetic::mul::lemma_mul_inequality;
use rayon::iter::{IntoParallelIterator, ParallelIterator};
use crate::SCALE;
use crate::fixed::{mul_fx, div_fx, spec_isqrt, lemma_div_mono};
use crate::curves::COORD_MAX;
use crate::config::{GalaxyConfig, GalaxyRenderConfig};
use crate::density::{GalaxyComponentDensity, spec_xz_density, spec_rad_winding};

verus! {

/// One texel of the baked grid: the three component intensities and
/// the disk winding angle, the four channels the renderer samples.
#[derive(Clone, Copy, PartialEq, Eq, Structural, Debug)]
pub struct TexelSample {
    pub disk: u64,
    pub dust: u64,
    pub stars: u64,
    pub winding: u64,
}

/// The number of layers of the winding lookup texture.
pub const LUT_LAYERS: u64 = 4;

/// The smallest power of two no smaller than x (and one for zero).
pub open spec fn spec_npot(x: int) -> int
    decreases (if x <= 1 { 0int } else { x }),
{
    if x <= 1 {
        1
    } else {
        2 * spec_npot((x + 1) / 2)
    }
}

/// The next power of two never falls as its argument grows.
pub proof fn lemma_npot_mono(x1: int, x2: int)
    requires
        x1 <= x2,
    ensures
        spec_npot(x1) <= spec_npot(x2),
    decreases (if x2 <= 1 { 0int } else { x2 }),
{
    if x2 <= 1 {
    } else if x1 <= 1 {
        lemma_npot_pos((x2 + 1) / 2);
    } else {
        lemma_npot_mono((x1 + 1) / 2, (x2 + 1) / 2);
    }
}

/// The next power of two is positive.
pub proof fn lemma_npot_pos(x: int)
    ensures
        spec_npot(x) >= 1,
    decreases (if x <= 1 { 0int } else { x }),
{
    if x > 1 {
        lemma_npot_pos((x + 1) / 2);
    }
}

/// The grid resolution a requested texture dimension resolves to.
pub fn next_power_of_two(x: u32) -> (p: u32)
    requires
        x <= 8192,
    ensures
        p == spec_npot(x as int),
        1 <= p <= 8192,
    decreases (if x <= 1 { 0int } else { x as int }),
{
    proof {
        lemma_npot_mono(x as int, 8192);
        assert(spec_npot(1) == 1);
        assert(spec_npot(2) == 2);
        assert(spec_npot(4) == 4);
        assert(spec_npot(8) == 8);
        assert(spec_npot(16) == 16);
        assert(spec_npot(32) == 32);
        assert(spec_npot(64) == 64);
        assert(spec_npot(128) == 128);
        assert(spec_npot(256) == 256);
        assert(spec_npot(512) == 512);
        assert(spec_npot(1024) == 1024);
        assert(spec_npot(2048) == 2048);
        assert(spec_npot(4096) == 4096);
        assert(spec_npot(8192) == 8192);
        lemma_npot_pos(x as int);
    }
    if x <= 1 {
        1
    } else {
        2 * next_power_of_two((x + 1) / 2)
    }
}

/// The padded half-extent of the baked region: radius times the
/// padding coefficient.
pub open spec fn spec_padded_radius(g: GalaxyConfig, r: GalaxyRenderConfig) -> int {
    g.radius * r.padding_coeff / SCALE as int
}

/// World coordinate of texel row or column i on a dim-wide grid:
/// (i / dim * 2 - 1) scaled by the padded radius, rounded toward zero.
pub open spec fn spec_texel_coord(dim: int, i: int, pr: int) -> int {
    if 2 * i >= dim {
        (2 * i - dim) * pr / dim
    } else {
        -((dim - 2 * i) * pr / dim)
    }
}

/// Winding value at a planar position, normalized by the radius; zero
/// for a degenerate radius.
pub open spec fn spec_pos_winding(g: GalaxyConfig, x: int, z: int) -> int {
    if g.radius == 0 {
        0
    } else {
        spec_rad_winding(g, spec_isqrt((x * x + z * z) as nat) * SCALE as int / g.radius as int)
    }
}

/// The four channels baked for texel i of a dim-square grid.
pub open spec fn spec_texel(g: GalaxyConfig, r: GalaxyRenderConfig, dim: int, i: int)
    -> TexelSample {
    let pr = spec_padded_radius(g, r);
    let px = spec_texel_coord(dim, i % dim, pr);
    let pz = spec_texel_coord(dim, i / dim, pr);
    TexelSample {
        disk: spec_xz_density(g, g.disk_params, px, pz) as u64,
        dust: spec_xz_density(g, g.dust_params, px, pz) as u64,
        stars: spec_xz_density(g, g.stars_params, px, pz) as u64,
        winding: spec_pos_winding(g, px, pz) as u64,
    }
}

/// Entry i of the winding lookup: the disk winding at fraction
/// (i % width) / width of the unit radius on layer zero, and zero on
/// the reserved layers.
pub open spec fn spec_lut_entry(g: GalaxyConfig, width: int, i: int) -> int {
    if i / width == 0 {
        spec_rad_winding(g, (i % width) * SCALE as int / width)
    } else {
        0
    }
}

/// A texel coordinate stays within the padded radius.
proof fn lemma_texel_coord_bounds(dim: int, i: int, pr: int)
    requires
        1 <= dim,
        0 <= i < dim,
        0 <= pr,
    ensures
        -pr <= spec_texel_coord(dim, i, pr) <= pr,
{
    if 2 * i >= dim {
        let num = (2 * i - dim) * pr;
        lemma_mul_inequality(2 * i - dim, dim, pr);
        lemma_div_is_ordered(num, dim * pr, dim);
        assert(dim * pr == pr * dim) by (nonlinear_arith);
        lemma_div_by_multiple(pr, dim);
        vstd::arithmetic::mul::lemma_mul_nonnegative(2 * i - dim, pr);
        lemma_div_pos_is_pos(num, dim);
    } else {
        let num = (dim - 2 * i) * pr;
        lemma_mul_inequality(dim - 2 * i, dim, pr);
        lemma_div_is_ordered(num, dim * pr, dim);
        assert(dim * pr == pr * dim) by (nonlinear_arith);
        lemma_div_by_multiple(pr, dim);
        vstd::arithmetic::mul::lemma_mul_nonnegative(dim - 2 * i, pr);
        lemma_div_pos_is_pos(num, dim);
    }
}

/// World coordinate of texel row or column i, in executable form.
fn texel_coord(dim: u32, i: u32, pr: u64) -> (c: i64)
    requires
        1 <= dim <= 8192,
        i < dim,
        pr <= COORD_MAX,
    ensures
        c as int == spec_texel_coord(dim as int, i as int, pr as int),
        -(COORD_MAX as int) <= c as int <= COORD_MAX as int,
{
    proof {
        lemma_texel_coord_bounds(dim as int, i as int, pr as int);
        if 2 * i >= dim {
            lemma_mul_inequality(2 * i as int - dim as int, dim as int, pr as int);
        } else {
            lemma_mul_inequality(dim as int - 2 * i as int, dim as int, pr as int);
        }
        assert(dim as int * pr as int <= 8192 * COORD_MAX as int) by (nonlinear_arith)
            requires dim as int <= 8192 && 0 <= pr as int <= COORD_MAX as int;
        lemma_div_mono(dim as int * pr as int, 8192 * COORD_MAX as int, dim as int);
    }
    if 2 * i >= dim {
        (((2 * i - dim) as u64 * pr) / (dim as u64)) as i64
    } else {
        -((((dim - 2 * i) as u64 * pr) / (dim as u64)) as i64)
    }
}

/// The four channels baked for one texel, in executable form.
pub fn texel_at(config: &GalaxyConfig, render: &GalaxyRenderConfig, dim: u32, i: usize)
    -> (t: TexelSample)
    requires
        config.wf(),
        render.wf(),
        1 <= dim <= 8192,
        i < dim * dim,
        spec_padded_radius(*config, *render) <= COORD_MAX,
    ensures
        t == spec_texel(*config, *render, dim as int, i as int),
{
    proof {
        vstd::arithmetic::mul::lemma_mul_nonnegative(
            config.radius as int, render.padding_coeff as int);
        lemma_div_pos_is_pos(
            config.radius as int * render.padding_coeff as int, SCALE as int);
        assert(config.radius as int * render.padding_coeff as int
            <= 1_000_000_000 * 16_000_000int) by (nonlinear_arith)
            requires
                0 <= config.radius as int <= 1_000_000_000
                    && 0 <= render.padding_coeff as int <= 16_000_000;
        lemma_div_mono(config.radius as int * render.padding_coeff as int,
            1_000_000_000 * 16_000_000int, SCALE as int);
    }
    let pr = mul_fx(config.radius, render.padding_coeff);
    let pr = if pr > COORD_MAX { COORD_MAX } else { pr };
    let x = (i % (dim as usize)) as u32;
    let y = (i / (dim as usize)) as u32;
    proof {
        lemma_mod_division_less_than_divisor(i as int, dim as int);
        let ghost q = (i as int) / (dim as int);
        assert(q < dim as int) by {
            if q >= dim as int {
                lemma_mul_inequality(dim as int, q, dim as int);
                vstd::arithmetic::div_mod::lemma_fundamental_div_mod(i as int, dim as int);
                assert(dim as int * q == q * dim as int) by (nonlinear_arith);
            }
        };
        lemma_div_pos_is_pos(i as int, dim as int);
    }
    let px = texel_coord(dim, x, pr);
    let pz = texel_coord(dim, y, pr);
    let disk_painter = GalaxyComponentDensity::new(config, &config.disk_params);
    let dust_painter = GalaxyComponentDensity::new(config, &config.dust_params);
    let stars_painter = GalaxyComponentDensity::new(config, &config.stars_params);
    TexelSample {
        disk: disk_painter.xz_density(px, pz),
        dust: dust_painter.xz_density(px, pz),
        stars: stars_painter.xz_density(px, pz),
        winding: disk_painter.pos_winding(px, pz),
    }
}

/// Relies on rayon: into_par_iter over an exact-sized range with map
/// and collect yields one element per index, in index order, each the
/// closure's value at that index; the closure only calls the verified
/// texel function.
#[verifier::external_body]
fn par_map_texels(config: &GalaxyConfig, render: &GalaxyRenderConfig, dim: u32)
    -> (r: Vec<TexelSample>)
    requires
        config.wf(),
        render.wf(),
        1 <= dim <= 8192,
        spec_padded_radius(*config, *render) <= COORD_MAX,
    ensures
        r@.len() == dim * dim,
        forall|i: int| 0 <= i < dim * dim
            ==> r@[i] == spec_texel(*config, *render, dim as int, i),
{
    (0..(dim as usize) * (dim as usize))
        .into_par_iter()
        .map(|i| texel_at(config, render, dim, i))
        .collect()
}

/// Bake the density field into a dim-square grid of four-channel
/// texels, texels evaluated independently across the worker pool.
pub fn get_texture(config: &GalaxyConfig, render: &GalaxyRenderConfig)
    -> (r: Vec<TexelSample>)
    requires
        config.wf(),
        render.wf(),
        spec_padded_radius(*config, *render) <= COORD_MAX,
    ensures
        ({
            let dim = spec_npot(render.texture_dimension as int);
            &&& r@.len() == dim * dim
            &&& forall|i: int| 0 <= i < dim * dim
                ==> r@[i] == spec_texel(*config, *render, dim, i)
        }),
{
    let dim = next_power_of_two(render.texture_dimension);
    par_map_texels(config, render, dim)
}

/// Bake the same grid sequentially; the result is the same function
/// of the parameters.
pub fn get_texture_serial(config: &GalaxyConfig, render: &GalaxyRenderConfig)
    -> (r: Vec<TexelSample>)
    requires
        config.wf(),
        render.wf(),
        spec_padded_radius(*config, *render) <= COORD_MAX,
    ensures
        ({
            let dim = spec_npot(render.texture_dimension as int);
            &&& r@.len() == dim * dim
            &&& forall|i: int| 0 <= i < dim * dim
                ==> r@[i] == spec_texel(*config, *render, dim, i)
        }),
{
    let dim = next_power_of_two(render.texture_dimension);
    proof {
        assert(dim as int * dim as int <= 8192 * 8192) by (nonlinear_arith)
            requires 1 <= dim as int <= 8192;
    }
    let total = (dim as usize) * (dim as usize);
    let mut out: Vec<TexelSample> = Vec::new();
    let mut i: usize = 0;
    while i < total
        invariant
            config.wf(),
            render.wf(),
            1 <= dim <= 8192,
            spec_padded_radius(*config, *render) <= COORD_MAX,
            dim == spec_npot(render.texture_dimension as int),
            total == dim * dim,
            i <= total,
            out@.len() == i,
            forall|j: int| 0 <= j < i
                ==> out@[j] == spec_texel(*config, *render, dim as int, j),
        decreases total - i,
    {
        let t = texel_at(config, render, dim, i);
        out.push(t);
        i = i + 1;
    }
    out
}

/// Bake the one-dimensional winding lookup: width entries on each of
/// four layers, the disk winding across the unit radius on layer zero
/// and zeroes on the reserved layers.
pub fn get_lut(config: &GalaxyConfig, render: &GalaxyRenderConfig) -> (r: Vec<u64>)
    requires
        config.wf(),
        render.wf(),
    ensures
        ({
            let width = spec_npot(render.texture_dimension as int);
            &&& r@.len() == width * LUT_LAYERS
            &&& forall|i: int| 0 <= i < width * LUT_LAYERS
                ==> r@[i] == spec_lut_entry(*config, width, i)
        }),
{
    let width = next_power_of_two(render.texture_dimension);
    let total = (width as usize) * (LUT_LAYERS as usize);
    let mut out: Vec<u64> = Vec::new();
    let mut i: usize = 0;
    while i < total
        invariant
            config.wf(),
            1 <= width <= 8192,
            width == spec_npot(render.texture_dimension as int),
            total == width * LUT_LAYERS,
            i <= total,
            out@.len() == i,
            forall|j: int| 0 <= j < i
                ==> out@[j] == spec_lut_entry(*config, width as int, j),
        decreases total - i,
    {
        let x = i % (width as usize);
        let layer = i / (width as usize);
        let val: u64 = if layer == 0 {
            proof {
                lemma_mod_division_less_than_divisor(i as int, width as int);
                lemma_div_mono((x as int) * SCALE as int,
                    8192 * SCALE as int, width as int);
                lemma_mul_inequality(x as int, 8192, SCALE as int);
                vstd::arithmetic::mul::lemma_mul_nonnegative(x as int, SCALE as int);
                lemma_div_pos_is_pos((x as int) * SCALE as int, width as int);
            }
            let d = div_fx(x as u64, width as u64);
            let painter = GalaxyComponentDensity::new(config, &config.disk_params);
            painter.rad_winding(d)
        } else {
            0
        };
        out.push(val);
        i = i + 1;
    }
    out
}

/// The bake is deterministic: two grids that are each the baked image
/// of the same parameters are texel-for-texel identical.
pub proof fn lemma_bake_deterministic(
    g: GalaxyConfig, r: GalaxyRenderConfig, t1: Seq<TexelSample>, t2: Seq<TexelSample>,
)
    requires
        t1.len() == spec_npot(r.texture_dimension as int) * spec_npot(
            r.texture_dimension as int),
        t2.len() == t1.len(),
        forall|i: int| 0 <= i < t1.len()
            ==> t1[i] == spec_texel(g, r, spec_npot(r.texture_dimension as int), i),
        forall|i: int| 0 <= i < t2.len()
            ==> t2[i] == spec_texel(g, r, spec_npot(r.texture_dimension as int), i),
    ensures
        t1 == t2,
{
    assert(t1 =~= t2);
}

/// Holder of the published bake: the current grid and lookup, the
/// resolution they were baked at, and the generation they reflect.
pub struct GalaxyTexture {
    pub tex: Option<Vec<TexelSample>>,
    pub luts: Option<Vec<u64>>,
    pub dimension: u32,
    pub generation: i64,
}

impl GalaxyTexture {
    /// An empty holder: nothing baked yet.
    pub fn new() -> (r: GalaxyTexture)
        ensures
            r.tex is None,
            r.luts is None,
            r.dimension == 0,
            r.generation == 0,
    {
        GalaxyTexture { tex: None, luts: None, dimension: 0, generation: 0 }
    }

    /// The published grid holds the bake of configuration g at
    /// renderer settings r.
    pub open spec fn holds_bake_of(self, g: GalaxyConfig, r: GalaxyRenderConfig) -> bool {
        let dim = spec_npot(r.texture_dimension as int);
        &&& self.tex is Some
        &&& self.luts is Some
        &&& self.dimension == dim
        &&& self.tex->Some_0@.len() == dim * dim
        &&& forall|i: int| 0 <= i < dim * dim
            ==> self.tex->Some_0@[i] == spec_texel(g, r, dim, i)
        &&& self.luts->Some_0@.len() == dim * LUT_LAYERS
        &&& forall|i: int| 0 <= i < dim * LUT_LAYERS
            ==> self.luts->Some_0@[i] == spec_lut_entry(g, dim, i)
    }

    /// Rebake if and only if the configuration generation moved, no
    /// grid exists yet, or the requested resolution changed; edge
    /// triggered, so polling with an unchanged configuration leaves
    /// the holder untouched.
    pub fn update_texture(&mut self, config: &GalaxyConfig, render: &GalaxyRenderConfig)
        -> (rebaked: bool)
        requires
            config.wf(),
            render.wf(),
            spec_padded_radius(*config, *render) <= COORD_MAX,
        ensures
            rebaked == (old(self).generation != config.generation
                || old(self).tex is None
                || old(self).dimension != spec_npot(render.texture_dimension as int)),
            rebaked ==> final(self).holds_bake_of(*config, *render),
            rebaked ==> final(self).generation == config.generation,
            !rebaked ==> *final(self) == *old(self),
    {
        let dim = next_power_of_two(render.texture_dimension);
        if self.generation != config.generation || self.tex.is_none()
            || self.dimension != dim {
            self.tex = Some(get_texture(config, render));
            self.dimension = dim;
            self.luts = Some(get_lut(config, render));
            self.generation = config.generation;
            true
        } else {
            false
        }
    }
}

} // verus!
