use galaxy_tracer::texture::next_power_of_two;
use galaxy_tracer::{
    get_lut, get_texture, get_texture_serial, GalaxyComponentDensity, GalaxyConfig,
    GalaxyRenderConfig, GalaxyTexture, SCALE,
};

fn small_render() -> GalaxyRenderConfig {
    let mut r = GalaxyRenderConfig::default();
    r.texture_dimension = 16;
    r
}

#[test]
fn next_power_of_two_exact_values() {
    assert_eq!(next_power_of_two(0), 1);
    assert_eq!(next_power_of_two(1), 1);
    assert_eq!(next_power_of_two(2), 2);
    assert_eq!(next_power_of_two(3), 4);
    assert_eq!(next_power_of_two(512), 512);
    assert_eq!(next_power_of_two(513), 1024);
    assert_eq!(next_power_of_two(8192), 8192);
}

#[test]
fn bake_is_deterministic() {
    // identical parameters give byte-identical grids
    let g = GalaxyConfig::default();
    let r = small_render();
    let a = get_texture(&g, &r);
    let b = get_texture(&g, &r);
    assert_eq!(a, b);
    let la = get_lut(&g, &r);
    let lb = get_lut(&g, &r);
    assert_eq!(la, lb);
}

#[test]
fn parallel_bake_matches_serial() {
    // the rayon path must agree texel for texel with the plain loop
    let g = GalaxyConfig::default();
    let r = small_render();
    let par = get_texture(&g, &r);
    let ser = get_texture_serial(&g, &r);
    assert_eq!(par, ser);
}

#[test]
fn bake_grid_shape_and_content() {
    let g = GalaxyConfig::default();
    let r = small_render();
    let tex = get_texture(&g, &r);
    assert_eq!(tex.len(), 16 * 16);
    let painter = GalaxyComponentDensity::new(&g, &g.disk_params);
    for t in &tex {
        assert!(t.disk <= SCALE);
        assert!(t.dust <= SCALE);
        assert!(t.stars <= SCALE);
    }
    // the texel channels are the evaluator's values at the texel's
    // world position; check one off-center texel by hand
    let dim: i64 = 16;
    let (x, y) = (12i64, 5i64);
    let pr = (g.radius * r.padding_coeff / SCALE) as i64;
    let px = (2 * x - dim) * pr / dim;
    let pz = (2 * y - dim) * pr / dim;
    let i = (y * dim + x) as usize;
    assert_eq!(tex[i].disk, painter.xz_density(px, pz));
    assert_eq!(tex[i].winding, painter.pos_winding(px, pz));
}

#[test]
fn lut_layers_and_values() {
    let g = GalaxyConfig::default();
    let r = small_render();
    let lut = get_lut(&g, &r);
    assert_eq!(lut.len(), 16 * 4);
    let painter = GalaxyComponentDensity::new(&g, &g.disk_params);
    for x in 0..16u64 {
        let d = x * SCALE / 16;
        assert_eq!(lut[x as usize], painter.rad_winding(d));
    }
    for i in 16..64 {
        assert_eq!(lut[i], 0, "reserved layer not zero at {i}");
    }
}

#[test]
fn rebake_is_edge_triggered() {
    let mut g = GalaxyConfig::default();
    let r = small_render();
    let mut holder = GalaxyTexture::new();
    // first poll: nothing baked yet
    assert!(holder.update_texture(&g, &r));
    assert_eq!(holder.generation, g.generation);
    assert_eq!(holder.dimension, 16);
    assert!(holder.tex.is_some());
    assert!(holder.luts.is_some());
    // polling again with nothing changed must not rebake
    assert!(!holder.update_texture(&g, &r));
    assert!(!holder.update_texture(&g, &r));
    // a generation bump forces exactly one rebake
    g.bump_generation();
    assert!(holder.update_texture(&g, &r));
    assert_eq!(holder.generation, g.generation);
    assert!(!holder.update_texture(&g, &r));
    // a resolution change forces a rebake too
    let mut r2 = r;
    r2.texture_dimension = 20;
    assert!(holder.update_texture(&g, &r2));
    assert_eq!(holder.dimension, 32);
    assert_eq!(holder.tex.as_ref().unwrap().len(), 32 * 32);
    assert!(!holder.update_texture(&g, &r2));
}

#[test]
fn rebake_reflects_new_parameters() {
    let mut g = GalaxyConfig::default();
    let r = small_render();
    let mut holder = GalaxyTexture::new();
    holder.update_texture(&g, &r);
    let before = holder.tex.clone().unwrap();
    g.winding_n = 2 * SCALE;
    g.bump_generation();
    holder.update_texture(&g, &r);
    let after = holder.tex.clone().unwrap();
    assert_ne!(before, after);
    assert_eq!(after, get_texture(&g, &r));
}
