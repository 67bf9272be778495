use galaxy_tracer::curves::{atan_fx, cos_units, exp_neg, sin_units, QUARTER_TURN, TURN};
use galaxy_tracer::fixed::isqrt;
use galaxy_tracer::{ComponentConfig, GalaxyComponentDensity, GalaxyConfig, SCALE};

fn default_galaxy() -> GalaxyConfig {
    GalaxyConfig::default()
}

/// A galaxy whose three arms sit at exact thirds of a turn.
fn three_armed_galaxy() -> GalaxyConfig {
    let mut g = GalaxyConfig::default();
    g.n_arms = 3;
    g.arm_offsets = vec![0, TURN / 3, 2 * (TURN / 3), 0];
    g
}

#[test]
fn isqrt_exact_values() {
    assert_eq!(isqrt(0), 0);
    assert_eq!(isqrt(15), 3);
    assert_eq!(isqrt(16), 4);
    assert_eq!(isqrt(1_000_000_000_000), 1_000_000);
}

#[test]
fn atan_exact_endpoints() {
    assert_eq!(atan_fx(0), 0);
    assert_eq!(atan_fx(SCALE), 135_000);
    assert!(atan_fx(u64::MAX / 2) <= QUARTER_TURN);
}

#[test]
fn atan_monotone_samples() {
    let mut prev = 0;
    for x in [0u64, 1, 100, 62_500, 250_000, 999_999, 1_000_000, 2_000_000, 50_000_000] {
        let v = atan_fx(x);
        assert!(v >= prev, "atan fell at {x}");
        prev = v;
    }
}

#[test]
fn exp_exact_values() {
    assert_eq!(exp_neg(0), 1_000_000);
    assert_eq!(exp_neg(1_000_000), 367_879);
    assert_eq!(exp_neg(16_000_000), 0);
}

#[test]
fn exp_antitone_samples() {
    let mut prev = u64::MAX;
    for x in [0u64, 1, 40_000, 62_500, 500_000, 1_000_000, 2_500_000, 9_000_000, 20_000_000] {
        let v = exp_neg(x);
        assert!(v <= prev, "exp rose at {x}");
        prev = v;
    }
}

#[test]
fn trig_exact_values() {
    assert_eq!(cos_units(0), (1_000_000, false));
    assert_eq!(cos_units(QUARTER_TURN).0, 0);
    assert_eq!(cos_units(2 * QUARTER_TURN), (1_000_000, true));
    assert_eq!(sin_units(QUARTER_TURN), (1_000_000, false));
    assert_eq!(sin_units(0).0, 0);
}

#[test]
fn winding_monotone_along_radius() {
    let g = default_galaxy();
    let painter = GalaxyComponentDensity::new(&g, &g.disk_params);
    let mut prev = 0;
    for d in (0..=40u64).map(|k| k * 100_000) {
        let w = painter.rad_winding(d);
        assert!(w >= prev, "winding fell at d = {d}");
        prev = w;
    }
    assert!(prev > 0, "winding stayed at zero");
}

#[test]
fn winding_with_degenerate_b_is_quarter_turns() {
    let mut g = default_galaxy();
    g.winding_b = 0;
    let painter = GalaxyComponentDensity::new(&g, &g.disk_params);
    // atan saturates at a quarter turn, times 2 * winding_n = 8
    assert_eq!(painter.rad_winding(0), QUARTER_TURN * 8);
    assert_eq!(painter.rad_winding(SCALE), QUARTER_TURN * 8);
}

#[test]
fn rotational_symmetry_polar_three_arms() {
    let g = three_armed_galaxy();
    let third = TURN / 3;
    for &c in &[&g.disk_params, &g.dust_params, &g.stars_params] {
        let painter = GalaxyComponentDensity::new(&g, c);
        for d in [100_000u64, 400_000, 700_000, 1_000_000] {
            for theta in [0u64, 123_456, 539_999, 900_000] {
                let a = painter.xz_density_polar(d, theta);
                let b = painter.xz_density_polar(d, theta + third);
                assert_eq!(a, b, "asymmetry at d = {d}, theta = {theta}");
            }
        }
    }
}

#[test]
fn rotational_symmetry_polar_two_and_four_arms() {
    let mut g = default_galaxy();
    for n in [2u64, 4] {
        g.n_arms = n;
        let step = TURN / n;
        let mut offsets = vec![0u64; 4];
        for (i, slot) in offsets.iter_mut().enumerate().take(n as usize) {
            *slot = i as u64 * step;
        }
        g.arm_offsets = offsets;
        let painter = GalaxyComponentDensity::new(&g, &g.disk_params);
        for d in [200_000u64, 500_000] {
            for theta in [0u64, 77_777, 400_000] {
                assert_eq!(
                    painter.xz_density_polar(d, theta),
                    painter.xz_density_polar(d, theta + step),
                );
            }
        }
    }
}

#[test]
fn rotational_symmetry_cartesian_half_turn() {
    let mut g = default_galaxy();
    g.n_arms = 2;
    g.arm_offsets = vec![0, TURN / 2, 0, 0];
    let painter = GalaxyComponentDensity::new(&g, &g.disk_params);
    for (x, z) in [
        (200_000_000i64, 0i64),
        (140_000_000, 140_000_000),
        (-50_000_000, 170_000_000),
        (3_000_000, -250_000_000),
    ] {
        assert_eq!(painter.xz_density(x, z), painter.xz_density(-x, -z));
    }
}

#[test]
fn center_density_is_near_zero() {
    // the worked example: central falloff dominates at the origin
    let g = three_armed_galaxy();
    let painter = GalaxyComponentDensity::new(&g, &g.disk_params);
    assert_eq!(painter.xz_density(0, 0), 0);
}

#[test]
fn arm_centerline_beats_off_arm() {
    // the worked example: radius 500, winding 0.5 / 4.0, three arms,
    // disk extent 0.4 and dropoff 0.05, arm width 0.3; a point on an
    // arm's angular locus at d = 0.4 outweighs one ninety degrees off
    let g = three_armed_galaxy();
    let painter = GalaxyComponentDensity::new(&g, &g.disk_params);
    let d = 400_000;
    let on_arm = painter.rad_winding(d) % TURN;
    let off_arm = (on_arm + QUARTER_TURN) % TURN;
    let peak = painter.xz_density_polar(d, on_arm);
    let side = painter.xz_density_polar(d, off_arm);
    assert!(peak > side, "peak {peak} not above side {side}");
    assert!(peak > 0);
}

#[test]
fn degenerate_configurations_yield_zero() {
    let mut g = default_galaxy();
    g.radius = 0;
    let painter = GalaxyComponentDensity::new(&g, &g.disk_params);
    assert_eq!(painter.xz_density(100, 100), 0);
    assert_eq!(painter.pos_winding(100, 100), 0);

    let mut g = default_galaxy();
    g.n_arms = 0;
    let painter = GalaxyComponentDensity::new(&g, &g.disk_params);
    assert_eq!(painter.xz_density(200_000_000, 0), 0);

    let mut g = default_galaxy();
    g.disk_params.radial_extent = 0;
    let painter = GalaxyComponentDensity::new(&g, &g.disk_params);
    assert_eq!(painter.xz_density(200_000_000, 0), 0);
}

#[test]
fn height_modulation_edges() {
    let g = default_galaxy();
    let painter = GalaxyComponentDensity::new(&g, &g.disk_params);
    let (x, z) = (200_000_000i64, 10_000_000i64);
    let planar = painter.xz_density(x, z);
    // at height zero the vertical profile is exactly one
    assert_eq!(painter.xyz_density(x, 0, z), planar);
    // beyond twice the vertical scale the density is cut to zero
    // (thickness 0.02 * radius 500 = 10 units; 2 * 10 = 20), and the
    // cut sits exactly at the band edge
    assert_eq!(painter.xyz_density(x, 2_000_000_000, z), 0);
    assert!(painter.xyz_density(x, 20_000_000, z) > 0);
    assert_eq!(painter.xyz_density(x, 20_000_001, z), 0);
    assert_eq!(painter.xyz_density(x, -20_000_001, z), 0);
    // the profile falls with height
    let low = painter.xyz_density(x, 2_000_000, z);
    let high = painter.xyz_density(x, 8_000_000, z);
    assert!(low <= planar);
    assert!(high <= low);
}

#[test]
fn component_angular_offset_shifts_field() {
    let g = default_galaxy();
    let mut shifted = ComponentConfig::default();
    shifted.angular_offset = 300_000;
    let base = GalaxyComponentDensity::new(&g, &g.disk_params);
    let turned = GalaxyComponentDensity::new(&g, &shifted);
    // some position distinguishes the two fields
    let mut differs = false;
    for k in 0..8i64 {
        let x = 50_000_000 + k * 30_000_000;
        if base.xz_density(x, 120_000_000) != turned.xz_density(x, 120_000_000) {
            differs = true;
        }
    }
    assert!(differs);
}
