use galaxy_tracer::{ArmConfig, ComponentConfig, GalaxyConfig, SCALE};

#[test]
fn default_galaxy_matches_ui_defaults() {
    let g = GalaxyConfig::default();
    assert_eq!(g.generation, 1);
    assert_eq!(g.radius, 500 * SCALE);
    assert_eq!(g.n_arms, 3);
    assert_eq!(g.winding_b, 500_000);
    assert_eq!(g.winding_n, 4 * SCALE);
    assert_eq!(g.stars_per_arm, 10_000);
    assert_eq!(g.arm_offsets, vec![0, 270_000, 540_000, 810_000]);
    assert_eq!(g.disk_params.arm_width, 300_000);
    assert_eq!(g.dust_params.arm_width, 250_000);
    // the dust component's minus forty-five degrees, kept positive
    assert_eq!(g.dust_params.angular_offset, 945_000);
}

#[test]
fn bump_generation_increments_only_the_stamp() {
    let mut g = GalaxyConfig::default();
    let radius = g.radius;
    g.bump_generation();
    g.bump_generation();
    assert_eq!(g.generation, 3);
    assert_eq!(g.radius, radius);
}

#[test]
fn update_arms_packs_enabled_slots() {
    // the default slots enable only the first and third arm
    let mut g = GalaxyConfig::default();
    let (spacing, bs, br, bi) =
        (g.spacing, g.bulge_strength, g.bulge_radius, g.bulge_intensity);
    g.update_arms();
    // nothing but the arm fields moves
    assert_eq!(
        (g.spacing, g.bulge_strength, g.bulge_radius, g.bulge_intensity),
        (spacing, bs, br, bi)
    );
    assert_eq!(g.n_arms, 2);
    assert_eq!(g.arm_offsets[0], 0);
    assert_eq!(g.arm_offsets[1], 540_000);
    // entries beyond the arm count keep their old values
    assert_eq!(g.arm_offsets[2], 540_000);
    assert_eq!(g.arm_offsets[3], 810_000);
}

#[test]
fn update_arms_converts_degrees_exactly() {
    let mut g = GalaxyConfig::default();
    g.arm_configs = vec![
        ArmConfig { enabled: true, offset: 10 },
        ArmConfig { enabled: true, offset: 90 },
        ArmConfig { enabled: true, offset: 181 },
        ArmConfig { enabled: true, offset: 359 },
    ];
    g.update_arms();
    assert_eq!(g.n_arms, 4);
    assert_eq!(g.arm_offsets, vec![30_000, 270_000, 543_000, 1_077_000]);
}

#[test]
fn update_arms_with_no_enabled_slot() {
    let mut g = GalaxyConfig::default();
    g.arm_configs = vec![ArmConfig { enabled: false, offset: 0 }; 4];
    g.update_arms();
    assert_eq!(g.n_arms, 0);
}

#[test]
fn component_bounds_bracket_the_defaults() {
    let lo = ComponentConfig::min_bounds();
    let hi = ComponentConfig::max_bounds();
    let d = ComponentConfig::default();
    assert!(lo.arm_width <= d.arm_width && d.arm_width <= hi.arm_width);
    assert!(lo.strength <= d.strength && d.strength <= hi.strength);
    assert!(lo.radial_extent <= d.radial_extent && d.radial_extent <= hi.radial_extent);
    assert!(lo.radial_dropoff <= d.radial_dropoff && d.radial_dropoff <= hi.radial_dropoff);
    assert_eq!(lo.strength, 0);
    assert_eq!(hi.strength, 2_000_000_000);
}
