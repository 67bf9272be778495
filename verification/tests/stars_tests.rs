use galaxy_tracer::stars::{
    candidate_from, mass_for, random_star_mass, reservoir_step, sample_star_pos, BATCH_SIZE,
    MAX_MASS, MIN_MASS,
};
use galaxy_tracer::{
    GalaxyComponentDensity, GalaxyConfig, Pos3, Star, StarCount, StarSpawningControl,
};

/// A galaxy asking for exactly twelve thousand stars.
fn twelve_thousand_star_galaxy() -> GalaxyConfig {
    let mut g = GalaxyConfig::default();
    g.stars_per_arm = 4_000;
    g.n_arms = 3;
    g
}

#[test]
fn mass_for_exact_values() {
    // class low bounds at fraction zero
    assert_eq!(mass_for(0, 0), 80_000);
    assert_eq!(mass_for(25, 0), 450_000);
    assert_eq!(mass_for(75, 0), 800_000);
    assert_eq!(mass_for(175, 0), 1_040_000);
    assert_eq!(mass_for(275, 0), 1_400_000);
    assert_eq!(mass_for(375, 0), 2_100_000);
    assert_eq!(mass_for(425, 0), 16_000_000);
    // the midpoint of the lightest class: 0.08 + 0.5 * 0.37
    assert_eq!(mass_for(0, 500_000), 265_000);
}

#[test]
fn random_star_mass_stays_in_table_range() {
    let mut seen = std::collections::HashSet::new();
    for _ in 0..200 {
        let m = random_star_mass();
        assert!((MIN_MASS..MAX_MASS).contains(&m));
        seen.insert(m);
    }
    // a frozen generator would repeat a single value
    assert!(seen.len() > 1);
}

#[test]
fn temperature_exact_for_unit_mass() {
    let star = Star { index: 0, position: galaxy_tracer::Pos3 { x: 0, y: 0, z: 0 }, mass: 1_000_000 };
    // one solar mass to the five-eighths is one; times 5772 Kelvin
    assert_eq!(star.temperature(), 5_772_000_000);
}

#[test]
fn cool_star_colors_red() {
    let star = Star { index: 0, position: galaxy_tracer::Pos3 { x: 0, y: 0, z: 0 }, mass: 200_000 };
    let c = star.color();
    assert!(c.r > 0);
    assert!(c.r > c.b, "cool star not red-dominant: {c:?}");
}

#[test]
fn hot_star_brighter_than_cool_star() {
    let cool = Star { index: 0, position: galaxy_tracer::Pos3 { x: 0, y: 0, z: 0 }, mass: 200_000 };
    let hot = Star { index: 1, position: galaxy_tracer::Pos3 { x: 0, y: 0, z: 0 }, mass: 20_000_000 };
    assert!(hot.temperature() > cool.temperature());
    let (hc, cc) = (hot.color(), cool.color());
    assert!(hc.b > cc.b);
}

#[test]
fn candidate_from_exact_values() {
    let radius = 500_000_000;
    // zero draws land on the disk plane's center
    assert_eq!(candidate_from(0, 0, 2_000_000, radius), Pos3 { x: 0, y: 0, z: 0 });
    // a full-length draw at angle zero runs along the x axis, the
    // height draw at its top: sqrt(0.999999) of the radius, doubled;
    // the top of the height band stays out, as the draw is half-open
    assert_eq!(
        candidate_from(999_999, 0, 3_999_999, radius),
        Pos3 { x: 999_999_000, y: 3_999_998, z: 0 }
    );
    // a quarter turn moves the same length onto the z axis, the
    // height draw at its bottom
    assert_eq!(
        candidate_from(999_999, 270_000, 0, radius),
        Pos3 { x: 0, y: -4_000_000, z: 999_999_000 }
    );
}

#[test]
fn reservoir_step_survivor_rule() {
    let a = Pos3 { x: 1, y: 2, z: 3 };
    let b = Pos3 { x: 4, y: 5, z: 6 };
    // the candidate survives exactly when the draw is below its weight
    assert_eq!(reservoir_step(a, b, 5, 0), b);
    assert_eq!(reservoir_step(a, b, 5, 4), b);
    assert_eq!(reservoir_step(a, b, 5, 5), a);
    assert_eq!(reservoir_step(a, b, 5, 100), a);
    assert_eq!(reservoir_step(a, b, 0, 0), a);
}

#[test]
fn sampled_positions_stay_in_band() {
    let g = GalaxyConfig::default();
    let limit = (2 * g.radius) as i128;
    for _ in 0..50 {
        let p = sample_star_pos(&g, 8);
        assert!(p.x.unsigned_abs() <= 2 * g.radius);
        assert!(p.z.unsigned_abs() <= 2 * g.radius);
        // the planar point lies in the disk, not just the box
        let sq = (p.x as i128) * (p.x as i128) + (p.z as i128) * (p.z as i128);
        assert!(sq <= limit * limit);
        assert!(-4_000_000 <= p.y && p.y < 4_000_000);
    }
}

#[test]
fn twelve_thousand_stars_take_three_ticks() {
    // requesting 12000 stars with batches of 4096 completes in
    // exactly three placements: 4096, 4096, 3808
    let g = twelve_thousand_star_galaxy();
    let mut control = StarSpawningControl::new();
    let mut count = StarCount { count: 0 };
    assert_eq!(BATCH_SIZE, 4096);

    let t1 = control.tick(&g, &mut count, 2);
    assert!(t1.discarded);
    assert_eq!(count.count, 12_000);
    assert_eq!(t1.batch.len(), 4096);
    assert_eq!(t1.batch[0].index, 0);
    assert_eq!(t1.batch[4095].index, 4095);

    let t2 = control.tick(&g, &mut count, 2);
    assert!(!t2.discarded);
    assert_eq!(t2.batch.len(), 4096);
    assert_eq!(t2.batch[0].index, 4096);

    let t3 = control.tick(&g, &mut count, 2);
    assert!(!t3.discarded);
    assert_eq!(t3.batch.len(), 3808);
    assert_eq!(t3.batch[3807].index, 11_999);

    // the set is complete: further ticks place nothing
    let t4 = control.tick(&g, &mut count, 2);
    assert!(!t4.discarded);
    assert_eq!(t4.batch.len(), 0);
    assert_eq!(control.next_star_index, 12_000);
    assert_eq!(control.stars_left_to_place, 0);
    assert_eq!(count.count, 12_000);
}

#[test]
fn generation_bump_discards_before_placing() {
    let mut g = twelve_thousand_star_galaxy();
    let mut control = StarSpawningControl::new();
    let mut count = StarCount { count: 0 };
    control.tick(&g, &mut count, 2);
    control.tick(&g, &mut count, 2);
    assert_eq!(control.next_star_index, 8192);

    // an edit mid-placement restarts the population from scratch
    g.stars_per_arm = 1_000;
    g.bump_generation();
    let t = control.tick(&g, &mut count, 2);
    assert!(t.discarded);
    assert_eq!(count.count, 3_000);
    assert_eq!(t.batch.len(), 3_000);
    assert_eq!(t.batch[0].index, 0);
    assert_eq!(control.next_star_index, 3_000);
    assert_eq!(control.stars_left_to_place, 0);
}

#[test]
fn disabled_stars_reset_but_place_nothing() {
    let mut g = twelve_thousand_star_galaxy();
    g.stars_params.enabled = false;
    let mut control = StarSpawningControl::new();
    let mut count = StarCount { count: 0 };
    let t = control.tick(&g, &mut count, 2);
    assert!(t.discarded);
    assert_eq!(count.count, 12_000);
    assert_eq!(t.batch.len(), 0);
    assert_eq!(control.stars_left_to_place, 12_000);
    assert_eq!(control.next_star_index, 0);
}

#[test]
fn batch_star_masses_and_positions_valid() {
    let g = twelve_thousand_star_galaxy();
    let mut control = StarSpawningControl::new();
    let mut count = StarCount { count: 0 };
    let t = control.tick(&g, &mut count, 2);
    for s in &t.batch {
        assert!((MIN_MASS..MAX_MASS).contains(&s.mass));
        assert!(s.position.x.unsigned_abs() <= 2 * g.radius);
        assert!(s.position.z.unsigned_abs() <= 2 * g.radius);
    }
    // the batch really was sampled: thousands of draws cannot agree
    let first = t.batch[0].position;
    assert!(t.batch.iter().any(|s| s.position != first));
}

#[test]
fn placement_histogram_follows_density() {
    // the spatial histogram of many draws correlates with the field
    let g = GalaxyConfig::default();
    let painter = GalaxyComponentDensity::new(&g, &g.stars_params);
    const CELLS: usize = 6;
    let draws = 1_800;
    let candidates = 32;
    let extent = 2 * g.radius as i64;
    let cell = (2 * extent) / CELLS as i64;
    let mut histogram = [[0f64; CELLS]; CELLS];
    for _ in 0..draws {
        let p = sample_star_pos(&g, candidates);
        let cx = (((p.x + extent).min(2 * extent - 1)) / cell) as usize;
        let cz = (((p.z + extent).min(2 * extent - 1)) / cell) as usize;
        histogram[cx][cz] += 1.0;
    }
    let mut reference = [[0f64; CELLS]; CELLS];
    for (i, row) in reference.iter_mut().enumerate() {
        for (j, slot) in row.iter_mut().enumerate() {
            let x = -extent + cell / 2 + cell * i as i64;
            let z = -extent + cell / 2 + cell * j as i64;
            *slot = painter.xz_density(x, z) as f64;
        }
    }
    let flat_h: Vec<f64> = histogram.iter().flatten().copied().collect();
    let flat_r: Vec<f64> = reference.iter().flatten().copied().collect();
    let n = flat_h.len() as f64;
    let mean_h: f64 = flat_h.iter().sum::<f64>() / n;
    let mean_r: f64 = flat_r.iter().sum::<f64>() / n;
    let mut cov = 0.0;
    let mut var_h = 0.0;
    let mut var_r = 0.0;
    for k in 0..flat_h.len() {
        let dh = flat_h[k] - mean_h;
        let dr = flat_r[k] - mean_r;
        cov += dh * dr;
        var_h += dh * dh;
        var_r += dr * dr;
    }
    let pearson = cov / (var_h.sqrt() * var_r.sqrt());
    assert!(pearson > 0.3, "histogram does not follow the field: r = {pearson}");
}
