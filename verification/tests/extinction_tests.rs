use galaxy_tracer::{
    Color3, ExtinctionCache, GalaxyConfig, Pos3, Star, StarCount, StarSpawningControl,
};

fn star(index: u32, x: i64, mass: u64) -> Star {
    Star { index, position: Pos3 { x, y: 0, z: -x }, mass }
}

#[test]
fn cache_resizes_and_writes_by_index() {
    let mut cache = ExtinctionCache::new();
    cache.required_size = 4;
    let batch = vec![star(1, 10, 1_000_000), star(3, 30, 2_000_000)];
    cache.update_positions(&batch);
    assert_eq!(cache.size, 4);
    assert_eq!(cache.positions.len(), 4);
    assert_eq!(cache.colours.len(), 4);
    assert_eq!(cache.positions[1], Pos3 { x: 10, y: 0, z: -10 });
    assert_eq!(cache.positions[3], Pos3 { x: 30, y: 0, z: -30 });
    // untouched entries stay zeroed
    assert_eq!(cache.positions[0], Pos3 { x: 0, y: 0, z: 0 });
    assert_eq!(cache.positions[2], Pos3 { x: 0, y: 0, z: 0 });
    assert_eq!(cache.colours[0], Color3 { r: 0, g: 0, b: 0 });
    // written colours are the stars' derived colors
    assert_eq!(cache.colours[1], batch[0].color());
    assert_eq!(cache.colours[3], batch[1].color());
}

#[test]
fn cache_keeps_old_entries_across_growth() {
    let mut cache = ExtinctionCache::new();
    cache.required_size = 2;
    cache.update_positions(&vec![star(0, 5, 1_000_000), star(1, 6, 1_000_000)]);
    let kept = cache.positions[0];
    cache.required_size = 3;
    cache.update_positions(&vec![star(2, 7, 1_000_000)]);
    assert_eq!(cache.size, 3);
    assert_eq!(cache.positions[0], kept);
    assert_eq!(cache.positions[2], Pos3 { x: 7, y: 0, z: -7 });
}

#[test]
fn cache_truncates_on_shrink() {
    let mut cache = ExtinctionCache::new();
    cache.required_size = 5;
    cache.update_positions(&vec![star(4, 9, 1_000_000)]);
    cache.required_size = 2;
    cache.update_positions(&vec![star(0, 1, 1_000_000)]);
    assert_eq!(cache.positions.len(), 2);
    assert_eq!(cache.positions[0], Pos3 { x: 1, y: 0, z: -1 });
}

#[test]
fn cache_follows_scheduler_batches() {
    let mut g = GalaxyConfig::default();
    g.stars_per_arm = 100;
    g.n_arms = 3;
    let mut control = StarSpawningControl::new();
    let mut count = StarCount { count: 0 };
    let mut cache = ExtinctionCache::new();
    let t = control.tick(&g, &mut count, 2);
    assert!(t.discarded);
    cache.required_size = count.count as usize;
    cache.update_positions(&t.batch);
    assert_eq!(cache.size, 300);
    for s in &t.batch {
        assert_eq!(cache.positions[s.index as usize], s.position);
    }
}
