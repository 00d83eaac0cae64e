use tilecache::cache::TileCache;
use tilecache::coords::TileKey;
use tilecache::scheduler::{max_concurrent_loads, visible_range};

fn k(x: u32, y: u32, zoom: i32) -> TileKey {
    TileKey { x, y, zoom }
}

fn all_keep(zoom: i32) -> Vec<bool> {
    let side = (2 * visible_range(zoom) + 1) as usize;
    vec![true; side * side]
}

#[test]
fn windows_and_budgets_by_zoom() {
    assert_eq!(visible_range(18), 3);
    assert_eq!(visible_range(16), 4);
    assert_eq!(visible_range(14), 5);
    assert_eq!(visible_range(13), 6);
    assert_eq!(max_concurrent_loads(17), 8);
    assert_eq!(max_concurrent_loads(15), 10);
    assert_eq!(max_concurrent_loads(14), 12);
}

#[test]
fn dispatches_closest_first_up_to_budget() {
    let mut cache = TileCache::new(15, 17);
    let pending: Vec<TileKey> = Vec::new();
    let plan = cache.process_tiles(500, 500, &pending, &all_keep(15));
    assert!(plan.overlay.is_empty());
    assert_eq!(plan.regular.len(), 10);
    let expected = vec![
        k(500, 500, 15),
        k(499, 500, 15),
        k(500, 499, 15),
        k(500, 501, 15),
        k(501, 500, 15),
        k(498, 500, 15),
        k(499, 499, 15),
        k(499, 501, 15),
        k(500, 498, 15),
        k(500, 502, 15),
    ];
    assert_eq!(plan.regular, expected);
}

#[test]
fn never_redispatches_a_loaded_key() {
    let mut cache = TileCache::new(15, 17);
    let pending: Vec<TileKey> = Vec::new();
    let first = cache.process_tiles(500, 500, &pending, &all_keep(15)).regular;
    let second = cache.process_tiles(500, 500, &pending, &all_keep(15)).regular;
    assert_eq!(first.len(), 10);
    assert_eq!(second.len(), 10);
    for key in &second {
        assert!(!first.contains(key));
    }
}

#[test]
fn pending_queue_also_blocks_dispatch() {
    let mut cache = TileCache::new(15, 17);
    let pending = vec![k(500, 500, 15)];
    let plan = cache.process_tiles(500, 500, &pending, &all_keep(15));
    assert_eq!(plan.regular.len(), 10);
    assert!(!plan.regular.contains(&k(500, 500, 15)));
    assert_eq!(plan.regular[0], k(499, 500, 15));
}

#[test]
fn frustum_flag_discards_a_candidate() {
    let mut cache = TileCache::new(15, 17);
    let pending: Vec<TileKey> = Vec::new();
    let mut keep = all_keep(15);
    // The center tile sits at row-major position (5, 5) of the 11-wide window.
    keep[5 * 11 + 5] = false;
    let plan = cache.process_tiles(500, 500, &pending, &keep);
    assert!(!plan.regular.contains(&k(500, 500, 15)));
    assert_eq!(plan.regular[0], k(499, 500, 15));
}

#[test]
fn budget_tiers_apply_at_their_zooms() {
    let mut cache = TileCache::new(17, 18);
    let pending: Vec<TileKey> = Vec::new();
    let plan = cache.process_tiles(500, 500, &pending, &all_keep(17));
    assert_eq!(plan.regular.len(), 8);

    let mut far = TileCache::new(13, 18);
    let plan = far.process_tiles(500, 500, &pending, &all_keep(13));
    assert_eq!(plan.regular.len(), 12);
}

#[test]
fn clamped_corner_window_never_double_dispatches() {
    // At the grid corner the window clamps onto itself, so many candidates
    // carry the same key; each key is still dispatched at most once.
    let mut cache = TileCache::new(15, 17);
    let pending: Vec<TileKey> = Vec::new();
    let plan = cache.process_tiles(0, 0, &pending, &all_keep(15));
    assert!(plan.regular.len() <= 10);
    for (i, a) in plan.regular.iter().enumerate() {
        for b in &plan.regular[i + 1..] {
            assert_ne!(a, b);
        }
    }
    assert_eq!(plan.regular[0], k(0, 0, 15));
}

#[test]
fn overlay_entries_fetch_outside_the_budget() {
    let mut cache = TileCache::new(15, 18);
    // Twelve overlay entries near the camera, all reprojecting close by.
    for i in 0..12u32 {
        cache.add_overlay_entry(1600 + 8 * i, 1600, format!("entry {i}"));
    }
    let pending: Vec<TileKey> = Vec::new();
    let plan = cache.process_tiles(200, 200, &pending, &all_keep(15));
    // All twelve overlay fetches happen although the regular budget is 10.
    assert_eq!(plan.overlay.len(), 12);
    assert_eq!(plan.regular.len(), 10);
    for i in 0..12u32 {
        assert!(plan.overlay.contains(&k(1600 + 8 * i, 1600, 18)));
    }
    // A second tick fetches no overlay entry again.
    let again = cache.process_tiles(200, 200, &pending, &all_keep(15));
    assert!(again.overlay.is_empty());
}

#[test]
fn overlay_correspondence_halves_the_distance() {
    // Overlay entry at (1608, 1600), zoom 18, reprojects to (201, 200) at
    // zoom 15: one step right of the camera tile (200, 200). Its adjusted
    // distance is 1 / 2 == 0, so it is scheduled with the center bucket,
    // before every plain tile at raw distance 1.
    let mut cache = TileCache::new(15, 18);
    cache.add_overlay_entry(1608, 1600, String::from("spot"));
    let pending: Vec<TileKey> = Vec::new();
    let plan = cache.process_tiles(200, 200, &pending, &all_keep(15));
    assert_eq!(plan.overlay, vec![k(1608, 1600, 18)]);
    assert_eq!(plan.regular[0], k(200, 200, 15));
    assert_eq!(plan.regular[1], k(201, 200, 15));
    // The same offset without overlay correspondence keeps distance 1 and
    // comes later.
    let pos_plain = plan.regular.iter().position(|key| *key == k(200, 201, 15));
    assert!(pos_plain.unwrap() > 1);
}
