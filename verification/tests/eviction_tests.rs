use tilecache::cache::TileCache;
use tilecache::coords::TileKey;

fn k(x: u32, y: u32, zoom: i32) -> TileKey {
    TileKey { x, y, zoom }
}

/// A cache with an overlay entry at (10, 10), zoom 17, and three active
/// tiles: a plain one, the exact overlay one, and a corresponding one.
fn populated(plain_last_used: u64, overlay_last_used: u64) -> TileCache {
    let mut cache = TileCache::new(15, 17);
    cache.add_overlay_entry(10, 10, String::from("Reef"));
    let keys = vec![k(5, 5, 15), k(10, 10, 17), k(2, 2, 15)];
    let pending: Vec<TileKey> = Vec::new();
    let dispatched = cache.dispatch_all(&keys, &pending);
    assert_eq!(dispatched.len(), 3);
    cache.register_active_tile(k(5, 5, 15), 1, plain_last_used);
    cache.register_active_tile(k(10, 10, 17), 2, overlay_last_used);
    cache.register_active_tile(k(2, 2, 15), 3, overlay_last_used);
    cache
}

#[test]
fn plain_tile_older_than_46s_is_evicted() {
    let mut cache = populated(10_000, 56_000);
    // Accumulate exactly one sweep period so the sweep is due.
    let despawned = cache.cleanup_old_tiles(5000, 56_000);
    // The plain tile is 46 s old: evicted. The corresponding tile is 56 s
    // old, within its 90 s timeout: kept. The exact overlay tile: kept.
    assert_eq!(despawned, vec![1]);
    assert_eq!(cache.active.len(), 2);
    assert_eq!(cache.active[0].key, k(10, 10, 17));
    assert_eq!(cache.active[1].key, k(2, 2, 15));
    // The loaded set drops the evicted key but keeps active and overlay keys.
    assert!(!cache.loaded.contains(&k(5, 5, 15)));
    assert!(cache.loaded.contains(&k(10, 10, 17)));
    assert!(cache.loaded.contains(&k(2, 2, 15)));
}

#[test]
fn plain_tile_44s_old_survives() {
    let mut cache = populated(10_000, 54_000);
    let despawned = cache.cleanup_old_tiles(5000, 54_000);
    assert!(despawned.is_empty());
    assert_eq!(cache.active.len(), 3);
}

#[test]
fn exact_overlay_tile_is_never_evicted() {
    // The overlay tile is a million seconds stale; it still survives.
    let mut cache = populated(0, 0);
    let despawned = cache.cleanup_old_tiles(5000, 1_000_000_000);
    assert_eq!(despawned, vec![1, 3]);
    assert_eq!(cache.active.len(), 1);
    assert_eq!(cache.active[0].key, k(10, 10, 17));
    // Its loaded entry is kept indefinitely too.
    assert!(cache.loaded.contains(&k(10, 10, 17)));
}

#[test]
fn corresponding_tile_uses_the_90s_timeout() {
    let mut cache = populated(100_000, 9_000);
    // At 100 s the corresponding tile (last used 9 s) is 91 s stale; the
    // plain tile was just seen and stays.
    let despawned = cache.cleanup_old_tiles(5000, 100_000);
    assert_eq!(despawned, vec![3]);
    assert_eq!(cache.active.len(), 2);
    assert_eq!(cache.active[0].key, k(5, 5, 15));
    assert_eq!(cache.active[1].key, k(10, 10, 17));
}

#[test]
fn sweep_is_throttled_between_periods() {
    let mut cache = populated(0, 0);
    // Accumulated time 5.1 s: past the 50 ms tolerance, so no sweep runs,
    // however stale the tiles are.
    let despawned = cache.cleanup_old_tiles(5100, 1_000_000_000);
    assert!(despawned.is_empty());
    assert_eq!(cache.active.len(), 3);
    assert_eq!(cache.loaded.len(), 3);
    assert_eq!(cache.total_time_ms, 5100);
}
