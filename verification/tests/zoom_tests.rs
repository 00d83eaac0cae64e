use tilecache::cache::TileCache;
use tilecache::coords::TileKey;

fn k(x: u32, y: u32, zoom: i32) -> TileKey {
    TileKey { x, y, zoom }
}

/// Height table [(100, zoom 10), (50, zoom 12)], heights in milli-units.
fn controller(current: i32) -> TileCache {
    let mut cache = TileCache::new(current, 17);
    cache.add_height_threshold(100_000, 10);
    cache.add_height_threshold(50_000, 12);
    cache
}

#[test]
fn first_matching_row_wins() {
    let cache = controller(10);
    assert_eq!(cache.auto_detect_zoom_level(150_000).new_zoom, 10);
    // Heights between the rows match the second row once cleared by one unit.
    assert_eq!(cache.auto_detect_zoom_level(60_000).new_zoom, 12);
    // Below every row plus its band: no match, zoom unchanged.
    assert_eq!(cache.auto_detect_zoom_level(40_000).new_zoom, 10);
    assert_eq!(cache.auto_detect_zoom_level(50_500).new_zoom, 10);
}

#[test]
fn switch_to_finer_zoom_commits_at_the_match_band() {
    let cache = controller(10);
    // A switch toward a finer zoom needs only the one-unit match band.
    assert_eq!(cache.auto_detect_zoom_level(51_000).new_zoom, 12);
    assert_eq!(cache.auto_detect_zoom_level(60_000).new_zoom, 12);
}

#[test]
fn switch_to_coarser_zoom_waits_for_the_commit_band() {
    let cache = controller(12);
    // While only the second row matches, zoom 12 is kept.
    assert_eq!(cache.auto_detect_zoom_level(60_000).new_zoom, 12);
    assert_eq!(cache.auto_detect_zoom_level(100_500).new_zoom, 12);
    // The first row matches, but the camera is within three units of its
    // threshold: zooming out is held back against chatter.
    assert_eq!(cache.auto_detect_zoom_level(101_000).new_zoom, 12);
    assert_eq!(cache.auto_detect_zoom_level(102_900).new_zoom, 12);
    // Solidly past the threshold the coarser zoom commits.
    assert_eq!(cache.auto_detect_zoom_level(103_000).new_zoom, 10);
}

#[test]
fn preload_targets_both_zooms_on_a_change() {
    let cache = controller(10);
    let d = cache.auto_detect_zoom_level(60_000);
    assert_eq!(d.new_zoom, 12);
    assert_eq!(d.preload_zooms, vec![10, 12]);
}

#[test]
fn preload_follows_the_height_trend_when_steady() {
    let cache = controller(10);
    // Matched row (100, zoom 10); far above 1.7x the threshold: trending
    // coarser, preload one level out.
    let up = cache.auto_detect_zoom_level(200_000);
    assert_eq!(up.new_zoom, 10);
    assert_eq!(up.preload_zooms, vec![9]);
    // Between 1.3x and 1.7x the threshold: steady, no preload.
    let mid = cache.auto_detect_zoom_level(150_000);
    assert_eq!(mid.new_zoom, 10);
    assert!(mid.preload_zooms.is_empty());
    // Within 1.3x of the threshold: trending finer, preload one level in.
    let down = cache.auto_detect_zoom_level(120_000);
    assert_eq!(down.new_zoom, 10);
    assert_eq!(down.preload_zooms, vec![11]);
}

#[test]
fn preload_block_is_five_by_five_and_deduplicated() {
    let mut cache = controller(10);
    let pending: Vec<TileKey> = Vec::new();
    let first = cache.preload_block(100, 100, 11, &pending);
    assert_eq!(first.len(), 25);
    assert!(first.contains(&k(98, 98, 11)));
    assert!(first.contains(&k(102, 102, 11)));
    assert!(!first.contains(&k(103, 100, 11)));
    let second = cache.preload_block(100, 100, 11, &pending);
    assert!(second.is_empty());
}

#[test]
fn zoom_change_retires_distant_and_far_zoom_tiles() {
    let mut cache = controller(12);
    cache.add_overlay_entry(10, 10, String::from("Reef"));
    let keys = vec![
        k(100, 100, 12),
        k(3000, 3000, 12),
        k(25, 25, 10),
        k(100, 100, 15),
        k(10, 10, 17),
    ];
    let pending: Vec<TileKey> = Vec::new();
    cache.dispatch_all(&keys, &pending);
    cache.register_active_tile(k(100, 100, 12), 1, 0);
    cache.register_active_tile(k(3000, 3000, 12), 2, 0);
    cache.register_active_tile(k(25, 25, 10), 3, 0);
    cache.register_active_tile(k(100, 100, 15), 4, 0);
    cache.register_active_tile(k(10, 10, 17), 5, 0);
    let despawned = cache.commit_zoom_change(12, 100, 100);
    assert_eq!(cache.current_zoom, 12);
    // Kept: the tile at the new camera tile; the zoom-10 tile reprojecting
    // onto it (two levels away); the overlay-zoom tile. Retired: the
    // distant same-zoom tile and the tile three levels away.
    assert_eq!(despawned, vec![2, 4]);
    assert_eq!(cache.active.len(), 3);
    assert_eq!(cache.active[0].key, k(100, 100, 12));
    assert_eq!(cache.active[1].key, k(25, 25, 10));
    assert_eq!(cache.active[2].key, k(10, 10, 17));
    // The loaded set is pruned by the wider margin; the exact overlay key
    // stays although it is far away at its own level.
    assert!(cache.loaded.contains(&k(100, 100, 12)));
    assert!(cache.loaded.contains(&k(25, 25, 10)));
    assert!(cache.loaded.contains(&k(10, 10, 17)));
    assert!(!cache.loaded.contains(&k(3000, 3000, 12)));
    assert!(!cache.loaded.contains(&k(100, 100, 15)));
}
