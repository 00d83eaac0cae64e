use tilecache::cache::{PendingResult, TileCache, TileVisual};
use tilecache::coords::TileKey;

fn k(x: u32, y: u32, zoom: i32) -> TileKey {
    TileKey { x, y, zoom }
}

fn tracked_cache() -> TileCache {
    let mut cache = TileCache::new(15, 17);
    cache.add_overlay_entry(10, 10, String::from("Reef"));
    let keys = vec![k(10, 10, 17), k(2, 2, 15), k(5, 5, 15)];
    let pending: Vec<TileKey> = Vec::new();
    cache.dispatch_all(&keys, &pending);
    cache
}

#[test]
fn apply_picks_the_right_visual_per_class() {
    let cache = tracked_cache();
    let results = vec![
        PendingResult { key: k(10, 10, 17), has_image: false },
        PendingResult { key: k(2, 2, 15), has_image: false },
        PendingResult { key: k(5, 5, 15), has_image: false },
        PendingResult { key: k(5, 5, 15), has_image: true },
        PendingResult { key: k(2, 2, 15), has_image: true },
        PendingResult { key: k(10, 10, 17), has_image: true },
    ];
    let directives = cache.apply_pending_tiles(&results);
    assert_eq!(directives.len(), 6);
    assert_eq!(directives[0].visual, TileVisual::OverlayFallback { tint_centi: 70 });
    assert_eq!(directives[0].overlay_name, Some(String::from("Reef")));
    assert_eq!(directives[1].visual, TileVisual::OverlayFallback { tint_centi: 50 });
    assert_eq!(directives[1].overlay_name, None);
    assert_eq!(directives[2].visual, TileVisual::StandardFallback);
    assert_eq!(directives[3].visual, TileVisual::Standard);
    assert_eq!(directives[4].visual, TileVisual::DecoratedOverlay);
    assert_eq!(directives[5].visual, TileVisual::DecoratedOverlay);
    assert_eq!(directives[5].overlay_name, Some(String::from("Reef")));
}

#[test]
fn apply_ignores_untracked_keys() {
    let cache = tracked_cache();
    let results = vec![
        PendingResult { key: k(9, 9, 15), has_image: true },
        PendingResult { key: k(5, 5, 15), has_image: true },
    ];
    let directives = cache.apply_pending_tiles(&results);
    assert_eq!(directives.len(), 1);
    assert_eq!(directives[0].key, k(5, 5, 15));
}

#[test]
fn register_appends_an_active_tile() {
    let mut cache = tracked_cache();
    cache.register_active_tile(k(5, 5, 15), 77, 1234);
    assert_eq!(cache.active.len(), 1);
    assert_eq!(cache.active[0].key, k(5, 5, 15));
    assert_eq!(cache.active[0].handle, 77);
    assert_eq!(cache.active[0].last_used_ms, 1234);
}

#[test]
fn visible_tiles_get_their_recency_stamped() {
    let mut cache = tracked_cache();
    cache.register_active_tile(k(5, 5, 15), 1, 100);
    cache.register_active_tile(k(2, 2, 15), 2, 100);
    let visible = vec![true, false];
    cache.update_visible_tiles(&visible, 9000);
    assert_eq!(cache.active[0].last_used_ms, 9000);
    assert_eq!(cache.active[1].last_used_ms, 100);
}

#[test]
fn overlay_tiles_have_the_wider_visibility_threshold() {
    let cache = tracked_cache();
    assert_eq!(cache.visibility_threshold(&k(10, 10, 17)), 50);
    assert_eq!(cache.visibility_threshold(&k(2, 2, 15)), 30);
    assert_eq!(cache.visibility_threshold(&k(5, 5, 15)), 30);
}
