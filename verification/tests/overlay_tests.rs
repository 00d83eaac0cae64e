use tilecache::coords::TileKey;
use tilecache::overlay::{OverlayIndex, TileClass};

fn index_with(entries: &[(u32, u32)]) -> OverlayIndex {
    let mut ov = OverlayIndex::new(17);
    for &(x, y) in entries {
        ov.add_entry(x, y, String::from("entry"));
    }
    ov
}

#[test]
fn corresponds_at_overlay_zoom_is_membership() {
    let ov = index_with(&[(10, 10)]);
    assert!(ov.corresponds(&TileKey { x: 10, y: 10, zoom: 17 }));
    assert!(!ov.corresponds(&TileKey { x: 10, y: 11, zoom: 17 }));
}

#[test]
fn corresponds_from_coarser_level() {
    // The entry (10, 10) at zoom 17 coarsens to (2, 2) at zoom 15.
    let ov = index_with(&[(10, 10)]);
    assert!(ov.corresponds(&TileKey { x: 2, y: 2, zoom: 15 }));
    assert!(!ov.corresponds(&TileKey { x: 3, y: 2, zoom: 15 }));
}

#[test]
fn corresponds_from_finer_level() {
    // The entry (10, 10) at zoom 17 covers the block [40, 43]^2 at zoom 19.
    let ov = index_with(&[(10, 10)]);
    assert!(ov.corresponds(&TileKey { x: 40, y: 40, zoom: 19 }));
    assert!(ov.corresponds(&TileKey { x: 43, y: 43, zoom: 19 }));
    assert!(!ov.corresponds(&TileKey { x: 44, y: 40, zoom: 19 }));
}

#[test]
fn classify_distinguishes_exact_and_corresponding() {
    let ov = index_with(&[(10, 10)]);
    assert_eq!(ov.classify(&TileKey { x: 10, y: 10, zoom: 17 }), TileClass::ExactOverlay);
    assert_eq!(
        ov.classify(&TileKey { x: 2, y: 2, zoom: 15 }),
        TileClass::CorrespondingOverlay
    );
    assert_eq!(ov.classify(&TileKey { x: 40, y: 41, zoom: 19 }), TileClass::CorrespondingOverlay);
    assert_eq!(ov.classify(&TileKey { x: 3, y: 3, zoom: 15 }), TileClass::Plain);
    // At the overlay zoom a non-entry is plain, not corresponding.
    assert_eq!(ov.classify(&TileKey { x: 11, y: 10, zoom: 17 }), TileClass::Plain);
}

#[test]
fn entries_near_uses_manhattan_threshold() {
    // Camera at (200, 200), zoom 15; threshold 3 * visible_range = 15.
    let ov = index_with(&[(804, 800), (900, 800), (868, 820)]);
    // Scaled positions at zoom 15: (201, 200) d=1; (225, 200) d=25; (217, 205) d=22.
    let near = ov.entries_near(200, 200, 15, 5);
    assert_eq!(near, vec![(804, 800)]);
}

#[test]
fn entries_near_when_camera_coarser() {
    // Camera zoom 13 is coarser than the overlay zoom 17: entries coarsen.
    let ov = index_with(&[(1608, 1600)]);
    // (1608, 1600) >> 4 == (100, 100).
    let near = ov.entries_near(100, 100, 13, 6);
    assert_eq!(near, vec![(1608, 1600)]);
    let far = ov.entries_near(300, 300, 13, 6);
    assert!(far.is_empty());
}

#[test]
fn entry_name_returns_first_match() {
    let mut ov = OverlayIndex::new(17);
    ov.add_entry(10, 10, String::from("Reef"));
    ov.add_entry(11, 10, String::from("Atoll"));
    assert_eq!(ov.entry_name(10, 10), Some(String::from("Reef")));
    assert_eq!(ov.entry_name(11, 10), Some(String::from("Atoll")));
    assert_eq!(ov.entry_name(12, 10), None);
}
