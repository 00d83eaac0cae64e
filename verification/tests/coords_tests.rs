use tilecache::coords::{max_tile_index, pow2_u32, reproject_coarser, reproject_finer, TileKey};

#[test]
fn max_index_values() {
    assert_eq!(max_tile_index(0), 0);
    assert_eq!(max_tile_index(1), 1);
    assert_eq!(max_tile_index(10), 1023);
    assert_eq!(max_tile_index(19), 524287);
}

#[test]
fn pow2_values() {
    assert_eq!(pow2_u32(0), 1);
    assert_eq!(pow2_u32(3), 8);
    assert_eq!(pow2_u32(19), 524288);
    assert_eq!(pow2_u32(31), 0x8000_0000);
}

#[test]
fn coarsen_shifts_right() {
    let key = TileKey { x: 1608, y: 1600, zoom: 18 };
    let c = reproject_coarser(&key, 15);
    assert_eq!(c, TileKey { x: 201, y: 200, zoom: 15 });
    // Equal levels: identity.
    let same = reproject_coarser(&key, 18);
    assert_eq!(same, key);
}

#[test]
fn refine_enumerates_block() {
    let key = TileKey { x: 201, y: 200, zoom: 15 };
    let b = reproject_finer(&key, 18);
    assert_eq!(b.start_x, 1608);
    assert_eq!(b.start_y, 1600);
    assert_eq!(b.side, 8);
    assert_eq!(b.zoom, 18);
    assert!(b.contains(&TileKey { x: 1608, y: 1600, zoom: 18 }));
    assert!(b.contains(&TileKey { x: 1615, y: 1607, zoom: 18 }));
    assert!(!b.contains(&TileKey { x: 1616, y: 1600, zoom: 18 }));
    assert!(!b.contains(&TileKey { x: 1608, y: 1600, zoom: 17 }));
}

#[test]
fn coarsen_then_refine_covers_original() {
    let key = TileKey { x: 123_456, y: 98_765, zoom: 17 };
    for target in 10..=17 {
        let c = reproject_coarser(&key, target);
        let b = reproject_finer(&c, 17);
        assert!(b.contains(&key));
    }
}

#[test]
fn coarsening_is_many_to_one() {
    let a = TileKey { x: 8, y: 8, zoom: 10 };
    let b = TileKey { x: 9, y: 9, zoom: 10 };
    assert_eq!(reproject_coarser(&a, 7), reproject_coarser(&b, 7));
}
