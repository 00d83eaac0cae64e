//! Overlay index: persistent tile entries pinned at one fixed zoom level.
//!
//! The index answers two questions: does a tile at any zoom correspond to a
//! persistent entry (it is one, covers one, or is covered by one), and
//! which entries are near a given viewpoint.

use vstd::prelude::*;

verus! {

use vstd::math::abs;
use vstd::arithmetic::power2::pow2;
use crate::coords::{
    TileKey, MIN_ZOOM_LEVEL, MAX_ZOOM_LEVEL, spec_coarse_coord, pow2_u32, spec_max_tile_index,
};
use crate::seq_lemmas::{lemma_filter_push, lemma_map_values_push, lemma_take_push};

/// One persistent entry: a tile position at the overlay zoom plus its
/// display name.
#[derive(Clone, Debug)]
pub struct OverlayEntry {
    pub x: u32,
    pub y: u32,
    pub name: String,
}

/// How a tile relates to the overlay set.
#[derive(Clone, Copy, PartialEq, Eq, Structural, Debug)]
pub enum TileClass {
    /// The tile is itself an overlay entry at the overlay zoom.
    ExactOverlay,
    /// The tile sits at another zoom but covers, or is covered by, an entry.
    CorrespondingOverlay,
    /// No overlay relation.
    Plain,
}

/// The set of persistent entries, all pinned at `overlay_zoom`.
#[derive(Clone, Debug)]
pub struct OverlayIndex {
    pub overlay_zoom: i32,
    pub entries: Vec<OverlayEntry>,
}

impl OverlayIndex {
    /// Every entry lies on the overlay level's grid.
    pub open spec fn wf(self) -> bool {
        &&& MIN_ZOOM_LEVEL <= self.overlay_zoom <= MAX_ZOOM_LEVEL
        &&& forall|i: int|
            0 <= i < self.entries@.len() ==> (#[trigger] self.entries@[i]).x < pow2(
                self.overlay_zoom as nat,
            ) && self.entries@[i].y < pow2(self.overlay_zoom as nat)
    }

    /// An empty index at the given overlay zoom.
    pub fn new(overlay_zoom: i32) -> (r: Self)
        requires
            MIN_ZOOM_LEVEL <= overlay_zoom <= MAX_ZOOM_LEVEL,
        ensures
            r.wf(),
            r.overlay_zoom == overlay_zoom,
            r.entries@.len() == 0,
    {
        OverlayIndex { overlay_zoom, entries: Vec::new() }
    }

    /// Record one persistent entry.
    pub fn add_entry(&mut self, x: u32, y: u32, name: String)
        requires
            old(self).wf(),
            x as int <= spec_max_tile_index(old(self).overlay_zoom as int),
            y as int <= spec_max_tile_index(old(self).overlay_zoom as int),
        ensures
            final(self).wf(),
            final(self).overlay_zoom == old(self).overlay_zoom,
            final(self).entries@.len() == old(self).entries@.len() + 1,
            final(self).entries@ == old(self).entries@.push(OverlayEntry { x, y, name }),
    {
        self.entries.push(OverlayEntry { x, y, name });
    }

    /// One entry covers (or is covered by) the key: whichever of the two
    /// levels is finer, coarsening its coordinates down to the other level
    /// must land exactly on the other's coordinates.
    pub open spec fn spec_entry_covers(self, e: OverlayEntry, key: TileKey) -> bool {
        if key.zoom == self.overlay_zoom {
            e.x == key.x && e.y == key.y
        } else if key.zoom < self.overlay_zoom {
            let d = (self.overlay_zoom - key.zoom) as nat;
            spec_coarse_coord(e.x, d) == key.x && spec_coarse_coord(e.y, d) == key.y
        } else {
            let d = (key.zoom - self.overlay_zoom) as nat;
            spec_coarse_coord(key.x, d) == e.x && spec_coarse_coord(key.y, d) == e.y
        }
    }

    /// Some entry covers, or is covered by, the key.
    pub open spec fn spec_corresponds(self, key: TileKey) -> bool {
        exists|i: int|
            0 <= i < self.entries@.len() && self.spec_entry_covers(#[trigger] self.entries@[i], key)
    }

    /// The key is itself an overlay entry at the overlay zoom.
    pub open spec fn spec_is_exact(self, key: TileKey) -> bool {
        key.zoom == self.overlay_zoom && exists|i: int|
            0 <= i < self.entries@.len() && (#[trigger] self.entries@[i]).x == key.x
                && self.entries@[i].y == key.y
    }

    /// The overlay treatment a tile is owed.
    pub open spec fn spec_classify(self, key: TileKey) -> TileClass {
        if self.spec_is_exact(key) {
            TileClass::ExactOverlay
        } else if key.zoom != self.overlay_zoom && self.spec_corresponds(key) {
            TileClass::CorrespondingOverlay
        } else {
            TileClass::Plain
        }
    }

    /// Does the key correspond to a persistent entry at any zoom level?
    pub fn corresponds(&self, key: &TileKey) -> (r: bool)
        requires
            self.wf(),
            key.wf(),
        ensures
            r == self.spec_corresponds(*key),
    {
        let same: bool = key.zoom == self.overlay_zoom;
        let finer: bool = key.zoom > self.overlay_zoom;
        let d: u32 = if key.zoom >= self.overlay_zoom {
            (key.zoom - self.overlay_zoom) as u32
        } else {
            (self.overlay_zoom - key.zoom) as u32
        };
        let p: u32 = pow2_u32(d);
        let mut i: usize = 0;
        while i < self.entries.len()
            invariant
                self.wf(),
                key.wf(),
                0 <= i <= self.entries@.len(),
                same == (key.zoom == self.overlay_zoom),
                finer == (key.zoom > self.overlay_zoom),
                same ==> d == 0,
                !same && finer ==> d == key.zoom - self.overlay_zoom,
                !same && !finer ==> d == self.overlay_zoom - key.zoom,
                p as nat == pow2(d as nat),
                p >= 1,
                forall|j: int|
                    0 <= j < i ==> !self.spec_entry_covers(#[trigger] self.entries@[j], *key),
            decreases self.entries@.len() - i,
        {
            let e = &self.entries[i];
            let hit: bool = if same {
                e.x == key.x && e.y == key.y
            } else if finer {
                key.x / p == e.x && key.y / p == e.y
            } else {
                e.x / p == key.x && e.y / p == key.y
            };
            if hit {
                assert(self.spec_entry_covers(self.entries@[i as int], *key));
                return true;
            }
            i = i + 1;
        }
        false
    }

    /// Classify a tile for overlay treatment.
    pub fn classify(&self, key: &TileKey) -> (r: TileClass)
        requires
            self.wf(),
            key.wf(),
        ensures
            r == self.spec_classify(*key),
    {
        let c = self.corresponds(key);
        proof {
            if key.zoom == self.overlay_zoom {
                if self.spec_corresponds(*key) {
                    let i = choose|i: int|
                        0 <= i < self.entries@.len() && self.spec_entry_covers(
                            self.entries@[i],
                            *key,
                        );
                    assert(self.entries@[i].x == key.x && self.entries@[i].y == key.y);
                }
                if self.spec_is_exact(*key) {
                    let i = choose|i: int|
                        0 <= i < self.entries@.len() && (#[trigger] self.entries@[i]).x == key.x
                            && self.entries@[i].y == key.y;
                    assert(self.spec_entry_covers(self.entries@[i], *key));
                }
            }
        }
        if key.zoom == self.overlay_zoom {
            if c {
                TileClass::ExactOverlay
            } else {
                TileClass::Plain
            }
        } else {
            if c {
                TileClass::CorrespondingOverlay
            } else {
                TileClass::Plain
            }
        }
    }

    /// The name of the first entry at a position, if any.
    pub open spec fn spec_first_name(entries: Seq<OverlayEntry>, x: u32, y: u32) -> Option<String>
        decreases entries.len(),
    {
        if entries.len() == 0 {
            None
        } else if entries[0].x == x && entries[0].y == y {
            Some(entries[0].name)
        } else {
            Self::spec_first_name(entries.skip(1), x, y)
        }
    }

    /// The display name stored for an exact overlay position, if any.
    pub fn entry_name(&self, x: u32, y: u32) -> (r: Option<String>)
        ensures
            r == Self::spec_first_name(self.entries@, x, y),
    {
        proof {
            assert(self.entries@.skip(0) =~= self.entries@);
        }
        let mut i: usize = 0;
        while i < self.entries.len()
            invariant
                0 <= i <= self.entries@.len(),
                Self::spec_first_name(self.entries@, x, y) == Self::spec_first_name(
                    self.entries@.skip(i as int),
                    x,
                    y,
                ),
            decreases self.entries@.len() - i,
        {
            let e = &self.entries[i];
            proof {
                assert(self.entries@.skip(i as int)[0] == self.entries@[i as int]);
                assert(self.entries@.skip(i as int).skip(1) =~= self.entries@.skip(i as int + 1));
            }
            if e.x == x && e.y == y {
                return Some(e.name.clone());
            }
            i = i + 1;
        }
        None
    }

    /// An entry's column reprojected onto the camera's level.
    pub open spec fn spec_scaled_x(self, e: OverlayEntry, cz: int) -> int {
        if cz <= self.overlay_zoom {
            spec_coarse_coord(e.x, (self.overlay_zoom - cz) as nat)
        } else {
            e.x * pow2((cz - self.overlay_zoom) as nat)
        }
    }

    /// An entry's row reprojected onto the camera's level.
    pub open spec fn spec_scaled_y(self, e: OverlayEntry, cz: int) -> int {
        if cz <= self.overlay_zoom {
            spec_coarse_coord(e.y, (self.overlay_zoom - cz) as nat)
        } else {
            e.y * pow2((cz - self.overlay_zoom) as nat)
        }
    }

    /// The entry, reprojected onto the camera's level, lies within Manhattan
    /// distance `3 * visible_range` of the camera tile.
    pub open spec fn spec_near(
        self,
        e: OverlayEntry,
        cz: int,
        cam_x: u32,
        cam_y: u32,
        vr: u32,
    ) -> bool {
        abs(self.spec_scaled_x(e, cz) - cam_x) + abs(self.spec_scaled_y(e, cz) - cam_y) <= 3 * vr
    }

    /// The positions (at the overlay zoom) of the entries near the camera,
    /// in entry order.
    pub open spec fn spec_near_keys(
        self,
        entries: Seq<OverlayEntry>,
        cz: int,
        cam_x: u32,
        cam_y: u32,
        vr: u32,
    ) -> Seq<(u32, u32)> {
        entries.filter(|e: OverlayEntry| self.spec_near(e, cz, cam_x, cam_y, vr)).map_values(
            |e: OverlayEntry| (e.x, e.y),
        )
    }

    /// Entries near the camera: reproject each entry onto the camera's
    /// level and keep those within Manhattan distance `3 * visible_range`.
    pub fn entries_near(&self, cam_x: u32, cam_y: u32, cam_zoom: i32, visible_range: u32) -> (r:
        Vec<(u32, u32)>)
        requires
            self.wf(),
            MIN_ZOOM_LEVEL <= cam_zoom <= MAX_ZOOM_LEVEL,
            visible_range <= 1000,
        ensures
            r@ == self.spec_near_keys(self.entries@, cam_zoom as int, cam_x, cam_y, visible_range),
            forall|k: int|
                0 <= k < r@.len() ==> (#[trigger] r@[k]).0 < pow2(self.overlay_zoom as nat)
                    && r@[k].1 < pow2(self.overlay_zoom as nat),
    {
        let coarsen: bool = cam_zoom <= self.overlay_zoom;
        let d: u32 = if coarsen {
            (self.overlay_zoom - cam_zoom) as u32
        } else {
            (cam_zoom - self.overlay_zoom) as u32
        };
        let p: u32 = pow2_u32(d);
        let mut r: Vec<(u32, u32)> = Vec::new();
        let mut i: usize = 0;
        while i < self.entries.len()
            invariant
                self.wf(),
                MIN_ZOOM_LEVEL <= cam_zoom <= MAX_ZOOM_LEVEL,
                visible_range <= 1000,
                0 <= i <= self.entries@.len(),
                coarsen == (cam_zoom <= self.overlay_zoom),
                coarsen ==> d == self.overlay_zoom - cam_zoom,
                !coarsen ==> d == cam_zoom - self.overlay_zoom,
                p as nat == pow2(d as nat),
                p >= 1,
                r@ == self.spec_near_keys(
                    self.entries@.take(i as int),
                    cam_zoom as int,
                    cam_x,
                    cam_y,
                    visible_range,
                ),
                forall|k: int|
                    0 <= k < r@.len() ==> (#[trigger] r@[k]).0 < pow2(self.overlay_zoom as nat)
                        && r@[k].1 < pow2(self.overlay_zoom as nat),
            decreases self.entries@.len() - i,
        {
            let e = &self.entries[i];
            proof {
                assert(self.entries@[i as int].x < pow2(self.overlay_zoom as nat));
                if !coarsen {
                    vstd::arithmetic::power2::lemma2_to64();
                    vstd::arithmetic::power2::lemma_pow2_adds(self.overlay_zoom as nat, d as nat);
                    if (cam_zoom as nat) < 31 {
                        vstd::arithmetic::power2::lemma_pow2_strictly_increases(
                            cam_zoom as nat,
                            31,
                        );
                    }
                    vstd::arithmetic::mul::lemma_mul_inequality(
                        e.x as int + 1,
                        pow2(self.overlay_zoom as nat) as int,
                        p as int,
                    );
                    vstd::arithmetic::mul::lemma_mul_inequality(
                        e.y as int + 1,
                        pow2(self.overlay_zoom as nat) as int,
                        p as int,
                    );
                    vstd::arithmetic::mul::lemma_mul_is_distributive_add_other_way(
                        p as int,
                        e.x as int,
                        1int,
                    );
                    vstd::arithmetic::mul::lemma_mul_is_distributive_add_other_way(
                        p as int,
                        e.y as int,
                        1int,
                    );
                    vstd::arithmetic::mul::lemma_mul_nonnegative(e.x as int, p as int);
                    vstd::arithmetic::mul::lemma_mul_nonnegative(e.y as int, p as int);
                    assert(e.x as int * p as int + p as int <= pow2(cam_zoom as nat) as int);
                    assert(e.y as int * p as int + p as int <= pow2(cam_zoom as nat) as int);
                }
            }
            let sx: i64 = if coarsen {
                (e.x / p) as i64
            } else {
                (e.x as i64) * (p as i64)
            };
            let sy: i64 = if coarsen {
                (e.y / p) as i64
            } else {
                (e.y as i64) * (p as i64)
            };
            let dx: i64 = if sx >= cam_x as i64 {
                sx - cam_x as i64
            } else {
                cam_x as i64 - sx
            };
            let dy: i64 = if sy >= cam_y as i64 {
                sy - cam_y as i64
            } else {
                cam_y as i64 - sy
            };
            let near: bool = dx + dy <= 3 * (visible_range as i64);
            proof {
                assert(near == self.spec_near(
                    self.entries@[i as int],
                    cam_zoom as int,
                    cam_x,
                    cam_y,
                    visible_range,
                ));
                lemma_take_push(self.entries@, i as int);
                lemma_filter_push(
                    self.entries@.take(i as int),
                    self.entries@[i as int],
                    |en: OverlayEntry|
                        self.spec_near(en, cam_zoom as int, cam_x, cam_y, visible_range),
                );
                if near {
                    lemma_map_values_push(
                        self.entries@.take(i as int).filter(
                            |en: OverlayEntry|
                                self.spec_near(en, cam_zoom as int, cam_x, cam_y, visible_range),
                        ),
                        self.entries@[i as int],
                        |en: OverlayEntry| (en.x, en.y),
                    );
                }
            }
            if near {
                r.push((e.x, e.y));
            }
            i = i + 1;
        }
        proof {
            assert(self.entries@.take(self.entries@.len() as int) =~= self.entries@);
        }
        r
    }
}

} // verus!
