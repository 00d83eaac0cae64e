//! The tile store: requested keys, active tiles, overlay index, zoom state.
//!
//! A key moves Unrequested -> Requested (member of `loaded`) -> Active
//! (member of `active`, with a render handle and a recency stamp) and back
//! to Unrequested when evicted. The store is owned by the single main loop;
//! only the fetch-result queue, which lives outside this crate, is shared
//! with concurrent fetch tasks.

use vstd::prelude::*;

verus! {

use crate::coords::{TileKey, MIN_ZOOM_LEVEL, MAX_ZOOM_LEVEL, spec_max_tile_index};
use crate::overlay::{OverlayIndex, OverlayEntry, TileClass};

/// Bound on the magnitude of camera heights and height thresholds, in
/// milli-units, so that the hysteresis arithmetic stays within `i64`.
pub const HEIGHT_LIMIT_MILLI: i64 = 1_000_000_000_000;

/// Radius, in render-space units, within which an exact-overlay tile is
/// considered visible and kept fresh.
pub const OVERLAY_VISIBILITY_RANGE: u32 = 50;
/// Radius, in render-space units, within which an ordinary tile is
/// considered visible and kept fresh.
pub const PLAIN_VISIBILITY_RANGE: u32 = 30;

/// One tile with a live render entity.
#[derive(Clone, Copy, PartialEq, Eq, Structural, Debug)]
pub struct ActiveTile {
    pub key: TileKey,
    /// Render-collaborator handle for the tile's entity.
    pub handle: u64,
    /// When the tile was last seen near the camera, in milliseconds.
    pub last_used_ms: u64,
}

/// One row of the height-to-zoom table, heights in milli-units.
#[derive(Clone, Copy, PartialEq, Eq, Structural, Debug)]
pub struct HeightThreshold {
    pub min_height_milli: i64,
    pub zoom: i32,
}

/// A fetch result handed over by the host: the key, and whether an image
/// came back (`false` means the fetch failed and a fallback is owed).
#[derive(Clone, Copy, PartialEq, Eq, Structural, Debug)]
pub struct PendingResult {
    pub key: TileKey,
    pub has_image: bool,
}

/// What the render collaborator should build for one applied result.
#[derive(Clone, Copy, PartialEq, Eq, Structural, Debug)]
pub enum TileVisual {
    /// The fetched image, unchanged.
    Standard,
    /// The fetched image darkened and bordered for overlay treatment.
    DecoratedOverlay,
    /// A green-tinted placeholder; tint intensity in hundredths.
    OverlayFallback { tint_centi: u32 },
    /// The ordinary fallback placeholder.
    StandardFallback,
}

/// The decision for one drained fetch result.
#[derive(Clone, Debug)]
pub struct TileDirective {
    pub key: TileKey,
    pub visual: TileVisual,
    /// Metadata to attach when the tile is an exact overlay entry.
    pub overlay_name: Option<String>,
}

/// The whole streaming-cache state, threaded through each system call.
#[derive(Debug)]
pub struct TileCache {
    /// Keys claimed by a dispatched fetch (the Requested marker set).
    pub loaded: Vec<TileKey>,
    /// Tiles with a live render entity.
    pub active: Vec<ActiveTile>,
    /// The persistent overlay entries.
    pub overlays: OverlayIndex,
    /// Height-to-zoom table, ordered by height descending.
    pub height_thresholds: Vec<HeightThreshold>,
    /// The zoom level currently viewed.
    pub current_zoom: i32,
    /// Accumulated elapsed time, used to throttle the eviction sweep.
    pub total_time_ms: u64,
}

impl TileCache {
    /// Every stored key is on its level's grid and the zoom state is in range.
    pub open spec fn wf(self) -> bool {
        &&& self.overlays.wf()
        &&& MIN_ZOOM_LEVEL <= self.current_zoom <= MAX_ZOOM_LEVEL
        &&& forall|i: int| 0 <= i < self.loaded@.len() ==> (#[trigger] self.loaded@[i]).wf()
        &&& forall|i: int| 0 <= i < self.active@.len() ==> (#[trigger] self.active@[i]).key.wf()
        &&& forall|i: int|
            0 <= i < self.height_thresholds@.len() ==> MIN_ZOOM_LEVEL <= (
            #[trigger] self.height_thresholds@[i]).zoom <= MAX_ZOOM_LEVEL
                && -HEIGHT_LIMIT_MILLI <= self.height_thresholds@[i].min_height_milli
                <= HEIGHT_LIMIT_MILLI
    }

    /// A fresh cache with no tiles.
    pub fn new(current_zoom: i32, overlay_zoom: i32) -> (r: Self)
        requires
            MIN_ZOOM_LEVEL <= current_zoom <= MAX_ZOOM_LEVEL,
            MIN_ZOOM_LEVEL <= overlay_zoom <= MAX_ZOOM_LEVEL,
        ensures
            r.wf(),
            r.loaded@.len() == 0,
            r.active@.len() == 0,
            r.overlays.entries@.len() == 0,
            r.overlays.overlay_zoom == overlay_zoom,
            r.height_thresholds@.len() == 0,
            r.current_zoom == current_zoom,
            r.total_time_ms == 0,
    {
        TileCache {
            loaded: Vec::new(),
            active: Vec::new(),
            overlays: OverlayIndex::new(overlay_zoom),
            height_thresholds: Vec::new(),
            current_zoom,
            total_time_ms: 0,
        }
    }

    /// Append one row to the height-to-zoom table.
    pub fn add_height_threshold(&mut self, min_height_milli: i64, zoom: i32)
        requires
            old(self).wf(),
            MIN_ZOOM_LEVEL <= zoom <= MAX_ZOOM_LEVEL,
            -HEIGHT_LIMIT_MILLI <= min_height_milli <= HEIGHT_LIMIT_MILLI,
        ensures
            final(self).wf(),
            final(self).height_thresholds@ == old(self).height_thresholds@.push(
                HeightThreshold { min_height_milli, zoom },
            ),
            final(self).loaded == old(self).loaded,
            final(self).active == old(self).active,
            final(self).overlays == old(self).overlays,
            final(self).current_zoom == old(self).current_zoom,
            final(self).total_time_ms == old(self).total_time_ms,
    {
        self.height_thresholds.push(HeightThreshold { min_height_milli, zoom });
    }

    /// Record one persistent overlay entry.
    pub fn add_overlay_entry(&mut self, x: u32, y: u32, name: String)
        requires
            old(self).wf(),
            x as int <= spec_max_tile_index(old(self).overlays.overlay_zoom as int),
            y as int <= spec_max_tile_index(old(self).overlays.overlay_zoom as int),
        ensures
            final(self).wf(),
            final(self).overlays.overlay_zoom == old(self).overlays.overlay_zoom,
            final(self).overlays.entries@ == old(self).overlays.entries@.push(
                OverlayEntry { x, y, name },
            ),
            final(self).loaded == old(self).loaded,
            final(self).active == old(self).active,
            final(self).height_thresholds == old(self).height_thresholds,
            final(self).current_zoom == old(self).current_zoom,
            final(self).total_time_ms == old(self).total_time_ms,
    {
        self.overlays.add_entry(x, y, name);
    }

    /// Is the key claimed by a dispatched fetch?
    pub fn loaded_contains(&self, key: &TileKey) -> (r: bool)
        ensures
            r == self.loaded@.contains(*key),
    {
        vec_contains_key(&self.loaded, key)
    }

    /// Record the render entity built for an applied result.
    pub fn register_active_tile(&mut self, key: TileKey, handle: u64, now_ms: u64)
        requires
            old(self).wf(),
            key.wf(),
        ensures
            final(self).wf(),
            final(self).active@ == old(self).active@.push(
                ActiveTile { key, handle, last_used_ms: now_ms },
            ),
            final(self).loaded == old(self).loaded,
            final(self).overlays == old(self).overlays,
            final(self).height_thresholds == old(self).height_thresholds,
            final(self).current_zoom == old(self).current_zoom,
            final(self).total_time_ms == old(self).total_time_ms,
    {
        self.active.push(ActiveTile { key, handle, last_used_ms: now_ms });
    }

    /// The visibility radius a tile is judged against: exact-overlay tiles
    /// stay fresh over a wider area than ordinary tiles.
    pub fn visibility_threshold(&self, key: &TileKey) -> (r: u32)
        requires
            self.wf(),
            key.wf(),
        ensures
            r == if self.overlays.spec_classify(*key) == TileClass::ExactOverlay {
                OVERLAY_VISIBILITY_RANGE as int
            } else {
                PLAIN_VISIBILITY_RANGE as int
            },
    {
        match self.overlays.classify(key) {
            TileClass::ExactOverlay => OVERLAY_VISIBILITY_RANGE,
            _ => PLAIN_VISIBILITY_RANGE,
        }
    }

    /// Stamp the recency of every currently visible active tile. The host
    /// reports, per active tile (by index), whether its render-space
    /// distance to the camera is within that tile's visibility threshold.
    pub fn update_visible_tiles(&mut self, visible: &Vec<bool>, now_ms: u64)
        requires
            old(self).wf(),
            visible@.len() == old(self).active@.len(),
        ensures
            final(self).wf(),
            final(self).active@.len() == old(self).active@.len(),
            forall|i: int|
                0 <= i < old(self).active@.len() ==> final(self).active@[i] == (if visible@[i] {
                    ActiveTile {
                        key: old(self).active@[i].key,
                        handle: old(self).active@[i].handle,
                        last_used_ms: now_ms,
                    }
                } else {
                    old(self).active@[i]
                }),
            final(self).loaded == old(self).loaded,
            final(self).overlays == old(self).overlays,
            final(self).height_thresholds == old(self).height_thresholds,
            final(self).current_zoom == old(self).current_zoom,
            final(self).total_time_ms == old(self).total_time_ms,
    {
        let mut i: usize = 0;
        while i < self.active.len()
            invariant
                old(self).wf(),
                visible@.len() == old(self).active@.len(),
                self.active@.len() == old(self).active@.len(),
                0 <= i <= self.active@.len(),
                forall|j: int|
                    0 <= j < i ==> self.active@[j] == (if visible@[j] {
                        ActiveTile {
                            key: old(self).active@[j].key,
                            handle: old(self).active@[j].handle,
                            last_used_ms: now_ms,
                        }
                    } else {
                        old(self).active@[j]
                    }),
                forall|j: int| i <= j < self.active@.len() ==> self.active@[j] == old(self).active@[j],
                self.loaded == old(self).loaded,
                self.overlays == old(self).overlays,
                self.height_thresholds == old(self).height_thresholds,
                self.current_zoom == old(self).current_zoom,
                self.total_time_ms == old(self).total_time_ms,
            decreases self.active@.len() - i,
        {
            if visible[i] {
                let key = self.active[i].key;
                let handle = self.active[i].handle;
                self.active.set(i, ActiveTile { key, handle, last_used_ms: now_ms });
            }
            i = i + 1;
        }
    }

    /// The visual owed to one fetch result, by overlay class and by whether
    /// an image came back.
    pub open spec fn spec_visual(self, key: TileKey, has_image: bool) -> TileVisual {
        let cls = self.overlays.spec_classify(key);
        if has_image {
            if cls == TileClass::Plain {
                TileVisual::Standard
            } else {
                TileVisual::DecoratedOverlay
            }
        } else {
            if cls == TileClass::ExactOverlay {
                TileVisual::OverlayFallback { tint_centi: 70 }
            } else if cls == TileClass::CorrespondingOverlay {
                TileVisual::OverlayFallback { tint_centi: 50 }
            } else {
                TileVisual::StandardFallback
            }
        }
    }

    /// The full decision for one result.
    pub open spec fn spec_directive(self, r: PendingResult) -> TileDirective {
        TileDirective {
            key: r.key,
            visual: self.spec_visual(r.key, r.has_image),
            overlay_name: if self.overlays.spec_classify(r.key) == TileClass::ExactOverlay {
                OverlayIndex::spec_first_name(self.overlays.entries@, r.key.x, r.key.y)
            } else {
                None
            },
        }
    }

    /// The decisions for a drained batch: results whose key is no longer
    /// tracked in the loaded set are silently ignored.
    pub open spec fn spec_directives(self, results: Seq<PendingResult>) -> Seq<TileDirective> {
        results.filter(|r: PendingResult| self.loaded@.contains(r.key)).map_values(
            |r: PendingResult| self.spec_directive(r),
        )
    }

    /// Decide, for every drained fetch result, what the render collaborator
    /// should build: overlay tiles get decorated images or green-tinted
    /// placeholders, plain tiles the image itself or the standard fallback.
    /// A result for a key no longer tracked is ignored.
    pub fn apply_pending_tiles(&self, results: &Vec<PendingResult>) -> (r: Vec<TileDirective>)
        requires
            self.wf(),
            forall|i: int| 0 <= i < results@.len() ==> (#[trigger] results@[i]).key.wf(),
        ensures
            r@ == self.spec_directives(results@),
    {
        let mut r: Vec<TileDirective> = Vec::new();
        let mut i: usize = 0;
        while i < results.len()
            invariant
                self.wf(),
                forall|k: int| 0 <= k < results@.len() ==> (#[trigger] results@[k]).key.wf(),
                0 <= i <= results@.len(),
                r@ == self.spec_directives(results@.take(i as int)),
            decreases results@.len() - i,
        {
            let res = &results[i];
            let tracked_key: bool = self.loaded_contains(&res.key);
            proof {
                crate::seq_lemmas::lemma_take_push(results@, i as int);
                crate::seq_lemmas::lemma_filter_push(
                    results@.take(i as int),
                    results@[i as int],
                    |p: PendingResult| self.loaded@.contains(p.key),
                );
                if tracked_key {
                    crate::seq_lemmas::lemma_map_values_push(
                        results@.take(i as int).filter(
                            |p: PendingResult| self.loaded@.contains(p.key),
                        ),
                        results@[i as int],
                        |p: PendingResult| self.spec_directive(p),
                    );
                }
            }
            if tracked_key {
                let cls = self.overlays.classify(&res.key);
                let visual: TileVisual = if res.has_image {
                    match cls {
                        TileClass::Plain => TileVisual::Standard,
                        _ => TileVisual::DecoratedOverlay,
                    }
                } else {
                    match cls {
                        TileClass::ExactOverlay => TileVisual::OverlayFallback { tint_centi: 70 },
                        TileClass::CorrespondingOverlay => TileVisual::OverlayFallback {
                            tint_centi: 50,
                        },
                        TileClass::Plain => TileVisual::StandardFallback,
                    }
                };
                let overlay_name: Option<String> = match cls {
                    TileClass::ExactOverlay => self.overlays.entry_name(res.key.x, res.key.y),
                    _ => None,
                };
                r.push(TileDirective { key: res.key, visual, overlay_name });
            }
            i = i + 1;
        }
        proof {
            assert(results@.take(results@.len() as int) =~= results@);
        }
        r
    }
}

/// Linear search of a key list.
pub fn vec_contains_key(v: &Vec<TileKey>, key: &TileKey) -> (r: bool)
    ensures
        r == v@.contains(*key),
{
    let mut i: usize = 0;
    while i < v.len()
        invariant
            0 <= i <= v@.len(),
            forall|j: int| 0 <= j < i ==> v@[j] != *key,
        decreases v@.len() - i,
    {
        if v[i].x == key.x && v[i].y == key.y && v[i].zoom == key.zoom {
            assert(v@[i as int] == *key);
            return true;
        }
        i = i + 1;
    }
    false
}

} // verus!
