//! Zoom controller: map camera height to a target zoom with hysteresis,
//! preload neighboring zoom bands, and retire distant tiles on a change.
//!
//! The height-to-zoom table is scanned top (highest threshold) to bottom;
//! the first row whose threshold the camera clears by one unit wins. A
//! switch to a coarser zoom (zooming out as the camera rises) additionally
//! waits until the camera is three units past the matched threshold, an
//! asymmetric second guard against oscillation at a band edge.

use vstd::prelude::*;

verus! {

use vstd::math::abs;
use vstd::arithmetic::power2::pow2;
use crate::coords::{
    TileKey, MIN_ZOOM_LEVEL, MAX_ZOOM_LEVEL, spec_max_tile_index, spec_coarse_coord, pow2_u32,
    max_tile_index,
};
use crate::overlay::{OverlayIndex, TileClass};
use crate::cache::{TileCache, ActiveTile, HeightThreshold, HEIGHT_LIMIT_MILLI};
use crate::scheduler::{spec_visible_range, spec_clamp, spec_select_all, visible_range};
use crate::seq_lemmas::{lemma_filter_push, lemma_map_values_push, lemma_take_push};

/// Hysteresis band, in milli-units: a threshold only matches once the
/// camera clears it by a whole unit.
pub const MATCH_HYSTERESIS_MILLI: i64 = 1000;
/// Second, asymmetric guard: a switch to a coarser (numerically lower)
/// zoom waits until the camera is three units past the matched threshold.
pub const COMMIT_HYSTERESIS_MILLI: i64 = 3000;

/// The first table row whose threshold the height clears by one unit.
pub open spec fn spec_first_match(table: Seq<HeightThreshold>, h: int) -> Option<HeightThreshold>
    decreases table.len(),
{
    if table.len() == 0 {
        None
    } else if h >= table[0].min_height_milli + MATCH_HYSTERESIS_MILLI {
        Some(table[0])
    } else {
        spec_first_match(table.skip(1), h)
    }
}

/// The zoom the controller settles on, and the matched threshold: with no
/// match the current zoom is kept (threshold zero); a match toward a
/// coarser zoom is committed only three units past its threshold.
pub open spec fn spec_zoom_decision(table: Seq<HeightThreshold>, current: int, h: int) -> (
    int,
    int,
) {
    match spec_first_match(table, h) {
        None => (current, 0),
        Some(t) => if t.zoom < current && h < t.min_height_milli + COMMIT_HYSTERESIS_MILLI {
            (current, t.min_height_milli as int)
        } else {
            (t.zoom as int, t.min_height_milli as int)
        },
    }
}

/// The zoom levels to preload a block at this tick: both levels around an
/// actual change; otherwise the neighboring level the camera is trending
/// toward (height in the outer 30% of the matched band), if any.
pub open spec fn spec_preload_zooms(current: int, new_zoom: int, matched_mh: int, h: int) -> Seq<
    i32,
> {
    if new_zoom != current {
        seq![current as i32, new_zoom as i32]
    } else {
        let next = if 10 * h > 17 * matched_mh {
            if current > MIN_ZOOM_LEVEL {
                current - 1
            } else {
                current
            }
        } else if 10 * h < 13 * matched_mh {
            if current < MAX_ZOOM_LEVEL {
                current + 1
            } else {
                current
            }
        } else {
            current
        };
        if next != current {
            seq![next as i32]
        } else {
            Seq::empty()
        }
    }
}

/// The first match always clears its threshold by the one-unit band.
proof fn lemma_first_match_clears(table: Seq<HeightThreshold>, h: int)
    ensures
        spec_first_match(table, h) matches Option::Some(t) ==> h >= t.min_height_milli
            + MATCH_HYSTERESIS_MILLI,
    decreases table.len(),
{
    if table.len() > 0 {
        lemma_first_match_clears(table.skip(1), h);
    }
}

/// Hysteresis law: the controller never changes zoom until the camera has
/// cleared the matched threshold by a whole unit, and never commits a
/// switch to a coarser (numerically lower) zoom until the camera has
/// cleared that threshold by three units; within that commit band the
/// current zoom is kept.
pub proof fn lemma_zoom_hysteresis(table: Seq<HeightThreshold>, current: int, h: int)
    ensures
        spec_zoom_decision(table, current, h).0 != current ==> h >= spec_zoom_decision(
            table,
            current,
            h,
        ).1 + MATCH_HYSTERESIS_MILLI,
        spec_zoom_decision(table, current, h).0 < current ==> h >= spec_zoom_decision(
            table,
            current,
            h,
        ).1 + COMMIT_HYSTERESIS_MILLI,
        forall|t: HeightThreshold|
            spec_first_match(table, h) == Option::Some(t) && t.zoom < current && h
                < t.min_height_milli + COMMIT_HYSTERESIS_MILLI ==> spec_zoom_decision(
                table,
                current,
                h,
            ).0 == current,
{
    lemma_first_match_clears(table, h);
}

/// What one zoom-controller tick decided.
#[derive(Clone, Debug)]
pub struct ZoomDecision {
    /// The zoom to view from now on (possibly unchanged).
    pub new_zoom: i32,
    /// The matched table threshold, zero when none matched.
    pub matched_min_height_milli: i64,
    /// Zoom levels owed a predictive preload block this tick.
    pub preload_zooms: Vec<i32>,
}

/// One key of the 5 x 5 preload block around a center tile.
pub open spec fn spec_preload_key_at(zoom: int, cx: u32, cy: u32, idx: int) -> TileKey {
    let maxi = spec_max_tile_index(zoom);
    TileKey {
        x: spec_clamp(cx + (idx / 5 - 2), 0, maxi) as u32,
        y: spec_clamp(cy + (idx % 5 - 2), 0, maxi) as u32,
        zoom: zoom as i32,
    }
}

/// The 5 x 5 preload block around a center tile, in row-major order.
pub open spec fn spec_preload_keys(zoom: int, cx: u32, cy: u32) -> Seq<TileKey> {
    Seq::new(25, |i: int| spec_preload_key_at(zoom, cx, cy, i))
}

/// A coordinate reprojected from one level onto another, coarsening or
/// refining as the levels require.
pub open spec fn spec_scaled_to(zoom_from: int, coord: u32, zoom_to: int) -> int {
    if zoom_from > zoom_to {
        spec_coarse_coord(coord, (zoom_from - zoom_to) as nat)
    } else {
        coord * pow2((zoom_to - zoom_from) as nat)
    }
}

/// Whether an active tile survives a zoom change: tiles at the overlay zoom
/// always do; any other tile must sit within two levels of the new zoom and
/// reproject to within `4 * visible_range` of the new camera tile on each
/// axis.
pub open spec fn spec_keep_active_on_zoom(
    ov_zoom: int,
    t: ActiveTile,
    new_zoom: int,
    cx: u32,
    cy: u32,
) -> bool {
    let vr = spec_visible_range(new_zoom);
    if t.key.zoom == ov_zoom {
        true
    } else {
        &&& abs(t.key.zoom - new_zoom) <= 2
        &&& abs(spec_scaled_to(t.key.zoom as int, t.key.x, new_zoom) - cx) <= 4 * vr
        &&& abs(spec_scaled_to(t.key.zoom as int, t.key.y, new_zoom) - cy) <= 4 * vr
    }
}

/// Whether a loaded key survives a zoom change: exact overlay keys always
/// do; any other key must sit within two levels of the new zoom and
/// reproject to within the wider `5 * visible_range` margin on each axis.
pub open spec fn spec_keep_loaded_on_zoom(
    ov: OverlayIndex,
    k: TileKey,
    new_zoom: int,
    cx: u32,
    cy: u32,
) -> bool {
    let vr = spec_visible_range(new_zoom);
    if ov.spec_is_exact(k) {
        true
    } else {
        &&& abs(k.zoom - new_zoom) <= 2
        &&& abs(spec_scaled_to(k.zoom as int, k.x, new_zoom) - cx) <= 5 * vr
        &&& abs(spec_scaled_to(k.zoom as int, k.y, new_zoom) - cy) <= 5 * vr
    }
}

/// The active tiles surviving a zoom change, in order.
pub open spec fn spec_active_after_zoom(
    ov_zoom: int,
    s: Seq<ActiveTile>,
    new_zoom: int,
    cx: u32,
    cy: u32,
) -> Seq<ActiveTile> {
    s.filter(|t: ActiveTile| spec_keep_active_on_zoom(ov_zoom, t, new_zoom, cx, cy))
}

/// The handles of the active tiles retired by a zoom change, in order.
pub open spec fn spec_retired_on_zoom(
    ov_zoom: int,
    s: Seq<ActiveTile>,
    new_zoom: int,
    cx: u32,
    cy: u32,
) -> Seq<u64> {
    s.filter(|t: ActiveTile| !spec_keep_active_on_zoom(ov_zoom, t, new_zoom, cx, cy)).map_values(
        |t: ActiveTile| t.handle,
    )
}

/// The loaded keys surviving a zoom change, in order.
pub open spec fn spec_loaded_after_zoom(
    ov: OverlayIndex,
    s: Seq<TileKey>,
    new_zoom: int,
    cx: u32,
    cy: u32,
) -> Seq<TileKey> {
    s.filter(|k: TileKey| spec_keep_loaded_on_zoom(ov, k, new_zoom, cx, cy))
}

/// Reproject one coordinate between levels at executable time.
fn scaled_to(zoom_from: i32, coord: u32, zoom_to: i32) -> (r: i64)
    requires
        MIN_ZOOM_LEVEL <= zoom_from <= MAX_ZOOM_LEVEL,
        MIN_ZOOM_LEVEL <= zoom_to <= MAX_ZOOM_LEVEL,
    ensures
        r as int == spec_scaled_to(zoom_from as int, coord, zoom_to as int),
        0 <= r <= 0x10_0000_0000_0000,
{
    if zoom_from > zoom_to {
        let p = pow2_u32((zoom_from - zoom_to) as u32);
        (coord / p) as i64
    } else {
        let p = pow2_u32((zoom_to - zoom_from) as u32);
        proof {
            vstd::arithmetic::power2::lemma2_to64();
            vstd::arithmetic::power2::lemma_pow2_strictly_increases(
                (zoom_to - zoom_from) as nat,
                20,
            );
            vstd::arithmetic::mul::lemma_mul_upper_bound(
                coord as int,
                0xFFFF_FFFF,
                p as int,
                0x10_0000,
            );
            vstd::arithmetic::mul::lemma_mul_nonnegative(coord as int, p as int);
        }
        (coord as i64) * (p as i64)
    }
}

/// Absolute difference of two small `i64` values.
fn abs_diff(a: i64, b: i64) -> (r: i64)
    requires
        -0x4000_0000_0000_0000 < a < 0x4000_0000_0000_0000,
        -0x4000_0000_0000_0000 < b < 0x4000_0000_0000_0000,
    ensures
        r as int == abs(a - b),
{
    if a >= b {
        a - b
    } else {
        b - a
    }
}

impl TileCache {
    /// Choose the target zoom for the camera's height and name the zoom
    /// levels owed a predictive preload this tick. The cache is not changed;
    /// the host preloads with [`TileCache::preload_block`] and commits an
    /// actual change with [`TileCache::commit_zoom_change`].
    pub fn auto_detect_zoom_level(&self, camera_height_milli: i64) -> (r: ZoomDecision)
        requires
            self.wf(),
            -HEIGHT_LIMIT_MILLI <= camera_height_milli <= HEIGHT_LIMIT_MILLI,
        ensures
            r.new_zoom as int == spec_zoom_decision(
                self.height_thresholds@,
                self.current_zoom as int,
                camera_height_milli as int,
            ).0,
            r.matched_min_height_milli as int == spec_zoom_decision(
                self.height_thresholds@,
                self.current_zoom as int,
                camera_height_milli as int,
            ).1,
            r.preload_zooms@ == spec_preload_zooms(
                self.current_zoom as int,
                r.new_zoom as int,
                r.matched_min_height_milli as int,
                camera_height_milli as int,
            ),
            MIN_ZOOM_LEVEL <= r.new_zoom <= MAX_ZOOM_LEVEL,
            forall|i: int|
                0 <= i < r.preload_zooms@.len() ==> MIN_ZOOM_LEVEL <= #[trigger] r.preload_zooms@[i]
                    <= MAX_ZOOM_LEVEL,
    {
        let h = camera_height_milli;
        let mut matched: Option<HeightThreshold> = None;
        let mut i: usize = 0;
        proof {
            assert(self.height_thresholds@.skip(0) =~= self.height_thresholds@);
        }
        while i < self.height_thresholds.len() && matched.is_none()
            invariant
                self.wf(),
                -HEIGHT_LIMIT_MILLI <= h <= HEIGHT_LIMIT_MILLI,
                0 <= i <= self.height_thresholds@.len(),
                matched matches Option::None ==> spec_first_match(
                    self.height_thresholds@,
                    h as int,
                ) == spec_first_match(self.height_thresholds@.skip(i as int), h as int),
                matched matches Option::Some(t) ==> spec_first_match(
                    self.height_thresholds@,
                    h as int,
                ) == Option::Some(t) && MIN_ZOOM_LEVEL <= t.zoom <= MAX_ZOOM_LEVEL
                    && -HEIGHT_LIMIT_MILLI <= t.min_height_milli <= HEIGHT_LIMIT_MILLI,
            decreases self.height_thresholds@.len() - i + (if matched is None {
                1int
            } else {
                0int
            }),
        {
            let t = self.height_thresholds[i];
            proof {
                assert(self.height_thresholds@.skip(i as int)[0] == self.height_thresholds@[
                    i as int]);
                assert(self.height_thresholds@.skip(i as int).skip(1)
                    =~= self.height_thresholds@.skip(i as int + 1));
            }
            if h >= t.min_height_milli + MATCH_HYSTERESIS_MILLI {
                matched = Some(t);
            } else {
                i = i + 1;
            }
        }
        proof {
            if matched is None {
                assert(self.height_thresholds@.skip(self.height_thresholds@.len() as int)
                    =~= Seq::<HeightThreshold>::empty());
            }
        }
        let (new_zoom, matched_mh): (i32, i64) = match matched {
            None => (self.current_zoom, 0),
            Some(t) => {
                if t.zoom < self.current_zoom && h < t.min_height_milli + COMMIT_HYSTERESIS_MILLI {
                    (self.current_zoom, t.min_height_milli)
                } else {
                    (t.zoom, t.min_height_milli)
                }
            },
        };
        let preload_zooms: Vec<i32> = if new_zoom != self.current_zoom {
            let mut v: Vec<i32> = Vec::new();
            v.push(self.current_zoom);
            v.push(new_zoom);
            proof {
                assert(v@ =~= seq![self.current_zoom, new_zoom]);
            }
            v
        } else {
            let trend_coarser: bool = 10 * h > 17 * matched_mh;
            let trend_finer: bool = 10 * h < 13 * matched_mh;
            let next: i32 = if trend_coarser {
                if self.current_zoom > MIN_ZOOM_LEVEL {
                    self.current_zoom - 1
                } else {
                    self.current_zoom
                }
            } else if trend_finer {
                if self.current_zoom < MAX_ZOOM_LEVEL {
                    self.current_zoom + 1
                } else {
                    self.current_zoom
                }
            } else {
                self.current_zoom
            };
            let mut v: Vec<i32> = Vec::new();
            if next != self.current_zoom {
                v.push(next);
                proof {
                    assert(v@ =~= seq![next]);
                }
            }
            v
        };
        ZoomDecision { new_zoom, matched_min_height_milli: matched_mh, preload_zooms }
    }

    /// Preload the 5 x 5 block around a center tile at one zoom level,
    /// outside the concurrency budget, deduplicated against the loaded set
    /// and the pending queue.
    pub fn preload_block(&mut self, center_x: u32, center_y: u32, zoom: i32, pending: &Vec<TileKey>)
        -> (r: Vec<TileKey>)
        requires
            old(self).wf(),
            MIN_ZOOM_LEVEL <= zoom <= MAX_ZOOM_LEVEL,
            center_x as int <= spec_max_tile_index(zoom as int),
            center_y as int <= spec_max_tile_index(zoom as int),
        ensures
            final(self).wf(),
            r@ == spec_select_all(
                spec_preload_keys(zoom as int, center_x, center_y),
                old(self).loaded@,
                pending@,
            ),
            final(self).loaded@ == old(self).loaded@ + r@,
            forall|k: TileKey|
                #[trigger] r@.contains(k) ==> !old(self).loaded@.contains(k) && !pending@.contains(
                    k,
                ),
            forall|i: int, j: int| 0 <= i < j < r@.len() ==> r@[i] != r@[j],
            final(self).active == old(self).active,
            final(self).overlays == old(self).overlays,
            final(self).height_thresholds == old(self).height_thresholds,
            final(self).current_zoom == old(self).current_zoom,
            final(self).total_time_ms == old(self).total_time_ms,
    {
        let maxi: u32 = max_tile_index(zoom);
        let mut keys: Vec<TileKey> = Vec::new();
        let mut xi: u32 = 0;
        proof {
            vstd::arithmetic::power2::lemma_pow2_pos(zoom as nat);
        }
        while xi < 5
            invariant
                MIN_ZOOM_LEVEL <= zoom <= MAX_ZOOM_LEVEL,
                center_x as int <= spec_max_tile_index(zoom as int),
                center_y as int <= spec_max_tile_index(zoom as int),
                maxi as int == spec_max_tile_index(zoom as int),
                0 <= xi <= 5,
                keys@.len() == xi * 5,
                forall|k: int|
                    0 <= k < keys@.len() ==> #[trigger] keys@[k] == spec_preload_key_at(
                        zoom as int,
                        center_x,
                        center_y,
                        k,
                    ),
                forall|k: int| 0 <= k < keys@.len() ==> (#[trigger] keys@[k]).wf(),
            decreases 5 - xi,
        {
            let mut yi: u32 = 0;
            while yi < 5
                invariant
                    MIN_ZOOM_LEVEL <= zoom <= MAX_ZOOM_LEVEL,
                    center_x as int <= spec_max_tile_index(zoom as int),
                    center_y as int <= spec_max_tile_index(zoom as int),
                    maxi as int == spec_max_tile_index(zoom as int),
                    0 <= xi < 5,
                    0 <= yi <= 5,
                    keys@.len() == xi * 5 + yi,
                    forall|k: int|
                        0 <= k < keys@.len() ==> #[trigger] keys@[k] == spec_preload_key_at(
                            zoom as int,
                            center_x,
                            center_y,
                            k,
                        ),
                    forall|k: int| 0 <= k < keys@.len() ==> (#[trigger] keys@[k]).wf(),
                decreases 5 - yi,
            {
                let xo: i64 = xi as i64 - 2;
                let yo: i64 = yi as i64 - 2;
                let tx: u32 = {
                    let v = center_x as i64 + xo;
                    if v < 0 {
                        0
                    } else if v > maxi as i64 {
                        maxi
                    } else {
                        v as u32
                    }
                };
                let ty: u32 = {
                    let v = center_y as i64 + yo;
                    if v < 0 {
                        0
                    } else if v > maxi as i64 {
                        maxi
                    } else {
                        v as u32
                    }
                };
                proof {
                    let idx = (xi * 5 + yi) as int;
                    vstd::arithmetic::div_mod::lemma_fundamental_div_mod_converse_div(
                        idx,
                        5,
                        xi as int,
                        yi as int,
                    );
                    vstd::arithmetic::div_mod::lemma_fundamental_div_mod_converse_mod(
                        idx,
                        5,
                        xi as int,
                        yi as int,
                    );
                    vstd::arithmetic::power2::lemma_pow2_pos(zoom as nat);
                    assert(TileKey { x: tx, y: ty, zoom } == spec_preload_key_at(
                        zoom as int,
                        center_x,
                        center_y,
                        idx,
                    ));
                }
                keys.push(TileKey { x: tx, y: ty, zoom });
                yi = yi + 1;
            }
            xi = xi + 1;
            proof {
                assert(xi * 5 == (xi - 1) * 5 + 5) by (nonlinear_arith);
            }
        }
        proof {
            assert(keys@ =~= spec_preload_keys(zoom as int, center_x, center_y));
        }
        self.dispatch_all(&keys, pending)
    }

    /// Commit an actual zoom change: set the new zoom, retire active tiles
    /// now too distant (their handles are returned for the host to
    /// despawn), and prune the loaded set by the wider retention margin.
    pub fn commit_zoom_change(&mut self, new_zoom: i32, center_x: u32, center_y: u32) -> (r: Vec<
        u64,
    >)
        requires
            old(self).wf(),
            MIN_ZOOM_LEVEL <= new_zoom <= MAX_ZOOM_LEVEL,
            center_x as int <= spec_max_tile_index(new_zoom as int),
            center_y as int <= spec_max_tile_index(new_zoom as int),
        ensures
            final(self).wf(),
            final(self).current_zoom == new_zoom,
            final(self).active@ == spec_active_after_zoom(
                old(self).overlays.overlay_zoom as int,
                old(self).active@,
                new_zoom as int,
                center_x,
                center_y,
            ),
            r@ == spec_retired_on_zoom(
                old(self).overlays.overlay_zoom as int,
                old(self).active@,
                new_zoom as int,
                center_x,
                center_y,
            ),
            final(self).loaded@ == spec_loaded_after_zoom(
                old(self).overlays,
                old(self).loaded@,
                new_zoom as int,
                center_x,
                center_y,
            ),
            final(self).overlays == old(self).overlays,
            final(self).height_thresholds == old(self).height_thresholds,
            final(self).total_time_ms == old(self).total_time_ms,
    {
        let ghost ozi = self.overlays.overlay_zoom as int;
        let oz = self.overlays.overlay_zoom;
        let mut kept_active: Vec<ActiveTile> = Vec::new();
        let mut retired: Vec<u64> = Vec::new();
        let mut i: usize = 0;
        while i < self.active.len()
            invariant
                self.wf(),
                ozi == self.overlays.overlay_zoom as int,
                oz == self.overlays.overlay_zoom,
                MIN_ZOOM_LEVEL <= new_zoom <= MAX_ZOOM_LEVEL,
                0 <= i <= self.active@.len(),
                kept_active@ == spec_active_after_zoom(
                    ozi,
                    self.active@.take(i as int),
                    new_zoom as int,
                    center_x,
                    center_y,
                ),
                retired@ == spec_retired_on_zoom(
                    ozi,
                    self.active@.take(i as int),
                    new_zoom as int,
                    center_x,
                    center_y,
                ),
                forall|k: int|
                    0 <= k < kept_active@.len() ==> (#[trigger] kept_active@[k]).key.wf(),
            decreases self.active@.len() - i,
        {
            let t = self.active[i];
            proof {
                assert(self.active@[i as int].key.wf());
            }
            let keep: bool = if t.key.zoom == oz {
                true
            } else {
                let zd: i32 = if t.key.zoom >= new_zoom {
                    t.key.zoom - new_zoom
                } else {
                    new_zoom - t.key.zoom
                };
                if zd > 2 {
                    false
                } else {
                    let vr = visible_range(new_zoom);
                    let sx = scaled_to(t.key.zoom, t.key.x, new_zoom);
                    let sy = scaled_to(t.key.zoom, t.key.y, new_zoom);
                    let dx = abs_diff(sx, center_x as i64);
                    let dy = abs_diff(sy, center_y as i64);
                    dx <= 4 * (vr as i64) && dy <= 4 * (vr as i64)
                }
            };
            proof {
                assert(keep == spec_keep_active_on_zoom(
                    ozi,
                    self.active@[i as int],
                    new_zoom as int,
                    center_x,
                    center_y,
                ));
                lemma_take_push(self.active@, i as int);
                lemma_filter_push(
                    self.active@.take(i as int),
                    self.active@[i as int],
                    |a: ActiveTile|
                        spec_keep_active_on_zoom(ozi, a, new_zoom as int, center_x, center_y),
                );
                lemma_filter_push(
                    self.active@.take(i as int),
                    self.active@[i as int],
                    |a: ActiveTile|
                        !spec_keep_active_on_zoom(ozi, a, new_zoom as int, center_x, center_y),
                );
                if !keep {
                    lemma_map_values_push(
                        self.active@.take(i as int).filter(
                            |a: ActiveTile|
                                !spec_keep_active_on_zoom(
                                    ozi,
                                    a,
                                    new_zoom as int,
                                    center_x,
                                    center_y,
                                ),
                        ),
                        self.active@[i as int],
                        |a: ActiveTile| a.handle,
                    );
                }
            }
            if keep {
                kept_active.push(t);
            } else {
                retired.push(t.handle);
            }
            i = i + 1;
        }
        proof {
            assert(self.active@.take(self.active@.len() as int) =~= self.active@);
        }

        let mut kept_loaded: Vec<TileKey> = Vec::new();
        let mut j: usize = 0;
        while j < self.loaded.len()
            invariant
                self.wf(),
                oz == self.overlays.overlay_zoom,
                MIN_ZOOM_LEVEL <= new_zoom <= MAX_ZOOM_LEVEL,
                0 <= j <= self.loaded@.len(),
                kept_loaded@ == spec_loaded_after_zoom(
                    self.overlays,
                    self.loaded@.take(j as int),
                    new_zoom as int,
                    center_x,
                    center_y,
                ),
                forall|k: int| 0 <= k < kept_loaded@.len() ==> (#[trigger] kept_loaded@[k]).wf(),
            decreases self.loaded@.len() - j,
        {
            let k = self.loaded[j];
            proof {
                assert(self.loaded@[j as int].wf());
            }
            let cls = self.overlays.classify(&k);
            let keep: bool = if matches!(cls, TileClass::ExactOverlay) {
                true
            } else {
                let zd: i32 = if k.zoom >= new_zoom {
                    k.zoom - new_zoom
                } else {
                    new_zoom - k.zoom
                };
                if zd > 2 {
                    false
                } else {
                    let vr = visible_range(new_zoom);
                    let sx = scaled_to(k.zoom, k.x, new_zoom);
                    let sy = scaled_to(k.zoom, k.y, new_zoom);
                    let dx = abs_diff(sx, center_x as i64);
                    let dy = abs_diff(sy, center_y as i64);
                    dx <= 5 * (vr as i64) && dy <= 5 * (vr as i64)
                }
            };
            proof {
                assert((cls == TileClass::ExactOverlay) == self.overlays.spec_is_exact(
                    self.loaded@[j as int],
                ));
                assert(keep == spec_keep_loaded_on_zoom(
                    self.overlays,
                    self.loaded@[j as int],
                    new_zoom as int,
                    center_x,
                    center_y,
                ));
                lemma_take_push(self.loaded@, j as int);
                lemma_filter_push(
                    self.loaded@.take(j as int),
                    self.loaded@[j as int],
                    |kk: TileKey|
                        spec_keep_loaded_on_zoom(
                            self.overlays,
                            kk,
                            new_zoom as int,
                            center_x,
                            center_y,
                        ),
                );
            }
            if keep {
                kept_loaded.push(k);
            }
            j = j + 1;
        }
        proof {
            assert(self.loaded@.take(self.loaded@.len() as int) =~= self.loaded@);
        }

        self.active = kept_active;
        self.loaded = kept_loaded;
        self.current_zoom = new_zoom;
        retired
    }
}

} // verus!
