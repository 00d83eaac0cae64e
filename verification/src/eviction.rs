//! Recency-based eviction: sweep active tiles whose recency stamp has
//! expired, with retention differentiated by overlay class.
//!
//! The sweep is throttled to once per five simulated seconds. Plain tiles
//! expire after 45 s unseen, overlay-corresponding tiles after 90 s, and
//! exact-overlay tiles never: they are truly persistent. After the sweep
//! the loaded set is trimmed to the keys still active, except exact overlay
//! keys, which are kept indefinitely to avoid re-fetch storms.

use vstd::prelude::*;

verus! {

use crate::overlay::{OverlayIndex, TileClass};
use crate::cache::{TileCache, ActiveTile};
use crate::coords::TileKey;
use crate::seq_lemmas::{lemma_filter_push, lemma_map_values_push, lemma_take_push};

/// How often the sweep runs, in milliseconds of accumulated time.
pub const SWEEP_PERIOD_MS: u64 = 5000;
/// Tolerance of the period check: the sweep runs in the first 50 ms of
/// each period.
pub const SWEEP_TOLERANCE_MS: u64 = 50;
/// How long a plain tile may go unseen before eviction.
pub const PLAIN_TIMEOUT_MS: u64 = 45_000;
/// How long an overlay-corresponding tile may go unseen before eviction.
pub const CORRESPONDING_TIMEOUT_MS: u64 = 90_000;
/// The nominal exact-overlay timeout; such tiles are nevertheless never
/// evicted by the sweep.
pub const OVERLAY_TIMEOUT_MS: u64 = 180_000;

/// The sweep runs only in the first 50 ms after each 5 s boundary of the
/// accumulated-time counter.
pub open spec fn spec_sweep_due(total_ms: int) -> bool {
    total_ms % (SWEEP_PERIOD_MS as int) <= SWEEP_TOLERANCE_MS as int
}

/// The retention timeout a tile's overlay class grants it.
pub open spec fn spec_timeout_ms(cls: TileClass) -> int {
    match cls {
        TileClass::ExactOverlay => OVERLAY_TIMEOUT_MS as int,
        TileClass::CorrespondingOverlay => CORRESPONDING_TIMEOUT_MS as int,
        TileClass::Plain => PLAIN_TIMEOUT_MS as int,
    }
}

/// Whether a due sweep evicts the tile: its timeout has lapsed and it is
/// not an exact overlay tile.
pub open spec fn spec_evicted(ov: OverlayIndex, t: ActiveTile, now_ms: u64) -> bool {
    let cls = ov.spec_classify(t.key);
    cls != TileClass::ExactOverlay && (now_ms as int) > t.last_used_ms + spec_timeout_ms(cls)
}

/// The active tiles a due sweep leaves, in order.
pub open spec fn spec_surviving(ov: OverlayIndex, s: Seq<ActiveTile>, now_ms: u64) -> Seq<
    ActiveTile,
> {
    s.filter(|t: ActiveTile| !spec_evicted(ov, t, now_ms))
}

/// The handles of the tiles a due sweep evicts, in order.
pub open spec fn spec_evicted_handles(ov: OverlayIndex, s: Seq<ActiveTile>, now_ms: u64) -> Seq<
    u64,
> {
    s.filter(|t: ActiveTile| spec_evicted(ov, t, now_ms)).map_values(|t: ActiveTile| t.handle)
}

/// Whether a loaded key survives the post-sweep trim: it still has an
/// active tile, or it is an exact overlay key.
pub open spec fn spec_keep_loaded_after_sweep(
    ov: OverlayIndex,
    survivors: Seq<ActiveTile>,
    k: TileKey,
) -> bool {
    (exists|i: int| 0 <= i < survivors.len() && (#[trigger] survivors[i]).key == k)
        || ov.spec_is_exact(k)
}

/// The loaded keys left after the post-sweep trim, in order.
pub open spec fn spec_loaded_after_sweep(
    ov: OverlayIndex,
    survivors: Seq<ActiveTile>,
    loaded: Seq<TileKey>,
) -> Seq<TileKey> {
    loaded.filter(|k: TileKey| spec_keep_loaded_after_sweep(ov, survivors, k))
}

/// Persistence law: a due sweep never evicts an exact-overlay tile,
/// whatever its recency stamp.
pub proof fn lemma_exact_overlay_never_evicted(ov: OverlayIndex, t: ActiveTile, now_ms: u64)
    requires
        ov.spec_classify(t.key) == TileClass::ExactOverlay,
    ensures
        !spec_evicted(ov, t, now_ms),
{
}

/// Timeout law: a due sweep evicts a plain tile exactly when it has gone
/// unseen for longer than the plain timeout.
pub proof fn lemma_plain_eviction_threshold(ov: OverlayIndex, t: ActiveTile, now_ms: u64)
    requires
        ov.spec_classify(t.key) == TileClass::Plain,
    ensures
        spec_evicted(ov, t, now_ms) <==> (now_ms as int) > t.last_used_ms + PLAIN_TIMEOUT_MS,
{
}

/// Does any tile of the list carry the key?
pub fn active_has_key(s: &Vec<ActiveTile>, key: &TileKey) -> (r: bool)
    ensures
        r == exists|i: int| 0 <= i < s@.len() && (#[trigger] s@[i]).key == *key,
{
    let mut i: usize = 0;
    while i < s.len()
        invariant
            0 <= i <= s@.len(),
            forall|j: int| 0 <= j < i ==> (#[trigger] s@[j]).key != *key,
        decreases s@.len() - i,
    {
        let t = &s[i];
        if t.key.x == key.x && t.key.y == key.y && t.key.zoom == key.zoom {
            assert(s@[i as int].key == *key);
            return true;
        }
        i = i + 1;
    }
    false
}

impl TileCache {
    /// Advance the accumulated clock and, when a sweep is due, evict every
    /// expired non-persistent tile and trim the loaded set. Returns the
    /// handles the host must despawn. The surviving list is rebuilt in one
    /// pass, so no index-order care is needed during removal.
    pub fn cleanup_old_tiles(&mut self, delta_ms: u64, now_ms: u64) -> (r: Vec<u64>)
        requires
            old(self).wf(),
            old(self).total_time_ms + delta_ms <= u64::MAX,
        ensures
            final(self).wf(),
            final(self).total_time_ms == old(self).total_time_ms + delta_ms,
            final(self).overlays == old(self).overlays,
            final(self).height_thresholds == old(self).height_thresholds,
            final(self).current_zoom == old(self).current_zoom,
            !spec_sweep_due(old(self).total_time_ms + delta_ms) ==> final(self).active == old(
                self,
            ).active && final(self).loaded == old(self).loaded && r@ == Seq::<u64>::empty(),
            spec_sweep_due(old(self).total_time_ms + delta_ms) ==> {
                &&& final(self).active@ == spec_surviving(
                    old(self).overlays,
                    old(self).active@,
                    now_ms,
                )
                &&& r@ == spec_evicted_handles(old(self).overlays, old(self).active@, now_ms)
                &&& final(self).loaded@ == spec_loaded_after_sweep(
                    old(self).overlays,
                    spec_surviving(old(self).overlays, old(self).active@, now_ms),
                    old(self).loaded@,
                )
            },
    {
        self.total_time_ms = self.total_time_ms + delta_ms;
        if self.total_time_ms % SWEEP_PERIOD_MS > SWEEP_TOLERANCE_MS {
            return Vec::new();
        }

        let mut survivors: Vec<ActiveTile> = Vec::new();
        let mut evicted: Vec<u64> = Vec::new();
        let mut i: usize = 0;
        while i < self.active.len()
            invariant
                self.wf(),
                0 <= i <= self.active@.len(),
                survivors@ == spec_surviving(self.overlays, self.active@.take(i as int), now_ms),
                evicted@ == spec_evicted_handles(
                    self.overlays,
                    self.active@.take(i as int),
                    now_ms,
                ),
                forall|k: int| 0 <= k < survivors@.len() ==> (#[trigger] survivors@[k]).key.wf(),
            decreases self.active@.len() - i,
        {
            let t = self.active[i];
            proof {
                assert(self.active@[i as int].key.wf());
            }
            let cls = self.overlays.classify(&t.key);
            let timeout: u64 = match cls {
                TileClass::ExactOverlay => OVERLAY_TIMEOUT_MS,
                TileClass::CorrespondingOverlay => CORRESPONDING_TIMEOUT_MS,
                TileClass::Plain => PLAIN_TIMEOUT_MS,
            };
            let expired: bool = if now_ms >= t.last_used_ms {
                now_ms - t.last_used_ms > timeout
            } else {
                false
            };
            let evict: bool = expired && !matches!(cls, TileClass::ExactOverlay);
            proof {
                assert(evict == spec_evicted(self.overlays, self.active@[i as int], now_ms));
                lemma_take_push(self.active@, i as int);
                lemma_filter_push(
                    self.active@.take(i as int),
                    self.active@[i as int],
                    |a: ActiveTile| !spec_evicted(self.overlays, a, now_ms),
                );
                lemma_filter_push(
                    self.active@.take(i as int),
                    self.active@[i as int],
                    |a: ActiveTile| spec_evicted(self.overlays, a, now_ms),
                );
                if evict {
                    lemma_map_values_push(
                        self.active@.take(i as int).filter(
                            |a: ActiveTile| spec_evicted(self.overlays, a, now_ms),
                        ),
                        self.active@[i as int],
                        |a: ActiveTile| a.handle,
                    );
                }
            }
            if evict {
                evicted.push(t.handle);
            } else {
                survivors.push(t);
            }
            i = i + 1;
        }
        proof {
            assert(self.active@.take(self.active@.len() as int) =~= self.active@);
        }

        let mut kept_loaded: Vec<TileKey> = Vec::new();
        let mut j: usize = 0;
        while j < self.loaded.len()
            invariant
                self.wf(),
                0 <= j <= self.loaded@.len(),
                survivors@ == spec_surviving(self.overlays, self.active@, now_ms),
                kept_loaded@ == spec_loaded_after_sweep(
                    self.overlays,
                    survivors@,
                    self.loaded@.take(j as int),
                ),
                forall|k: int| 0 <= k < kept_loaded@.len() ==> (#[trigger] kept_loaded@[k]).wf(),
            decreases self.loaded@.len() - j,
        {
            let k = self.loaded[j];
            proof {
                assert(self.loaded@[j as int].wf());
            }
            let still_active = active_has_key(&survivors, &k);
            let cls = self.overlays.classify(&k);
            let keep: bool = still_active || matches!(cls, TileClass::ExactOverlay);
            proof {
                assert((cls == TileClass::ExactOverlay) == self.overlays.spec_is_exact(
                    self.loaded@[j as int],
                ));
                assert(keep == spec_keep_loaded_after_sweep(
                    self.overlays,
                    survivors@,
                    self.loaded@[j as int],
                ));
                lemma_take_push(self.loaded@, j as int);
                lemma_filter_push(
                    self.loaded@.take(j as int),
                    self.loaded@[j as int],
                    |kk: TileKey| spec_keep_loaded_after_sweep(self.overlays, survivors@, kk),
                );
            }
            if keep {
                kept_loaded.push(k);
            }
            j = j + 1;
        }
        proof {
            assert(self.loaded@.take(self.loaded@.len() as int) =~= self.loaded@);
        }

        self.active = survivors;
        self.loaded = kept_loaded;
        evicted
    }
}

} // verus!
