//! Demand scheduler: which tiles to fetch this tick, and in what order.
//!
//! Each invocation enumerates a square of candidate tiles around the camera,
//! prioritizes them by Manhattan distance (halved for tiles corresponding to
//! an overlay entry), drops candidates the host's view-frustum test rejects,
//! and dispatches the survivors in priority order up to a zoom-dependent
//! concurrency budget. Overlay entries near the camera are additionally
//! fetched at their native overlay zoom, outside that budget. A key already
//! claimed (in the loaded set) or already resolved (in the pending queue) is
//! never dispatched again.

use vstd::prelude::*;

verus! {

use vstd::math::abs;
use vstd::arithmetic::power2::pow2;
use vstd::arithmetic::div_mod::{
    lemma_fundamental_div_mod_converse_div, lemma_fundamental_div_mod_converse_mod,
};
use crate::coords::{TileKey, MIN_ZOOM_LEVEL, MAX_ZOOM_LEVEL, spec_max_tile_index, max_tile_index};
use crate::overlay::OverlayIndex;
use crate::cache::{TileCache, vec_contains_key};
use crate::seq_lemmas::{lemma_filter_push, lemma_map_values_push, lemma_take_push,
    lemma_add_contains};

/// Every adjusted distance is below this bound: the widest window is 6
/// tiles, so a raw Manhattan distance is at most 12.
pub const ADJUSTED_DISTANCE_BOUND: u32 = 13;

/// One candidate tile of the current window.
#[derive(Clone, Copy, PartialEq, Eq, Structural, Debug)]
pub struct Candidate {
    pub x: u32,
    pub y: u32,
    /// Manhattan distance of the window offset from the camera tile.
    pub raw: u32,
    /// Scheduling priority: `raw`, halved when the tile corresponds to an
    /// overlay entry.
    pub adjusted: u32,
}

/// What one scheduler invocation dispatched: overlay-zoom fetches are not
/// counted against the concurrency budget, regular fetches are.
#[derive(Clone, Debug)]
pub struct DispatchPlan {
    pub overlay: Vec<TileKey>,
    pub regular: Vec<TileKey>,
}

/// How many tiles from the center the window reaches, by zoom: narrower at
/// high zoom so the total tile count stays bounded.
pub open spec fn spec_visible_range(zoom: int) -> int {
    if zoom >= 18 {
        3
    } else if zoom >= 16 {
        4
    } else if zoom >= 14 {
        5
    } else {
        6
    }
}

/// The per-tick concurrency budget for regular fetches, by zoom.
pub open spec fn spec_budget(zoom: int) -> int {
    if zoom >= 17 {
        8
    } else if zoom >= 15 {
        10
    } else {
        12
    }
}

/// See [`spec_visible_range`].
pub fn visible_range(zoom: i32) -> (r: u32)
    ensures
        r as int == spec_visible_range(zoom as int),
{
    if zoom >= 18 {
        3
    } else if zoom >= 16 {
        4
    } else if zoom >= 14 {
        5
    } else {
        6
    }
}

/// See [`spec_budget`].
pub fn max_concurrent_loads(zoom: i32) -> (r: u32)
    ensures
        r as int == spec_budget(zoom as int),
{
    if zoom >= 17 {
        8
    } else if zoom >= 15 {
        10
    } else {
        12
    }
}

/// Clamp a value into `[lo, hi]`.
pub open spec fn spec_clamp(v: int, lo: int, hi: int) -> int {
    if v < lo {
        lo
    } else if v > hi {
        hi
    } else {
        v
    }
}

/// The candidate generated at position `idx` of the row-major walk of the
/// `(2 * visible_range + 1)^2` window around the camera tile.
pub open spec fn spec_candidate_at(
    ov: OverlayIndex,
    cz: int,
    cam_x: u32,
    cam_y: u32,
    idx: int,
) -> Candidate {
    let vr = spec_visible_range(cz);
    let side = 2 * vr + 1;
    let xo = idx / side - vr;
    let yo = idx % side - vr;
    let maxi = spec_max_tile_index(cz);
    let tx = spec_clamp(cam_x + xo, 0, maxi) as u32;
    let ty = spec_clamp(cam_y + yo, 0, maxi) as u32;
    let raw = (abs(xo) + abs(yo)) as u32;
    let adjusted = if ov.spec_corresponds(TileKey { x: tx, y: ty, zoom: cz as i32 }) {
        (raw as int / 2) as u32
    } else {
        raw
    };
    Candidate { x: tx, y: ty, raw, adjusted }
}

/// The whole candidate window, in enumeration (row-major) order.
pub open spec fn spec_candidates(ov: OverlayIndex, cz: int, cam_x: u32, cam_y: u32) -> Seq<
    Candidate,
> {
    let side = 2 * spec_visible_range(cz) + 1;
    Seq::new((side * side) as nat, |i: int| spec_candidate_at(ov, cz, cam_x, cam_y, i))
}

/// Enumerate the candidate window around the camera tile, with coordinates
/// clamped to the grid and priorities already adjusted for overlay
/// correspondence.
pub fn enumerate_candidates(ov: &OverlayIndex, cam_x: u32, cam_y: u32, cz: i32) -> (r: Vec<
    Candidate,
>)
    requires
        ov.wf(),
        MIN_ZOOM_LEVEL <= cz <= MAX_ZOOM_LEVEL,
        cam_x as int <= spec_max_tile_index(cz as int),
        cam_y as int <= spec_max_tile_index(cz as int),
    ensures
        r@ == spec_candidates(*ov, cz as int, cam_x, cam_y),
        forall|i: int|
            0 <= i < r@.len() ==> (#[trigger] r@[i]).x as int <= spec_max_tile_index(cz as int)
                && r@[i].y as int <= spec_max_tile_index(cz as int) && r@[i].adjusted
                < ADJUSTED_DISTANCE_BOUND,
{
    let vr: u32 = visible_range(cz);
    let side: u32 = 2 * vr + 1;
    let maxi: u32 = max_tile_index(cz);
    let mut r: Vec<Candidate> = Vec::new();
    let mut xi: u32 = 0;
    while xi < side
        invariant
            ov.wf(),
            MIN_ZOOM_LEVEL <= cz <= MAX_ZOOM_LEVEL,
            cam_x as int <= spec_max_tile_index(cz as int),
            cam_y as int <= spec_max_tile_index(cz as int),
            vr as int == spec_visible_range(cz as int),
            side == 2 * vr + 1,
            maxi as int == spec_max_tile_index(cz as int),
            0 <= xi <= side,
            r@.len() == xi * side,
            forall|k: int|
                0 <= k < r@.len() ==> #[trigger] r@[k] == spec_candidate_at(
                    *ov,
                    cz as int,
                    cam_x,
                    cam_y,
                    k,
                ),
            forall|k: int|
                0 <= k < r@.len() ==> (#[trigger] r@[k]).x <= maxi && r@[k].y <= maxi
                    && r@[k].adjusted < ADJUSTED_DISTANCE_BOUND,
        decreases side - xi,
    {
        let mut yi: u32 = 0;
        while yi < side
            invariant
                ov.wf(),
                MIN_ZOOM_LEVEL <= cz <= MAX_ZOOM_LEVEL,
                cam_x as int <= spec_max_tile_index(cz as int),
                cam_y as int <= spec_max_tile_index(cz as int),
                vr as int == spec_visible_range(cz as int),
                side == 2 * vr + 1,
                maxi as int == spec_max_tile_index(cz as int),
                0 <= xi < side,
                0 <= yi <= side,
                r@.len() == xi * side + yi,
                forall|k: int|
                    0 <= k < r@.len() ==> #[trigger] r@[k] == spec_candidate_at(
                        *ov,
                        cz as int,
                        cam_x,
                        cam_y,
                        k,
                    ),
                forall|k: int|
                    0 <= k < r@.len() ==> (#[trigger] r@[k]).x <= maxi && r@[k].y <= maxi
                        && r@[k].adjusted < ADJUSTED_DISTANCE_BOUND,
            decreases side - yi,
        {
            let xo: i64 = xi as i64 - vr as i64;
            let yo: i64 = yi as i64 - vr as i64;
            let txi: i64 = {
                let v = cam_x as i64 + xo;
                if v < 0 {
                    0
                } else if v > maxi as i64 {
                    maxi as i64
                } else {
                    v
                }
            };
            let tyi: i64 = {
                let v = cam_y as i64 + yo;
                if v < 0 {
                    0
                } else if v > maxi as i64 {
                    maxi as i64
                } else {
                    v
                }
            };
            let tx: u32 = txi as u32;
            let ty: u32 = tyi as u32;
            let raw: u32 = (if xo < 0 {
                -xo
            } else {
                xo
            } + if yo < 0 {
                -yo
            } else {
                yo
            }) as u32;
            let key = TileKey { x: tx, y: ty, zoom: cz };
            proof {
                vstd::arithmetic::power2::lemma_pow2_pos(cz as nat);
            }
            let corr: bool = ov.corresponds(&key);
            let adjusted: u32 = if corr {
                raw / 2
            } else {
                raw
            };
            proof {
                let idx = (xi * side + yi) as int;
                lemma_fundamental_div_mod_converse_div(idx, side as int, xi as int, yi as int);
                lemma_fundamental_div_mod_converse_mod(idx, side as int, xi as int, yi as int);
                assert(r@.push(
                    Candidate { x: tx, y: ty, raw, adjusted },
                )[idx] == Candidate { x: tx, y: ty, raw, adjusted });
                assert(Candidate { x: tx, y: ty, raw, adjusted } == spec_candidate_at(
                    *ov,
                    cz as int,
                    cam_x,
                    cam_y,
                    idx,
                ));
            }
            r.push(Candidate { x: tx, y: ty, raw, adjusted });
            yi = yi + 1;
        }
        xi = xi + 1;
        proof {
            assert(xi * side == (xi - 1) * side + side) by (nonlinear_arith);
        }
    }
    proof {
        assert(r@.len() == side * side);
        assert(side as int * side as int == (2 * spec_visible_range(cz as int) + 1) * (2
            * spec_visible_range(cz as int) + 1));
        assert(r@ =~= spec_candidates(*ov, cz as int, cam_x, cam_y));
    }
    r
}

/// The candidates that survived the host's frustum test: element `i` of the
/// window is kept when flag `i` is set.
pub open spec fn spec_kept(cands: Seq<Candidate>, keep: Seq<bool>) -> Seq<Candidate>
    decreases cands.len(),
{
    if cands.len() == 0 {
        Seq::empty()
    } else {
        let prefix = spec_kept(cands.drop_last(), keep.take(cands.len() - 1));
        if keep.len() == cands.len() && keep.last() {
            prefix.push(cands.last())
        } else {
            prefix
        }
    }
}

/// Keep the candidates whose flag is set, in order.
pub fn filter_candidates(cands: &Vec<Candidate>, keep: &Vec<bool>) -> (r: Vec<Candidate>)
    requires
        keep@.len() == cands@.len(),
    ensures
        r@ == spec_kept(cands@, keep@),
        forall|j: int| 0 <= j < r@.len() ==> cands@.contains(#[trigger] r@[j]),
{
    let mut r: Vec<Candidate> = Vec::new();
    let mut i: usize = 0;
    while i < cands.len()
        invariant
            keep@.len() == cands@.len(),
            0 <= i <= cands@.len(),
            r@ == spec_kept(cands@.take(i as int), keep@.take(i as int)),
            forall|j: int| 0 <= j < r@.len() ==> cands@.contains(#[trigger] r@[j]),
        decreases cands@.len() - i,
    {
        proof {
            lemma_take_push(cands@, i as int);
            lemma_take_push(keep@, i as int);
            assert(keep@.take(i as int + 1).take(i as int) =~= keep@.take(i as int));
            assert(cands@.take(i as int + 1).drop_last() =~= cands@.take(i as int));
        }
        if keep[i] {
            r.push(cands[i]);
            assert(cands@.contains(cands@[i as int]));
        }
        i = i + 1;
    }
    proof {
        assert(cands@.take(cands@.len() as int) =~= cands@);
        assert(keep@.take(keep@.len() as int) =~= keep@);
    }
    r
}

/// The candidates at exactly adjusted distance `d`, in enumeration order.
pub open spec fn spec_bucket(s: Seq<Candidate>, d: int) -> Seq<Candidate> {
    s.filter(|c: Candidate| c.adjusted as int == d)
}

/// The concatenation of the buckets for distances `0 .. n`, in order: a
/// stable sort of `s` by adjusted distance, for elements below `n`.
pub open spec fn spec_buckets_up_to(s: Seq<Candidate>, n: int) -> Seq<Candidate>
    decreases n,
{
    if n <= 0 {
        Seq::empty()
    } else {
        spec_buckets_up_to(s, n - 1) + spec_bucket(s, n - 1)
    }
}

/// The scheduling order: candidates sorted by adjusted distance, ascending,
/// ties broken by enumeration order (a stable sort).
pub open spec fn spec_sorted_candidates(s: Seq<Candidate>) -> Seq<Candidate> {
    spec_buckets_up_to(s, ADJUSTED_DISTANCE_BOUND as int)
}

/// Sort candidates by adjusted distance, keeping enumeration order among
/// equal distances.
pub fn sort_candidates(cands: &Vec<Candidate>) -> (r: Vec<Candidate>)
    requires
        forall|i: int| 0 <= i < cands@.len() ==> (#[trigger] cands@[i]).adjusted
            < ADJUSTED_DISTANCE_BOUND,
    ensures
        r@ == spec_sorted_candidates(cands@),
        forall|j: int| 0 <= j < r@.len() ==> cands@.contains(#[trigger] r@[j]),
{
    let mut r: Vec<Candidate> = Vec::new();
    let mut d: u32 = 0;
    while d < ADJUSTED_DISTANCE_BOUND
        invariant
            forall|i: int| 0 <= i < cands@.len() ==> (#[trigger] cands@[i]).adjusted
                < ADJUSTED_DISTANCE_BOUND,
            0 <= d <= ADJUSTED_DISTANCE_BOUND,
            r@ == spec_buckets_up_to(cands@, d as int),
            forall|j: int| 0 <= j < r@.len() ==> cands@.contains(#[trigger] r@[j]),
        decreases ADJUSTED_DISTANCE_BOUND - d,
    {
        let mut i: usize = 0;
        while i < cands.len()
            invariant
                forall|k: int| 0 <= k < cands@.len() ==> (#[trigger] cands@[k]).adjusted
                    < ADJUSTED_DISTANCE_BOUND,
                0 <= d < ADJUSTED_DISTANCE_BOUND,
                0 <= i <= cands@.len(),
                r@ == spec_buckets_up_to(cands@, d as int) + spec_bucket(
                    cands@.take(i as int),
                    d as int,
                ),
                forall|j: int| 0 <= j < r@.len() ==> cands@.contains(#[trigger] r@[j]),
            decreases cands@.len() - i,
        {
            proof {
                lemma_take_push(cands@, i as int);
                lemma_filter_push(
                    cands@.take(i as int),
                    cands@[i as int],
                    |c: Candidate| c.adjusted as int == d as int,
                );
            }
            if cands[i].adjusted == d {
                r.push(cands[i]);
                assert(cands@.contains(cands@[i as int]));
            }
            i = i + 1;
        }
        proof {
            assert(cands@.take(cands@.len() as int) =~= cands@);
        }
        d = d + 1;
    }
    r
}

/// Every element of `spec_buckets_up_to(s, n)` has adjusted distance below `n`.
pub proof fn lemma_buckets_elem_range(s: Seq<Candidate>, n: int)
    requires
        n >= 0,
    ensures
        forall|k: int|
            0 <= k < spec_buckets_up_to(s, n).len() ==> 0 <= (#[trigger] spec_buckets_up_to(
                s,
                n,
            )[k]).adjusted < n,
    decreases n,
{
    broadcast use vstd::seq_lib::group_filter_ensures;

    if n > 0 {
        lemma_buckets_elem_range(s, n - 1);
        let prefix = spec_buckets_up_to(s, n - 1);
        let bucket = spec_bucket(s, n - 1);
        assert forall|k: int|
            0 <= k < spec_buckets_up_to(s, n).len() implies 0 <= (#[trigger] spec_buckets_up_to(
            s,
            n,
        )[k]).adjusted < n by {
            if k < prefix.len() {
                assert(spec_buckets_up_to(s, n)[k] == prefix[k]);
            } else {
                assert(spec_buckets_up_to(s, n)[k] == bucket[k - prefix.len()]);
            }
        }
    }
}

/// The scheduling order is sorted: adjusted distances never decrease.
pub proof fn lemma_buckets_sorted(s: Seq<Candidate>, n: int)
    requires
        n >= 0,
    ensures
        forall|i: int, j: int|
            0 <= i <= j < spec_buckets_up_to(s, n).len() ==> (#[trigger] spec_buckets_up_to(
                s,
                n,
            )[i]).adjusted <= (#[trigger] spec_buckets_up_to(s, n)[j]).adjusted,
    decreases n,
{
    broadcast use vstd::seq_lib::group_filter_ensures;

    if n > 0 {
        lemma_buckets_sorted(s, n - 1);
        lemma_buckets_elem_range(s, n - 1);
        let prefix = spec_buckets_up_to(s, n - 1);
        let bucket = spec_bucket(s, n - 1);
        assert forall|i: int, j: int|
            0 <= i <= j < spec_buckets_up_to(s, n).len() implies (#[trigger] spec_buckets_up_to(
            s,
            n,
        )[i]).adjusted <= (#[trigger] spec_buckets_up_to(s, n)[j]).adjusted by {
            if j < prefix.len() {
                assert(spec_buckets_up_to(s, n)[i] == prefix[i]);
                assert(spec_buckets_up_to(s, n)[j] == prefix[j]);
            } else if i < prefix.len() {
                assert(spec_buckets_up_to(s, n)[i] == prefix[i]);
                assert(spec_buckets_up_to(s, n)[j] == bucket[j - prefix.len()]);
            } else {
                assert(spec_buckets_up_to(s, n)[i] == bucket[i - prefix.len()]);
                assert(spec_buckets_up_to(s, n)[j] == bucket[j - prefix.len()]);
            }
        }
    }
}

/// `spec_buckets_up_to(s, n)` holds exactly the elements of `s` with
/// adjusted distance below `n`.
proof fn lemma_buckets_membership(s: Seq<Candidate>, n: int, c: Candidate)
    requires
        n >= 0,
    ensures
        spec_buckets_up_to(s, n).contains(c) <==> (s.contains(c) && 0 <= c.adjusted < n),
    decreases n,
{
    broadcast use vstd::seq_lib::group_filter_ensures;
    broadcast use Seq::lemma_filter_contains_rev;

    if n > 0 {
        lemma_buckets_membership(s, n - 1, c);
        let prefix = spec_buckets_up_to(s, n - 1);
        let bucket = spec_bucket(s, n - 1);
        lemma_add_contains(prefix, bucket, c);
        if bucket.contains(c) {
            let m = choose|m: int| 0 <= m < bucket.len() && bucket[m] == c;
        }
        if s.contains(c) && c.adjusted == n - 1 {
            let m = choose|m: int| 0 <= m < s.len() && s[m] == c;
            assert(bucket.contains(s[m]));
        }
    }
}

/// Window law: the scheduling order holds exactly the candidates that
/// survived the frustum flags, every one of which has an in-range adjusted
/// distance.
pub proof fn lemma_scheduling_order_is_window(s: Seq<Candidate>, c: Candidate)
    requires
        forall|i: int| 0 <= i < s.len() ==> (#[trigger] s[i]).adjusted < ADJUSTED_DISTANCE_BOUND,
    ensures
        spec_sorted_candidates(s).contains(c) <==> s.contains(c),
{
    lemma_buckets_membership(s, ADJUSTED_DISTANCE_BOUND as int, c);
    if s.contains(c) {
        let m = choose|m: int| 0 <= m < s.len() && s[m] == c;
    }
}

/// Priority law: in the scheduling order, a candidate whose Manhattan
/// distance was halved by overlay correspondence stands before every plain
/// candidate of the same (nonzero) raw distance.
pub proof fn lemma_overlay_priority(s: Seq<Candidate>, i: int, j: int)
    requires
        0 <= i < spec_sorted_candidates(s).len(),
        0 <= j < spec_sorted_candidates(s).len(),
        spec_sorted_candidates(s)[i].raw == spec_sorted_candidates(s)[j].raw,
        spec_sorted_candidates(s)[i].raw >= 1,
        spec_sorted_candidates(s)[i].adjusted == spec_sorted_candidates(s)[i].raw as int / 2,
        spec_sorted_candidates(s)[j].adjusted == spec_sorted_candidates(s)[j].raw,
    ensures
        i < j,
{
    lemma_buckets_sorted(s, ADJUSTED_DISTANCE_BOUND as int);
    if j <= i {
        assert(spec_sorted_candidates(s)[j].adjusted <= spec_sorted_candidates(s)[i].adjusted);
    }
}

/// The keys, at the given zoom, of a candidate list in order.
pub open spec fn spec_candidate_keys(s: Seq<Candidate>, zoom: int) -> Seq<TileKey> {
    s.map_values(|c: Candidate| TileKey { x: c.x, y: c.y, zoom: zoom as i32 })
}

/// Convert candidates to tile keys at the given zoom.
pub fn candidate_keys(cands: &Vec<Candidate>, zoom: i32) -> (r: Vec<TileKey>)
    requires
        MIN_ZOOM_LEVEL <= zoom <= MAX_ZOOM_LEVEL,
        forall|i: int|
            0 <= i < cands@.len() ==> (#[trigger] cands@[i]).x as int <= spec_max_tile_index(
                zoom as int,
            ) && cands@[i].y as int <= spec_max_tile_index(zoom as int),
    ensures
        r@ == spec_candidate_keys(cands@, zoom as int),
        forall|i: int| 0 <= i < r@.len() ==> (#[trigger] r@[i]).wf(),
{
    let mut r: Vec<TileKey> = Vec::new();
    let mut i: usize = 0;
    proof {
        vstd::arithmetic::power2::lemma_pow2_pos(zoom as nat);
    }
    while i < cands.len()
        invariant
            MIN_ZOOM_LEVEL <= zoom <= MAX_ZOOM_LEVEL,
            forall|k: int|
                0 <= k < cands@.len() ==> (#[trigger] cands@[k]).x as int <= spec_max_tile_index(
                    zoom as int,
                ) && cands@[k].y as int <= spec_max_tile_index(zoom as int),
            0 <= i <= cands@.len(),
            r@ == spec_candidate_keys(cands@.take(i as int), zoom as int),
            forall|k: int| 0 <= k < r@.len() ==> (#[trigger] r@[k]).wf(),
        decreases cands@.len() - i,
    {
        proof {
            lemma_take_push(cands@, i as int);
            lemma_map_values_push(
                cands@.take(i as int),
                cands@[i as int],
                |c: Candidate| TileKey { x: c.x, y: c.y, zoom: zoom as i32 },
            );
            vstd::arithmetic::power2::lemma_pow2_pos(zoom as nat);
        }
        let c = &cands[i];
        r.push(TileKey { x: c.x, y: c.y, zoom });
        i = i + 1;
    }
    proof {
        assert(cands@.take(cands@.len() as int) =~= cands@);
    }
    r
}

/// The keys dispatched when every fresh candidate is taken: a key already in
/// the loaded set or the pending queue is skipped; a dispatched key joins
/// the loaded set at once, so a repeated candidate is taken only once.
pub open spec fn spec_select_all(
    cands: Seq<TileKey>,
    loaded: Seq<TileKey>,
    pending: Seq<TileKey>,
) -> Seq<TileKey>
    decreases cands.len(),
{
    if cands.len() == 0 {
        Seq::empty()
    } else if loaded.contains(cands[0]) || pending.contains(cands[0]) {
        spec_select_all(cands.skip(1), loaded, pending)
    } else {
        seq![cands[0]] + spec_select_all(cands.skip(1), loaded.push(cands[0]), pending)
    }
}

/// As [`spec_select_all`], but stopping after `budget` dispatches.
pub open spec fn spec_select_budgeted(
    cands: Seq<TileKey>,
    loaded: Seq<TileKey>,
    pending: Seq<TileKey>,
    budget: int,
) -> Seq<TileKey>
    decreases cands.len(),
{
    if cands.len() == 0 || budget <= 0 {
        Seq::empty()
    } else if loaded.contains(cands[0]) || pending.contains(cands[0]) {
        spec_select_budgeted(cands.skip(1), loaded, pending, budget)
    } else {
        seq![cands[0]] + spec_select_budgeted(cands.skip(1), loaded.push(cands[0]), pending, budget
            - 1)
    }
}

/// Dedup law for unbudgeted selection: every selected key is fresh (in
/// neither the loaded set nor the pending queue), comes from the candidate
/// list, and is selected only once.
pub proof fn lemma_select_all_props(cands: Seq<TileKey>, loaded: Seq<TileKey>, pending: Seq<TileKey>)
    ensures
        forall|k: TileKey|
            #[trigger] spec_select_all(cands, loaded, pending).contains(k) ==> !loaded.contains(k)
                && !pending.contains(k) && cands.contains(k),
        forall|i: int, j: int|
            0 <= i < j < spec_select_all(cands, loaded, pending).len() ==> spec_select_all(
                cands,
                loaded,
                pending,
            )[i] != spec_select_all(cands, loaded, pending)[j],
    decreases cands.len(),
{
    if cands.len() == 0 {
    } else {
        let c0 = cands[0];
        if loaded.contains(c0) || pending.contains(c0) {
            lemma_select_all_props(cands.skip(1), loaded, pending);
            assert forall|k: TileKey|
                #[trigger] spec_select_all(cands, loaded, pending).contains(k) implies
                !loaded.contains(k) && !pending.contains(k) && cands.contains(k) by {
                assert(spec_select_all(cands.skip(1), loaded, pending).contains(k));
                let m = choose|m: int|
                    0 <= m < cands.skip(1).len() && cands.skip(1)[m] == k;
                assert(cands[m + 1] == k);
            }
        } else {
            lemma_select_all_props(cands.skip(1), loaded.push(c0), pending);
            let tail = spec_select_all(cands.skip(1), loaded.push(c0), pending);
            let r = spec_select_all(cands, loaded, pending);
            assert(r == seq![c0] + tail);
            assert forall|k: TileKey| #[trigger] r.contains(k) implies !loaded.contains(k)
                && !pending.contains(k) && cands.contains(k) by {
                let m = choose|m: int| 0 <= m < r.len() && r[m] == k;
                if m == 0 {
                    assert(cands.contains(c0)) by {
                        assert(cands[0] == c0);
                    }
                } else {
                    assert(tail[m - 1] == k);
                    assert(tail.contains(k));
                    assert(!loaded.push(c0).contains(k));
                    assert(loaded.push(c0)[loaded.len() as int] == c0);
                    let m2 = choose|m2: int|
                        0 <= m2 < cands.skip(1).len() && cands.skip(1)[m2] == k;
                    assert(cands[m2 + 1] == k);
                    assert forall|q: int| 0 <= q < loaded.len() implies loaded[q] != k by {
                        assert(loaded.push(c0)[q] == loaded[q]);
                    }
                }
            }
            assert forall|i: int, j: int| 0 <= i < j < r.len() implies r[i] != r[j] by {
                if i == 0 {
                    assert(r[j] == tail[j - 1]);
                    assert(tail.contains(tail[j - 1]));
                    assert(!loaded.push(c0).contains(tail[j - 1]));
                    assert(loaded.push(c0)[loaded.len() as int] == c0);
                    assert(loaded.push(c0).contains(c0));
                } else {
                    assert(r[i] == tail[i - 1]);
                    assert(r[j] == tail[j - 1]);
                }
            }
        }
    }
}

/// Dedup and budget law for budgeted selection: every selected key is
/// fresh and selected once, and no more keys are selected than the budget
/// allows.
pub proof fn lemma_select_budgeted_props(
    cands: Seq<TileKey>,
    loaded: Seq<TileKey>,
    pending: Seq<TileKey>,
    budget: int,
)
    ensures
        spec_select_budgeted(cands, loaded, pending, budget).len() <= if budget >= 0 {
            budget
        } else {
            0
        },
        forall|k: TileKey|
            #[trigger] spec_select_budgeted(cands, loaded, pending, budget).contains(k)
                ==> !loaded.contains(k) && !pending.contains(k) && cands.contains(k),
        forall|i: int, j: int|
            0 <= i < j < spec_select_budgeted(cands, loaded, pending, budget).len()
                ==> spec_select_budgeted(cands, loaded, pending, budget)[i]
                != spec_select_budgeted(cands, loaded, pending, budget)[j],
    decreases cands.len(),
{
    if cands.len() == 0 || budget <= 0 {
    } else {
        let c0 = cands[0];
        if loaded.contains(c0) || pending.contains(c0) {
            lemma_select_budgeted_props(cands.skip(1), loaded, pending, budget);
            assert forall|k: TileKey|
                #[trigger] spec_select_budgeted(cands, loaded, pending, budget).contains(k) implies
                !loaded.contains(k) && !pending.contains(k) && cands.contains(k) by {
                assert(spec_select_budgeted(cands.skip(1), loaded, pending, budget).contains(k));
                let m = choose|m: int|
                    0 <= m < cands.skip(1).len() && cands.skip(1)[m] == k;
                assert(cands[m + 1] == k);
            }
        } else {
            lemma_select_budgeted_props(cands.skip(1), loaded.push(c0), pending, budget - 1);
            let tail = spec_select_budgeted(cands.skip(1), loaded.push(c0), pending, budget - 1);
            let r = spec_select_budgeted(cands, loaded, pending, budget);
            assert(r == seq![c0] + tail);
            assert forall|k: TileKey| #[trigger] r.contains(k) implies !loaded.contains(k)
                && !pending.contains(k) && cands.contains(k) by {
                let m = choose|m: int| 0 <= m < r.len() && r[m] == k;
                if m == 0 {
                    assert(cands.contains(c0)) by {
                        assert(cands[0] == c0);
                    }
                } else {
                    assert(tail[m - 1] == k);
                    assert(tail.contains(k));
                    assert(!loaded.push(c0).contains(k));
                    assert(loaded.push(c0)[loaded.len() as int] == c0);
                    let m2 = choose|m2: int|
                        0 <= m2 < cands.skip(1).len() && cands.skip(1)[m2] == k;
                    assert(cands[m2 + 1] == k);
                    assert forall|q: int| 0 <= q < loaded.len() implies loaded[q] != k by {
                        assert(loaded.push(c0)[q] == loaded[q]);
                    }
                }
            }
            assert forall|i: int, j: int| 0 <= i < j < r.len() implies r[i] != r[j] by {
                if i == 0 {
                    assert(r[j] == tail[j - 1]);
                    assert(tail.contains(tail[j - 1]));
                    assert(loaded.push(c0)[loaded.len() as int] == c0);
                    assert(loaded.push(c0).contains(c0));
                } else {
                    assert(r[i] == tail[i - 1]);
                    assert(r[j] == tail[j - 1]);
                }
            }
        }
    }
}

/// The overlay-zoom keys owed an unconditional fetch: every overlay entry
/// near the camera, addressed at its native overlay zoom.
pub open spec fn spec_overlay_fetch_keys(ov: OverlayIndex, cz: int, cam_x: u32, cam_y: u32) -> Seq<
    TileKey,
> {
    ov.spec_near_keys(
        ov.entries@,
        cz,
        cam_x,
        cam_y,
        spec_visible_range(cz) as u32,
    ).map_values(|p: (u32, u32)| TileKey { x: p.0, y: p.1, zoom: ov.overlay_zoom })
}

/// The regular candidate keys in scheduling order, after the frustum flags.
pub open spec fn spec_scheduled_keys(
    ov: OverlayIndex,
    cz: int,
    cam_x: u32,
    cam_y: u32,
    keep: Seq<bool>,
) -> Seq<TileKey> {
    spec_candidate_keys(
        spec_sorted_candidates(spec_kept(spec_candidates(ov, cz, cam_x, cam_y), keep)),
        cz,
    )
}

impl TileCache {
    /// Dispatch every fresh key of the list: mark it loaded and return it.
    /// Used for overlay-zoom fetches and zoom preloads, which no budget
    /// constrains.
    pub fn dispatch_all(&mut self, keys: &Vec<TileKey>, pending: &Vec<TileKey>) -> (r: Vec<TileKey>)
        requires
            old(self).wf(),
            forall|i: int| 0 <= i < keys@.len() ==> (#[trigger] keys@[i]).wf(),
        ensures
            final(self).wf(),
            r@ == spec_select_all(keys@, old(self).loaded@, pending@),
            final(self).loaded@ == old(self).loaded@ + r@,
            forall|k: TileKey|
                #[trigger] r@.contains(k) ==> !old(self).loaded@.contains(k) && !pending@.contains(
                    k,
                ),
            forall|i: int, j: int| 0 <= i < j < r@.len() ==> r@[i] != r@[j],
            final(self).active == old(self).active,
            final(self).overlays == old(self).overlays,
            final(self).height_thresholds == old(self).height_thresholds,
            final(self).current_zoom == old(self).current_zoom,
            final(self).total_time_ms == old(self).total_time_ms,
    {
        let ghost old_loaded = self.loaded@;
        let mut r: Vec<TileKey> = Vec::new();
        let mut i: usize = 0;
        proof {
            assert(keys@.skip(0) =~= keys@);
            assert(Seq::<TileKey>::empty() + spec_select_all(keys@, old_loaded, pending@)
                =~= spec_select_all(keys@, old_loaded, pending@));
            assert(old_loaded + Seq::<TileKey>::empty() =~= old_loaded);
        }
        while i < keys.len()
            invariant
                self.wf(),
                forall|k: int| 0 <= k < keys@.len() ==> (#[trigger] keys@[k]).wf(),
                0 <= i <= keys@.len(),
                self.loaded@ == old_loaded + r@,
                spec_select_all(keys@, old_loaded, pending@) == r@ + spec_select_all(
                    keys@.skip(i as int),
                    self.loaded@,
                    pending@,
                ),
                self.active == old(self).active,
                self.overlays == old(self).overlays,
                self.height_thresholds == old(self).height_thresholds,
                self.current_zoom == old(self).current_zoom,
                self.total_time_ms == old(self).total_time_ms,
            decreases keys@.len() - i,
        {
            proof {
                assert(keys@.skip(i as int)[0] == keys@[i as int]);
                assert(keys@.skip(i as int).skip(1) =~= keys@.skip(i as int + 1));
            }
            let k = keys[i];
            let in_loaded = vec_contains_key(&self.loaded, &k);
            let in_pending = vec_contains_key(pending, &k);
            if !in_loaded && !in_pending {
                proof {
                    assert(seq![k] + spec_select_all(
                        keys@.skip(i as int + 1),
                        self.loaded@.push(k),
                        pending@,
                    ) == spec_select_all(keys@.skip(i as int), self.loaded@, pending@));
                    assert(r@ + (seq![k] + spec_select_all(
                        keys@.skip(i as int + 1),
                        self.loaded@.push(k),
                        pending@,
                    )) =~= r@.push(k) + spec_select_all(
                        keys@.skip(i as int + 1),
                        self.loaded@.push(k),
                        pending@,
                    ));
                    assert(old_loaded + r@.push(k) =~= (old_loaded + r@).push(k));
                }
                self.loaded.push(k);
                r.push(k);
            }
            i = i + 1;
        }
        proof {
            assert(r@ + Seq::<TileKey>::empty() =~= r@);
            lemma_select_all_props(keys@, old_loaded, pending@);
        }
        r
    }

    /// Dispatch fresh keys in order until the budget is exhausted: each is
    /// marked loaded and returned. A key already loaded or pending is
    /// skipped without consuming budget.
    pub fn dispatch_budgeted(&mut self, keys: &Vec<TileKey>, pending: &Vec<TileKey>, budget: u32)
        -> (r: Vec<TileKey>)
        requires
            old(self).wf(),
            forall|i: int| 0 <= i < keys@.len() ==> (#[trigger] keys@[i]).wf(),
        ensures
            final(self).wf(),
            r@ == spec_select_budgeted(keys@, old(self).loaded@, pending@, budget as int),
            r@.len() <= budget,
            final(self).loaded@ == old(self).loaded@ + r@,
            forall|k: TileKey|
                #[trigger] r@.contains(k) ==> !old(self).loaded@.contains(k) && !pending@.contains(
                    k,
                ),
            forall|i: int, j: int| 0 <= i < j < r@.len() ==> r@[i] != r@[j],
            final(self).active == old(self).active,
            final(self).overlays == old(self).overlays,
            final(self).height_thresholds == old(self).height_thresholds,
            final(self).current_zoom == old(self).current_zoom,
            final(self).total_time_ms == old(self).total_time_ms,
    {
        let ghost old_loaded = self.loaded@;
        let mut r: Vec<TileKey> = Vec::new();
        let mut taken: u32 = 0;
        let mut i: usize = 0;
        proof {
            assert(keys@.skip(0) =~= keys@);
            assert(Seq::<TileKey>::empty() + spec_select_budgeted(
                keys@,
                old_loaded,
                pending@,
                budget as int,
            ) =~= spec_select_budgeted(keys@, old_loaded, pending@, budget as int));
            assert(old_loaded + Seq::<TileKey>::empty() =~= old_loaded);
        }
        while i < keys.len() && taken < budget
            invariant
                self.wf(),
                forall|k: int| 0 <= k < keys@.len() ==> (#[trigger] keys@[k]).wf(),
                0 <= i <= keys@.len(),
                taken <= budget,
                taken as int == r@.len(),
                self.loaded@ == old_loaded + r@,
                spec_select_budgeted(keys@, old_loaded, pending@, budget as int) == r@
                    + spec_select_budgeted(
                    keys@.skip(i as int),
                    self.loaded@,
                    pending@,
                    budget - taken,
                ),
                self.active == old(self).active,
                self.overlays == old(self).overlays,
                self.height_thresholds == old(self).height_thresholds,
                self.current_zoom == old(self).current_zoom,
                self.total_time_ms == old(self).total_time_ms,
            decreases keys@.len() - i,
        {
            proof {
                assert(keys@.skip(i as int)[0] == keys@[i as int]);
                assert(keys@.skip(i as int).skip(1) =~= keys@.skip(i as int + 1));
            }
            let k = keys[i];
            let in_loaded = vec_contains_key(&self.loaded, &k);
            let in_pending = vec_contains_key(pending, &k);
            if !in_loaded && !in_pending {
                proof {
                    assert(seq![k] + spec_select_budgeted(
                        keys@.skip(i as int + 1),
                        self.loaded@.push(k),
                        pending@,
                        budget - taken - 1,
                    ) == spec_select_budgeted(
                        keys@.skip(i as int),
                        self.loaded@,
                        pending@,
                        budget - taken,
                    ));
                    assert(r@ + (seq![k] + spec_select_budgeted(
                        keys@.skip(i as int + 1),
                        self.loaded@.push(k),
                        pending@,
                        budget - taken - 1,
                    )) =~= r@.push(k) + spec_select_budgeted(
                        keys@.skip(i as int + 1),
                        self.loaded@.push(k),
                        pending@,
                        budget - taken - 1,
                    ));
                    assert(old_loaded + r@.push(k) =~= (old_loaded + r@).push(k));
                }
                self.loaded.push(k);
                r.push(k);
                taken = taken + 1;
            }
            i = i + 1;
        }
        proof {
            assert(r@ + Seq::<TileKey>::empty() =~= r@);
            lemma_select_budgeted_props(keys@, old_loaded, pending@, budget as int);
        }
        r
    }

    /// One demand-scheduler invocation. The camera tile position is given at
    /// the current zoom; `pending` is a snapshot of the keys now sitting in
    /// the fetch-result queue; `frustum_keep` holds, for each candidate of
    /// the row-major window walk, whether the host's view-frustum test kept
    /// it. Overlay entries near the camera are fetched at the overlay zoom
    /// outside the budget; the surviving window candidates are dispatched in
    /// priority order up to the budget.
    pub fn process_tiles(
        &mut self,
        cam_x: u32,
        cam_y: u32,
        pending: &Vec<TileKey>,
        frustum_keep: &Vec<bool>,
    ) -> (r: DispatchPlan)
        requires
            old(self).wf(),
            cam_x as int <= spec_max_tile_index(old(self).current_zoom as int),
            cam_y as int <= spec_max_tile_index(old(self).current_zoom as int),
            frustum_keep@.len() == (2 * spec_visible_range(old(self).current_zoom as int) + 1) * (2
                * spec_visible_range(old(self).current_zoom as int) + 1),
        ensures
            final(self).wf(),
            r.overlay@ == spec_select_all(
                spec_overlay_fetch_keys(
                    old(self).overlays,
                    old(self).current_zoom as int,
                    cam_x,
                    cam_y,
                ),
                old(self).loaded@,
                pending@,
            ),
            r.regular@ == spec_select_budgeted(
                spec_scheduled_keys(
                    old(self).overlays,
                    old(self).current_zoom as int,
                    cam_x,
                    cam_y,
                    frustum_keep@,
                ),
                old(self).loaded@ + r.overlay@,
                pending@,
                spec_budget(old(self).current_zoom as int),
            ),
            final(self).loaded@ == old(self).loaded@ + r.overlay@ + r.regular@,
            r.regular@.len() <= spec_budget(old(self).current_zoom as int),
            forall|k: TileKey|
                #[trigger] r.overlay@.contains(k) ==> !old(self).loaded@.contains(k)
                    && !pending@.contains(k),
            forall|k: TileKey|
                #[trigger] r.regular@.contains(k) ==> !old(self).loaded@.contains(k)
                    && !r.overlay@.contains(k) && !pending@.contains(k),
            forall|i: int, j: int| 0 <= i < j < r.overlay@.len() ==> r.overlay@[i] != r.overlay@[j],
            forall|i: int, j: int| 0 <= i < j < r.regular@.len() ==> r.regular@[i] != r.regular@[j],
            final(self).active == old(self).active,
            final(self).overlays == old(self).overlays,
            final(self).height_thresholds == old(self).height_thresholds,
            final(self).current_zoom == old(self).current_zoom,
            final(self).total_time_ms == old(self).total_time_ms,
    {
        let cz = self.current_zoom;
        let vr = visible_range(cz);
        let near = self.overlays.entries_near(cam_x, cam_y, cz, vr);
        let oz = self.overlays.overlay_zoom;

        // Overlay-zoom fetch: unconditional, outside the budget.
        let mut overlay_keys: Vec<TileKey> = Vec::new();
        let mut i: usize = 0;
        while i < near.len()
            invariant
                self.overlays.wf(),
                oz == self.overlays.overlay_zoom,
                forall|k: int|
                    0 <= k < near@.len() ==> (#[trigger] near@[k]).0 < pow2(oz as nat)
                        && near@[k].1 < pow2(oz as nat),
                0 <= i <= near@.len(),
                overlay_keys@ == near@.take(i as int).map_values(
                    |p: (u32, u32)| TileKey { x: p.0, y: p.1, zoom: oz },
                ),
                forall|k: int| 0 <= k < overlay_keys@.len() ==> (#[trigger] overlay_keys@[k]).wf(),
            decreases near@.len() - i,
        {
            proof {
                lemma_take_push(near@, i as int);
                lemma_map_values_push(
                    near@.take(i as int),
                    near@[i as int],
                    |p: (u32, u32)| TileKey { x: p.0, y: p.1, zoom: oz },
                );
            }
            let p = near[i];
            overlay_keys.push(TileKey { x: p.0, y: p.1, zoom: oz });
            i = i + 1;
        }
        proof {
            assert(near@.take(near@.len() as int) =~= near@);
        }
        let overlay_dispatched = self.dispatch_all(&overlay_keys, pending);

        // Regular fetch: enumerate, frustum-filter, sort, budgeted dispatch.
        let cands = enumerate_candidates(&self.overlays, cam_x, cam_y, cz);
        let kept = filter_candidates(&cands, frustum_keep);
        let sorted = sort_candidates(&kept);
        proof {
            assert forall|k: int| 0 <= k < sorted@.len() implies (#[trigger] sorted@[k]).x as int
                <= spec_max_tile_index(cz as int) && sorted@[k].y as int <= spec_max_tile_index(
                cz as int,
            ) by {
                assert(kept@.contains(sorted@[k]));
                let m = choose|m: int| 0 <= m < kept@.len() && kept@[m] == sorted@[k];
                assert(cands@.contains(kept@[m]));
                let m2 = choose|m2: int| 0 <= m2 < cands@.len() && cands@[m2] == kept@[m];
            }
            assert forall|k: int| 0 <= k < kept@.len() implies (#[trigger] kept@[k]).adjusted
                < ADJUSTED_DISTANCE_BOUND by {
                assert(cands@.contains(kept@[k]));
                let m2 = choose|m2: int| 0 <= m2 < cands@.len() && cands@[m2] == kept@[k];
            }
        }
        let keys = candidate_keys(&sorted, cz);
        let budget = max_concurrent_loads(cz);
        let regular_dispatched = self.dispatch_budgeted(&keys, pending, budget);
        proof {
            assert forall|k: TileKey| #[trigger] regular_dispatched@.contains(k) implies !old(
                self,
            ).loaded@.contains(k) && !overlay_dispatched@.contains(k) && !pending@.contains(k) by {
                lemma_add_contains(old(self).loaded@, overlay_dispatched@, k);
            }
        }
        DispatchPlan { overlay: overlay_dispatched, regular: regular_dispatched }
    }
}

} // verus!
