//! Coordinate pyramid: tile addresses and reprojection between zoom levels.
//!
//! A tile address is `(x, y, zoom)`; level `zoom` is a `2^zoom x 2^zoom`
//! grid. Reprojecting to a coarser level shifts coordinates right (many
//! fine tiles map to one coarse tile); reprojecting to a finer level
//! enumerates the whole block of fine tiles that the one coarse tile covers.

use vstd::prelude::*;

verus! {

use vstd::arithmetic::power2::{
    pow2, lemma_pow2_adds, lemma_pow2_strictly_increases, lemma2_to64, lemma_pow2_pos,
};
use vstd::arithmetic::div_mod::{
    lemma_fundamental_div_mod, lemma_mod_division_less_than_divisor, lemma_multiply_divide_lt,
    lemma_div_pos_is_pos,
};
use vstd::arithmetic::mul::lemma_mul_inequality;

/// Coarsest pyramid level the viewer may select.
pub const MIN_ZOOM_LEVEL: i32 = 0;
/// Finest pyramid level the viewer may select.
pub const MAX_ZOOM_LEVEL: i32 = 19;

/// Address of one tile: column, row, and pyramid level.
#[derive(Clone, Copy, PartialEq, Eq, Structural, Debug)]
pub struct TileKey {
    pub x: u32,
    pub y: u32,
    pub zoom: i32,
}

impl TileKey {
    /// A key is well formed when its level is in range and both coordinates
    /// lie on that level's grid.
    pub open spec fn wf(self) -> bool {
        &&& MIN_ZOOM_LEVEL <= self.zoom <= MAX_ZOOM_LEVEL
        &&& (self.x as nat) < pow2(self.zoom as nat)
        &&& (self.y as nat) < pow2(self.zoom as nat)
    }
}

/// Largest valid coordinate on a level: `2^zoom - 1`.
pub open spec fn spec_max_tile_index(zoom: int) -> int {
    pow2(zoom as nat) - 1
}

/// One coordinate reprojected to a coarser level `d` steps up.
pub open spec fn spec_coarse_coord(c: u32, d: nat) -> int {
    c as int / pow2(d) as int
}

/// A key reprojected to a coarser (or equal) level.
pub open spec fn spec_coarser(key: TileKey, target: int) -> TileKey {
    TileKey {
        x: spec_coarse_coord(key.x, (key.zoom - target) as nat) as u32,
        y: spec_coarse_coord(key.y, (key.zoom - target) as nat) as u32,
        zoom: target as i32,
    }
}

/// The square block of finer tiles that one coarse tile covers.
#[derive(Clone, Copy, PartialEq, Eq, Structural, Debug)]
pub struct TileBlock {
    pub start_x: u32,
    pub start_y: u32,
    pub side: u32,
    pub zoom: i32,
}

/// A key reprojected to a finer (or equal) level: the covered block.
pub open spec fn spec_finer_block(key: TileKey, target: int) -> TileBlock {
    TileBlock {
        start_x: (key.x as int * pow2((target - key.zoom) as nat) as int) as u32,
        start_y: (key.y as int * pow2((target - key.zoom) as nat) as int) as u32,
        side: pow2((target - key.zoom) as nat) as u32,
        zoom: target as i32,
    }
}

impl TileBlock {
    /// Membership of a key in the block (the key must sit on the block's level).
    pub open spec fn spec_contains(self, key: TileKey) -> bool {
        &&& key.zoom == self.zoom
        &&& self.start_x <= key.x < self.start_x + self.side
        &&& self.start_y <= key.y < self.start_y + self.side
    }

    /// Executable membership test.
    pub fn contains(&self, key: &TileKey) -> (r: bool)
        requires
            self.start_x + self.side <= u32::MAX,
            self.start_y + self.side <= u32::MAX,
        ensures
            r == self.spec_contains(*key),
    {
        key.zoom == self.zoom && self.start_x <= key.x && key.x < self.start_x + self.side
            && self.start_y <= key.y && key.y < self.start_y + self.side
    }
}

/// `2^e` as a `u32`.
pub fn pow2_u32(e: u32) -> (r: u32)
    requires
        e <= 31,
    ensures
        r as nat == pow2(e as nat),
        r >= 1,
{
    let mut r: u32 = 1;
    let mut i: u32 = 0;
    proof {
        lemma2_to64();
    }
    while i < e
        invariant
            i <= e <= 31,
            r as nat == pow2(i as nat),
        decreases e - i,
    {
        proof {
            lemma_pow2_adds(i as nat, 1);
            lemma2_to64();
            if (i as nat) < 30 {
                lemma_pow2_strictly_increases(i as nat, 30);
            }
        }
        r = r * 2;
        i = i + 1;
    }
    proof {
        lemma_pow2_pos(e as nat);
    }
    r
}

/// Largest valid coordinate on a level: `2^zoom - 1`.
pub fn max_tile_index(zoom: i32) -> (r: u32)
    requires
        MIN_ZOOM_LEVEL <= zoom <= MAX_ZOOM_LEVEL,
    ensures
        r as int == spec_max_tile_index(zoom as int),
        r < u32::MAX,
{
    proof {
        lemma2_to64();
        if (zoom as nat) < 31 {
            lemma_pow2_strictly_increases(zoom as nat, 31);
        }
    }
    pow2_u32(zoom as u32) - 1
}

/// Reproject a key to a coarser (or equal) level. Many fine tiles map to
/// one coarse tile; precision is lost by design.
pub fn reproject_coarser(key: &TileKey, target: i32) -> (r: TileKey)
    requires
        key.wf(),
        MIN_ZOOM_LEVEL <= target <= key.zoom,
    ensures
        r == spec_coarser(*key, target as int),
        r.wf(),
    {
    let d: u32 = (key.zoom - target) as u32;
    let p: u32 = pow2_u32(d);
    let rx: u32 = key.x / p;
    let ry: u32 = key.y / p;
    proof {
        lemma_coarse_coord_in_range(key.x, d as nat, key.zoom as nat, target as nat);
        lemma_coarse_coord_in_range(key.y, d as nat, key.zoom as nat, target as nat);
    }
    TileKey { x: rx, y: ry, zoom: target }
}

/// A coordinate below `2^z`, shifted down by `d = z - t` steps, lands below `2^t`.
proof fn lemma_coarse_coord_in_range(c: u32, d: nat, z: nat, t: nat)
    requires
        t + d == z,
        (c as nat) < pow2(z),
    ensures
        0 <= spec_coarse_coord(c, d) < pow2(t),
{
    lemma_pow2_pos(d);
    lemma_pow2_pos(t);
    lemma_pow2_adds(d, t);
    lemma_div_pos_is_pos(c as int, pow2(d) as int);
    lemma_multiply_divide_lt(c as int, pow2(d) as int, pow2(t) as int);
}

/// Reproject a key to a finer (or equal) level: one coarse tile covers a
/// `2^d x 2^d` block of finer tiles, `d` being the level difference.
pub fn reproject_finer(key: &TileKey, target: i32) -> (r: TileBlock)
    requires
        key.wf(),
        key.zoom <= target <= MAX_ZOOM_LEVEL,
    ensures
        r == spec_finer_block(*key, target as int),
        r.start_x + r.side <= pow2(target as nat),
        r.start_y + r.side <= pow2(target as nat),
        r.side >= 1,
    {
    let d: u32 = (target - key.zoom) as u32;
    let p: u32 = pow2_u32(d);
    proof {
        lemma_fine_start_in_range(key.x, d as nat, key.zoom as nat, target as nat);
        lemma_fine_start_in_range(key.y, d as nat, key.zoom as nat, target as nat);
        lemma2_to64();
        if (target as nat) < 31 {
            lemma_pow2_strictly_increases(target as nat, 31);
        }
    }
    let sx: u32 = key.x * p;
    let sy: u32 = key.y * p;
    TileBlock { start_x: sx, start_y: sy, side: p, zoom: target }
}

/// A coordinate below `2^z`, shifted up by `d = t - z` steps, starts a block
/// that ends no later than `2^t`.
proof fn lemma_fine_start_in_range(c: u32, d: nat, z: nat, t: nat)
    requires
        z + d == t,
        (c as nat) < pow2(z),
    ensures
        0 <= c as int * pow2(d) as int,
        c as int * pow2(d) as int + pow2(d) as int <= pow2(t) as int,
{
    lemma_pow2_pos(d);
    lemma_pow2_pos(z);
    lemma_pow2_adds(z, d);
    lemma_mul_inequality(c as int + 1, pow2(z) as int, pow2(d) as int);
    vstd::arithmetic::mul::lemma_mul_is_distributive_add_other_way(
        pow2(d) as int, c as int, 1int);
    vstd::arithmetic::mul::lemma_mul_is_commutative(c as int, pow2(d) as int);
    vstd::arithmetic::mul::lemma_mul_nonnegative(c as int, pow2(d) as int);
}

/// Round-trip law: reprojecting a key to a coarser level and then
/// enumerating that coarse tile's block back at the original level yields a
/// block that contains the original key.
pub proof fn lemma_reproject_round_trip(key: TileKey, target: int)
    requires
        key.wf(),
        MIN_ZOOM_LEVEL <= target <= key.zoom,
    ensures
        spec_finer_block(spec_coarser(key, target), key.zoom as int).spec_contains(key),
{
    let d = (key.zoom - target) as nat;
    let p = pow2(d) as int;
    lemma_pow2_pos(d);
    lemma2_to64();
    if d < 31 {
        lemma_pow2_strictly_increases(d, 31);
    }
    lemma_coarse_coord_in_range(key.x, d, key.zoom as nat, target as nat);
    lemma_coarse_coord_in_range(key.y, d, key.zoom as nat, target as nat);
    lemma_round_trip_coord(key.x, d);
    lemma_round_trip_coord(key.y, d);
    let c = spec_coarser(key, target);
    lemma_fine_start_in_range(c.x, d, target as nat, key.zoom as nat);
}

/// `(c / 2^d) * 2^d <= c < (c / 2^d) * 2^d + 2^d`.
proof fn lemma_round_trip_coord(c: u32, d: nat)
    ensures
        spec_coarse_coord(c, d) * pow2(d) <= c as int,
        (c as int) < spec_coarse_coord(c, d) * pow2(d) + pow2(d),
{
    let p = pow2(d) as int;
    lemma_pow2_pos(d);
    lemma_fundamental_div_mod(c as int, p);
    lemma_mod_division_less_than_divisor(c as int, p);
    vstd::arithmetic::mul::lemma_mul_is_commutative(spec_coarse_coord(c, d), p);
}

} // verus!
