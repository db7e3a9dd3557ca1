//! One simulation step of dynamic terrain: cellular automaton cells that eat,
//! freeze, burn, soak and move the terrain around them.
//!
//! Chance and colour decisions work on floating point numbers, so the caller
//! supplies them through [`DynterEnv`]; every guarantee here holds whatever
//! those decisions are.

use crate::dynter::DynamicTerrainCell;
use crate::level::{LevelTerrain, PixelBlend, law_replaced_keeps_water, other_pixel, replaced_terrain};
use crate::terrain::{
    Terrain, TER_BIT_DYNAMIC, TER_MASK_SOLID, TER_TYPE_BASE, TER_TYPE_NOREGENBASE, TER_TYPE_BURNABLE, TER_TYPE_CINDER, TER_TYPE_DAMAGE, TER_TYPE_GREYGOO, TER_TYPE_GROUND,
    TER_TYPE_HIGH_EXPLOSIVE, TER_TYPE_ICE, water_bit, is_burnable, is_cinder, is_damaging,
    is_destructible, is_dynamic, is_effective_base, is_greygoo, is_high_explosive, is_ice, is_solid,
    is_space, is_water, is_indestructible_solid, solid_type, destructible_bit, dynamic_bit,
};
use crate::tile::TILE_SIZE;
use std::collections::HashMap;
use vstd::arithmetic::div_mod::lemma_fundamental_div_mod_converse;
use vstd::prelude::*;

verus! {

broadcast use vstd::std_specs::hash::group_hash_axioms;

/// Live dynamic terrain cells, keyed by their level pixel position (see [`cell_key`])
pub type DynamicTerrainMap = HashMap<u64, DynamicTerrainCell>;

/// Number of frames a grain of sand keeps falling before it settles
pub const SAND_SOLIDIFY_FRAMES: i32 = 600;

/// The artwork colour of toxic sludge
pub const TOXIN_COLOR: u32 = 0x60ff_2b80;

/// The artwork colour of nitro soaked ground
pub const NITRO_COLOR: u32 = 0xffff_0000;

/// The map key of level pixel (x, y)
pub open spec fn spec_cell_key(x: int, y: int) -> int {
    (x + 0x8000_0000) * 0x1_0000_0000 + (y + 0x8000_0000)
}

/// The map key of level pixel (x, y)
pub fn cell_key(x: i32, y: i32) -> (k: u64)
    ensures
        k == spec_cell_key(x as int, y as int),
{
    let a = (x as i64 + 0x8000_0000) as u64;
    let b = (y as i64 + 0x8000_0000) as u64;
    a * 0x1_0000_0000 + b
}

/// The level pixel a map key stands for
pub fn cell_pos(k: u64) -> (p: (i32, i32))
    ensures
        spec_cell_key(p.0 as int, p.1 as int) == k,
{
    let a = k / 0x1_0000_0000;
    let b = k % 0x1_0000_0000;
    ((a as i64 - 0x8000_0000) as i32, (b as i64 - 0x8000_0000) as i32)
}

/// Every key stands for exactly one pixel
pub proof fn law_cell_key_unique(x1: i32, y1: i32, x2: i32, y2: i32)
    ensures
        (spec_cell_key(x1 as int, y1 as int) == spec_cell_key(x2 as int, y2 as int)) <==> (x1 == x2 && y1 == y2),
{
}

/// The level pixel that map key k stands for
pub open spec fn spec_cell_pos(k: int) -> (int, int) {
    (k / 0x1_0000_0000 - 0x8000_0000, k % 0x1_0000_0000 - 0x8000_0000)
}

/// A key gives back the pixel it was made from
proof fn lemma_cell_pos(x: int, y: int)
    requires
        i32::MIN <= x <= i32::MAX,
        i32::MIN <= y <= i32::MAX,
    ensures
        spec_cell_pos(spec_cell_key(x, y)) == (x, y),
{
    lemma_fundamental_div_mod_converse(spec_cell_key(x, y), 0x1_0000_0000, x + 0x8000_0000, y + 0x8000_0000);
}

/// A step to a Von Neumann neighbour
pub open spec fn von_neumann_step(dx: int, dy: int) -> bool {
    (dx == 0 && (dy == -1 || dy == 1)) || (dy == 0 && (dx == -1 || dx == 1))
}

/// A step to one of the eight Moore neighbours
pub open spec fn moore_step(dx: int, dy: int) -> bool {
    -1 <= dx <= 1 && -1 <= dy <= 1 && !(dx == 0 && dy == 0)
}

/// A step to a roundish neighbour: a Von Neumann neighbour or a knight's move away
pub open spec fn roundish_step(dx: int, dy: int) -> bool {
    ||| von_neumann_step(dx, dy)
    ||| (dx == 1 || dx == -1) && (dy == 2 || dy == -2)
    ||| (dx == 2 || dx == -2) && (dy == 1 || dy == -1)
}

/// A step a falling grain of sand takes: one row down, at most two pixels aside
pub open spec fn sand_step(dx: int, dy: int) -> bool {
    dy == 1 && -2 <= dx <= 2
}

/// Can cell `c2` at pixel q be put there in one simulation step by cell `c` at
/// pixel p? (Which of the possible cells appear also depends on the terrain
/// around p and on chance.)
pub open spec fn spawns(c: DynamicTerrainCell, p: (int, int), c2: DynamicTerrainCell, q: (int, int)) -> bool {
    let dx = q.0 - p.0;
    let dy = q.1 - p.1;
    match c {
        DynamicTerrainCell::Foam { limit } => limit > 0 && roundish_step(dx, dy) && c2
            == DynamicTerrainCell::Foam { limit: (limit - 1) as i32 },
        DynamicTerrainCell::GreyGoo { counter, limit } => if counter > 0 {
            q == p && c2 == DynamicTerrainCell::GreyGoo { counter: (counter - 1) as i32, limit }
        } else {
            limit > 0 && von_neumann_step(dx, dy) && (c2 matches DynamicTerrainCell::GreyGoo { counter: c, limit: l }
                && 20 <= c < 40 && l == limit - 1)
        },
        DynamicTerrainCell::Nitro { counter, limit } => if counter > 0 {
            q == p && c2 == DynamicTerrainCell::Nitro { counter: (counter - 1) as i32, limit }
        } else {
            limit > 0 && roundish_step(dx, dy) && (c2 matches DynamicTerrainCell::Nitro { counter: c, limit: l } && 1
                <= c < 6 && l == limit - 1)
        },
        DynamicTerrainCell::Fire { counter, cinder } => {
            ||| counter > 0 && q == p && c2 == DynamicTerrainCell::Fire { counter: (counter - 1) as i32, cinder }
            ||| counter == 30 && roundish_step(dx, dy) && (c2 matches DynamicTerrainCell::Fire { counter: c, .. } && 31
                <= c < 60)
        },
        DynamicTerrainCell::Freezer { limit } => limit > 0 && roundish_step(dx, dy) && (c2
            == DynamicTerrainCell::Freezer { limit: (limit - 1) as i32 } || c2 == DynamicTerrainCell::Freezer {
            limit: (limit - 3) as i32,
        }),
        DynamicTerrainCell::Toxin { limit } => limit > 0 && von_neumann_step(dx, dy) && c2
            == DynamicTerrainCell::Toxin { limit: (limit - 1) as i32 },
        DynamicTerrainCell::LooseningSand => {
            ||| q == p && (c2 matches DynamicTerrainCell::Sand { solidify, .. } && solidify == SAND_SOLIDIFY_FRAMES)
            ||| moore_step(dx, dy) && c2 == DynamicTerrainCell::LooseningSand
        },
        DynamicTerrainCell::Sand { terrain, solidify, color } => solidify > 0 && {
            ||| sand_step(dx, dy) && c2 == DynamicTerrainCell::Sand { terrain, solidify, color }
            ||| q == p && c2 == DynamicTerrainCell::Sand { terrain, solidify: (solidify - 1) as i32, color }
        },
    }
}

/// Every cell of `next` was put there by some cell of `cells` in one step
pub open spec fn next_cells_ok(cells: Map<u64, DynamicTerrainCell>, next: Map<u64, DynamicTerrainCell>) -> bool {
    forall|k: u64|
        #[trigger] next.contains_key(k) ==> exists|k0: u64|
            #[trigger] cells.contains_key(k0) && spawns(cells[k0], spec_cell_pos(k0 as int), next[k], spec_cell_pos(k as int))
}

/// Every cell of `post` is the same cell of `pre`, or was put there by cell c at pixel p
spec fn spawned_into(
    pre: Map<u64, DynamicTerrainCell>,
    post: Map<u64, DynamicTerrainCell>,
    c: DynamicTerrainCell,
    p: (int, int),
) -> bool {
    forall|k: u64|
        #[trigger] post.contains_key(k) ==> (pre.contains_key(k) && post[k] == pre[k]) || spawns(c, p, post[k], spec_cell_pos(k as int))
}

/// A sand grain holds a solid type, possibly with the dynamic bit, and nothing else
pub open spec fn cell_wf(c: DynamicTerrainCell) -> bool {
    match c {
        DynamicTerrainCell::Sand { terrain, .. } => terrain & !(TER_MASK_SOLID | TER_BIT_DYNAMIC) == 0,
        _ => true,
    }
}

/// Every cell of the map is well formed
pub open spec fn cells_wf(m: Map<u64, DynamicTerrainCell>) -> bool {
    forall|k: u64| #[trigger] m.contains_key(k) ==> cell_wf(m[k])
}

/// The chance and colour decisions of the simulation
pub trait DynterEnv {
    /// Does a spreading cell with the given remaining limit reach a neighbour?
    fn spread_chance(&mut self, limit: i32) -> bool;

    /// Does spreading frost grow an icicle below its cell?
    fn icicle_chance(&mut self) -> bool;

    /// Colour of hardened foam with the given remaining limit
    fn foam_color(&mut self, limit: i32) -> u32;

    /// Colour of grey goo with the given counter
    fn goo_color(&mut self, counter: i32) -> u32;

    /// Colour of fire with the given counter
    fn fire_color(&mut self, counter: i32) -> u32;

    /// Colour of burnt out cinder
    fn cinder_color(&mut self) -> u32;
}

/// A random number in lo..hi, from `fastrand::i32`
#[verifier::external_body]
fn random_i32(lo: i32, hi: i32) -> (r: i32)
    requires
        lo < hi,
    ensures
        lo <= r < hi,
{
    fastrand::i32(lo..hi)
}

/// The edits made so far keep the level's shape and content hints, never change
/// whether a pixel is underwater, and every changed pixel lies in a tile of `dirty`
pub open spec fn edits_tracked(level: LevelTerrain, pre: LevelTerrain, dirty: Seq<(i32, i32)>) -> bool {
    &&& level.wf()
    &&& level.spec_tiles_wide() == pre.spec_tiles_wide()
    &&& level.spec_tiles_high() == pre.spec_tiles_high()
    &&& forall|i: int, j: int|
        0 <= i < pre.spec_tiles_wide() && 0 <= j < pre.spec_tiles_high() ==> (#[trigger] level.spec_tile(i, j)).content_hint
            == pre.spec_tile(i, j).content_hint
    &&& forall|x: int, y: int|
        #![trigger level.spec_terrain(x, y)]
        pre.in_bounds(x, y) ==> water_bit(level.spec_terrain(x, y)) == water_bit(pre.spec_terrain(x, y))
    &&& forall|x: int, y: int|
        #![trigger level.spec_terrain(x, y)]
        #![trigger level.spec_artwork(x, y)]
        pre.in_bounds(x, y) && (level.spec_terrain(x, y) != pre.spec_terrain(x, y) || level.spec_artwork(x, y)
            != pre.spec_artwork(x, y)) ==> dirty.contains(((x / TILE_SIZE as int) as i32, (y / TILE_SIZE as int) as i32))
}

/// Can a cell at pixel p change level pixel q in one step? Its own pixel, an
/// icicle up to three pixels below it, or the pixel its sand grain falls to.
pub open spec fn edit_reach(p: (int, int), q: (int, int)) -> bool {
    let dx = q.0 - p.0;
    let dy = q.1 - p.1;
    (dx == 0 && 0 <= dy <= 3) || sand_step(dx, dy)
}

/// Every pixel of `level` that differs from `pre` is within reach of a cell of `cells`
pub open spec fn edits_near(level: LevelTerrain, pre: LevelTerrain, cells: Map<u64, DynamicTerrainCell>) -> bool {
    forall|x: int, y: int|
        #![trigger level.spec_terrain(x, y)]
        #![trigger level.spec_artwork(x, y)]
        pre.in_bounds(x, y) && (level.spec_terrain(x, y) != pre.spec_terrain(x, y) || level.spec_artwork(x, y)
            != pre.spec_artwork(x, y)) ==> exists|k0: u64|
            #[trigger] cells.contains_key(k0) && edit_reach(spec_cell_pos(k0 as int), (x, y))
}

/// Does v fit in an i32?
pub open spec fn fits_i32(v: int) -> bool {
    i32::MIN <= v <= i32::MAX
}

/// The terrain at offset (dx, dy) from pixel p
pub open spec fn nb_terrain(level: LevelTerrain, p: (int, int), dx: int, dy: int) -> Terrain {
    level.spec_terrain_at(p.0 + dx, p.1 + dy)
}

/// Is one of the Moore neighbours (with coordinates that
/// fit in i32) solid terrain other than ice?
pub open spec fn spec_next_to_non_ice_solid(level: LevelTerrain, p: (int, int)) -> bool {
    exists|dx: int, dy: int|
        moore_step(dx, dy) && fits_i32(p.0 + dx) && fits_i32(p.1 + dy) && solid_type(#[trigger] nb_terrain(level, p, dx, dy))
            != 0 && solid_type(nb_terrain(level, p, dx, dy)) != TER_TYPE_ICE
}

/// Is one of the roundish neighbours (with coordinates that fit in i32) open space?
pub open spec fn spec_next_to_space(level: LevelTerrain, p: (int, int)) -> bool {
    exists|dx: int, dy: int|
        roundish_step(dx, dy) && fits_i32(p.0 + dx) && fits_i32(p.1 + dy) && !water_bit(#[trigger] nb_terrain(level, p, dx, dy))
            && solid_type(nb_terrain(level, p, dx, dy)) == 0
}

/// The offsets a falling grain of sand tries, in order
pub open spec fn flow_offset(i: int) -> (i32, i32) {
    if i == 0 {
        (0, 1)
    } else if i == 1 {
        (-1i32, 1i32)
    } else if i == 2 {
        (1, 1)
    } else if i == 3 {
        (-2i32, 1i32)
    } else {
        (2, 1)
    }
}

/// `post` is `pre` with the terrain of pixel (x, y) replaced by `solid` (see
/// [`replaced_terrain`]); every other pixel, the shape and the content hints
/// are unchanged (outside the level nothing changes)
pub open spec fn pixel_replaced(pre: LevelTerrain, post: LevelTerrain, x: int, y: int, solid: Terrain) -> bool {
    &&& post.wf()
    &&& post.spec_tiles_wide() == pre.spec_tiles_wide()
    &&& post.spec_tiles_high() == pre.spec_tiles_high()
    &&& forall|i: int, j: int|
        0 <= i < pre.spec_tiles_wide() && 0 <= j < pre.spec_tiles_high() ==> (#[trigger] post.spec_tile(i, j)).content_hint
            == pre.spec_tile(i, j).content_hint
    &&& forall|x2: int, y2: int|
        #![trigger post.spec_terrain(x2, y2)]
        #![trigger post.spec_artwork(x2, y2)]
        pre.in_bounds(x2, y2) && other_pixel(x, y, x2, y2) ==> post.spec_terrain(x2, y2) == pre.spec_terrain(x2, y2)
            && post.spec_artwork(x2, y2) == pre.spec_artwork(x2, y2)
    &&& pre.in_bounds(x, y) ==> post.spec_terrain(x, y) == replaced_terrain(pre.spec_terrain(x, y), solid)
}

/// The artwork of pixel (x, y) after replacing it with `solid` drawn in `color`,
/// where it does not depend on blending: an emptied pixel shows the colour (the
/// water colour underwater), a dry solid pixel in an opaque colour shows the colour
pub open spec fn artwork_replaced(
    pre: LevelTerrain,
    post: LevelTerrain,
    x: int,
    y: int,
    solid: Terrain,
    color: u32,
    water_color: u32,
) -> bool {
    pre.in_bounds(x, y) ==> {
        let t = pre.spec_terrain(x, y);
        &&& solid == 0 ==> post.spec_artwork(x, y) == if water_bit(t) {
            water_color
        } else {
            color
        }
        &&& (solid != 0 && !water_bit(t) && color & 0xff00_0000 == 0xff00_0000) ==> post.spec_artwork(x, y) == color
    }
}

/// Replace a pixel and note its tile as dirty
fn replace_tracked<B: PixelBlend>(
    level: &mut LevelTerrain,
    x: i32,
    y: i32,
    solid: Terrain,
    color: u32,
    water_color: u32,
    blender: &B,
    dirty: &mut Vec<(i32, i32)>,
    Ghost(pre): Ghost<LevelTerrain>,
    Ghost(cells): Ghost<Map<u64, DynamicTerrainCell>>,
    Ghost(key): Ghost<u64>,
)
    requires
        edits_tracked(*old(level), pre, old(dirty)@),
        edits_near(*old(level), pre, cells),
        cells.contains_key(key),
        edit_reach(spec_cell_pos(key as int), (x as int, y as int)),
        solid & !(TER_MASK_SOLID | TER_BIT_DYNAMIC) == 0,
    ensures
        edits_tracked(*final(level), pre, final(dirty)@),
        edits_near(*final(level), pre, cells),
        pixel_replaced(*old(level), *final(level), x as int, y as int, solid),
        artwork_replaced(*old(level), *final(level), x as int, y as int, solid, color, water_color),
        final(dirty)@ == if old(level).in_bounds(x as int, y as int) {
            old(dirty)@.push(((x / TILE_SIZE) as i32, (y / TILE_SIZE) as i32))
        } else {
            old(dirty)@
        },
{
    let ghost before = *level;
    let ghost dbefore = dirty@;
    let r = level.replace_point_lc(x, y, solid, color, water_color, blender);
    match r {
        Some(t) => dirty.push(t),
        None => {},
    }
    proof {
        assert forall|d: (i32, i32)| dbefore.contains(d) implies dirty@.contains(d) by {
            let w = choose|w: int| 0 <= w < dbefore.len() && dbefore[w] == d;
            assert(dirty@[w] == d);
        }
        if before.in_bounds(x as int, y as int) {
            law_replaced_keeps_water(before.spec_terrain(x as int, y as int), solid);
            assert(dirty@[dirty@.len() - 1] == ((x / TILE_SIZE) as i32, (y / TILE_SIZE) as i32));
        }
        assert forall|x2: int, y2: int| pre.in_bounds(x2, y2) implies water_bit(#[trigger] level.spec_terrain(x2, y2))
            == water_bit(pre.spec_terrain(x2, y2)) by {
            if !other_pixel(x as int, y as int, x2, y2) {
                law_replaced_keeps_water(before.spec_terrain(x as int, y as int), solid);
            }
        }
        assert forall|x2: int, y2: int|
            pre.in_bounds(x2, y2) && (#[trigger] level.spec_terrain(x2, y2) != pre.spec_terrain(x2, y2)
                || level.spec_artwork(x2, y2) != pre.spec_artwork(x2, y2)) implies dirty@.contains(
            ((x2 / TILE_SIZE as int) as i32, (y2 / TILE_SIZE as int) as i32),
        ) by {
            if !other_pixel(x as int, y as int, x2, y2) {
                assert(dirty@[dirty@.len() - 1] == ((x2 / TILE_SIZE as int) as i32, (y2 / TILE_SIZE as int) as i32));
            } else {
                assert(level.spec_terrain(x2, y2) == before.spec_terrain(x2, y2));
                assert(level.spec_artwork(x2, y2) == before.spec_artwork(x2, y2));
            }
        }
        assert forall|x2: int, y2: int|
            pre.in_bounds(x2, y2) && (level.spec_terrain(x2, y2) != pre.spec_terrain(x2, y2)
                || #[trigger] level.spec_artwork(x2, y2) != pre.spec_artwork(x2, y2)) implies dirty@.contains(
            ((x2 / TILE_SIZE as int) as i32, (y2 / TILE_SIZE as int) as i32),
        ) by {
            if !other_pixel(x as int, y as int, x2, y2) {
                assert(dirty@[dirty@.len() - 1] == ((x2 / TILE_SIZE as int) as i32, (y2 / TILE_SIZE as int) as i32));
            } else {
                assert(level.spec_terrain(x2, y2) == before.spec_terrain(x2, y2));
                assert(level.spec_artwork(x2, y2) == before.spec_artwork(x2, y2));
            }
        }
        assert forall|x2: int, y2: int|
            pre.in_bounds(x2, y2) && (#[trigger] level.spec_terrain(x2, y2) != pre.spec_terrain(x2, y2)
                || level.spec_artwork(x2, y2) != pre.spec_artwork(x2, y2)) implies exists|k0: u64|
            #[trigger] cells.contains_key(k0) && edit_reach(spec_cell_pos(k0 as int), (x2, y2)) by {
            if !other_pixel(x as int, y as int, x2, y2) {
                assert(cells.contains_key(key) && edit_reach(spec_cell_pos(key as int), (x2, y2)));
            } else {
                assert(level.spec_terrain(x2, y2) == before.spec_terrain(x2, y2));
                assert(level.spec_artwork(x2, y2) == before.spec_artwork(x2, y2));
            }
        }
        assert forall|x2: int, y2: int|
            pre.in_bounds(x2, y2) && (level.spec_terrain(x2, y2) != pre.spec_terrain(x2, y2)
                || #[trigger] level.spec_artwork(x2, y2) != pre.spec_artwork(x2, y2)) implies exists|k0: u64|
            #[trigger] cells.contains_key(k0) && edit_reach(spec_cell_pos(k0 as int), (x2, y2)) by {
            if !other_pixel(x as int, y as int, x2, y2) {
                assert(cells.contains_key(key) && edit_reach(spec_cell_pos(key as int), (x2, y2)));
            } else {
                assert(level.spec_terrain(x2, y2) == before.spec_terrain(x2, y2));
                assert(level.spec_artwork(x2, y2) == before.spec_artwork(x2, y2));
            }
        }
    }
}

/// Add or replace a cell
fn insert_cell(m: &mut DynamicTerrainMap, k: u64, c: DynamicTerrainCell)
    requires
        cells_wf(old(m)@),
        cell_wf(c),
    ensures
        cells_wf(final(m)@),
        final(m)@ == old(m)@.insert(k, c),
{
    m.insert(k, c);
    proof {
        assert forall|k2: u64| #[trigger] m@.contains_key(k2) implies cell_wf(m@[k2]) by {
            if k2 != k {
                assert(old(m)@.contains_key(k2));
            }
        }
    }
}

/// The map key of pixel q
pub open spec fn key_of(q: (int, int)) -> u64 {
    spec_cell_key(q.0, q.1) as u64
}

/// The terrain of `level` at pixel q
pub open spec fn ter_of(level: LevelTerrain, q: (int, int)) -> Terrain {
    level.spec_terrain_at(q.0, q.1)
}

/// The pixel at offset d from pixel p
pub open spec fn offset(p: (int, int), d: (i32, i32)) -> (int, int) {
    (p.0 + d.0, p.1 + d.1)
}

/// Does pixel q have coordinates that fit in i32?
pub open spec fn fits_pos(q: (int, int)) -> bool {
    fits_i32(q.0) && fits_i32(q.1)
}

/// Every cell of `pre` is still in `post`, unchanged
pub open spec fn cells_kept(pre: Map<u64, DynamicTerrainCell>, post: Map<u64, DynamicTerrainCell>) -> bool {
    forall|k: u64| #[trigger] pre.contains_key(k) ==> post.contains_key(k) && post[k] == pre[k]
}

/// Every key of `pre` is still a key of `post`
pub open spec fn dom_grows(pre: Map<u64, DynamicTerrainCell>, post: Map<u64, DynamicTerrainCell>) -> bool {
    forall|k: u64| #[trigger] pre.contains_key(k) ==> post.contains_key(k)
}

/// Every cell of `post` that is not the same cell of `pre` lies at a pixel where `ok` holds
pub open spec fn changed_where(
    pre: Map<u64, DynamicTerrainCell>,
    post: Map<u64, DynamicTerrainCell>,
    ok: spec_fn((int, int)) -> bool,
) -> bool {
    forall|k: u64|
        #[trigger] post.contains_key(k) && !(pre.contains_key(k) && post[k] == pre[k]) ==> ok(spec_cell_pos(k as int))
}

/// Can grey goo eat its way into terrain t?
pub open spec fn goo_edible(t: Terrain) -> bool {
    destructible_bit(t) && solid_type(t) != TER_TYPE_GREYGOO
}

/// Does `m` hold at pixel q a grey goo cell that a goo cell with the given limit
/// spreads?
pub open spec fn goo_spawned_at(m: Map<u64, DynamicTerrainCell>, q: (int, int), limit: int) -> bool {
    &&& m.contains_key(key_of(q))
    &&& m[key_of(q)] matches DynamicTerrainCell::GreyGoo { counter: c, limit: l } && 20 <= c < 40 && l == limit - 1
}

/// Can nitro soak into terrain t?
pub open spec fn nitro_soakable(t: Terrain) -> bool {
    destructible_bit(t) && solid_type(t) != TER_TYPE_HIGH_EXPLOSIVE
}

/// Does `m` hold at pixel q a nitro cell that a nitro cell with the given limit
/// spreads?
pub open spec fn nitro_spawned_at(m: Map<u64, DynamicTerrainCell>, q: (int, int), limit: int) -> bool {
    &&& m.contains_key(key_of(q))
    &&& m[key_of(q)] matches DynamicTerrainCell::Nitro { counter: c, limit: l } && 1 <= c < 6 && l == limit - 1
}

/// Does terrain t burn?
pub open spec fn fire_fuel(t: Terrain) -> bool {
    solid_type(t) == TER_TYPE_BURNABLE || solid_type(t) == TER_TYPE_CINDER
}

/// Does `m` hold at pixel q a fire cell that spreading fire lights in terrain t?
pub open spec fn fire_spawned_at(m: Map<u64, DynamicTerrainCell>, q: (int, int), t: Terrain) -> bool {
    &&& m.contains_key(key_of(q))
    &&& m[key_of(q)] matches DynamicTerrainCell::Fire { counter: c, cinder: cd } && 31 <= c < 60 && cd == (solid_type(t)
        == TER_TYPE_CINDER)
}

/// Does toxic sludge creep into pixel q: destructible terrain that is not already
/// damaging, not a base, and borders open space
pub open spec fn toxin_target(level: LevelTerrain, q: (int, int)) -> bool {
    let t = ter_of(level, q);
    &&& destructible_bit(t)
    &&& solid_type(t) != TER_TYPE_DAMAGE
    &&& solid_type(t) != TER_TYPE_BASE
    &&& solid_type(t) != TER_TYPE_NOREGENBASE
    &&& spec_next_to_space(level, q)
}

/// The falling grain of sand the loosening wave makes of pixel p: its solid type
/// and dynamic bit, drawn in its current artwork colour
pub open spec fn loosened_sand(level: LevelTerrain, p: (int, int)) -> DynamicTerrainCell {
    DynamicTerrainCell::Sand {
        terrain: ter_of(level, p) & (TER_MASK_SOLID | TER_BIT_DYNAMIC),
        solidify: SAND_SOLIDIFY_FRAMES,
        color: if level.in_bounds(p.0, p.1) {
            level.spec_artwork(p.0, p.1)
        } else {
            0
        },
    }
}

/// Does a grain of sand at pixel p still lie where it was: still falling, with its
/// pixel holding its terrain?
pub open spec fn sand_in_place(level: LevelTerrain, p: (int, int), terrain: Terrain, solidify: i32) -> bool {
    solidify > 0 && ter_of(level, p) & (TER_MASK_SOLID | TER_BIT_DYNAMIC) == terrain
}

/// Is the i-th pixel a falling grain at p tries open (with coordinates that fit in i32)?
pub open spec fn flow_open(level: LevelTerrain, p: (int, int), i: int) -> bool {
    fits_pos(offset(p, flow_offset(i))) && solid_type(ter_of(level, offset(p, flow_offset(i)))) == 0
}

/// The first pixel a falling grain at p can move to, as an index into the flow
/// offsets; 5 when none is open
pub open spec fn first_flow(level: LevelTerrain, p: (int, int)) -> int {
    if flow_open(level, p, 0) {
        0
    } else if flow_open(level, p, 1) {
        1
    } else if flow_open(level, p, 2) {
        2
    } else if flow_open(level, p, 3) {
        3
    } else if flow_open(level, p, 4) {
        4
    } else {
        5
    }
}

/// `post` has the shape and content hints of `pre`, and each pixel of `post` is
/// that of `pre` or, where `pre` held no solid, that pixel frozen into ice
pub open spec fn frost_grown(pre: LevelTerrain, post: LevelTerrain) -> bool {
    &&& post.wf()
    &&& post.spec_tiles_wide() == pre.spec_tiles_wide()
    &&& post.spec_tiles_high() == pre.spec_tiles_high()
    &&& forall|x: int, y: int|
        #![trigger post.spec_terrain(x, y)]
        pre.in_bounds(x, y) ==> post.spec_terrain(x, y) == pre.spec_terrain(x, y) || (solid_type(pre.spec_terrain(x, y))
            == 0 && post.spec_terrain(x, y) == replaced_terrain(pre.spec_terrain(x, y), TER_TYPE_ICE))
}

/// Only pixel (x, y) and the three pixels below it differ between `pre` and `post`
pub open spec fn frost_column(pre: LevelTerrain, post: LevelTerrain, x: int, y: int) -> bool {
    forall|x2: int, y2: int|
        #![trigger post.spec_terrain(x2, y2)]
        #![trigger post.spec_artwork(x2, y2)]
        pre.in_bounds(x2, y2) && !(x2 == x && y <= y2 <= y + 3) ==> post.spec_terrain(x2, y2) == pre.spec_terrain(x2, y2)
            && post.spec_artwork(x2, y2) == pre.spec_artwork(x2, y2)
}

/// Frozen terrain holds ice
proof fn lemma_frozen(t: Terrain)
    ensures
        solid_type(replaced_terrain(t, TER_TYPE_ICE)) == TER_TYPE_ICE,
{
    assert(((t & !0x1fu8) | 0x40u8 | 6u8) % 32 == 6) by (bit_vector);
}

/// Where frost has grown, a pixel that holds no solid now held none before either
/// and is the same pixel
proof fn lemma_frost_terrain(pre: LevelTerrain, post: LevelTerrain, q: (int, int))
    requires
        frost_grown(pre, post),
    ensures
        solid_type(ter_of(post, q)) == 0 ==> ter_of(pre, q) == ter_of(post, q),
{
    if pre.in_bounds(q.0, q.1) {
        lemma_frozen(pre.spec_terrain(q.0, q.1));
        assert(post.spec_terrain(q.0, q.1) == pre.spec_terrain(q.0, q.1) || solid_type(post.spec_terrain(q.0, q.1)) != 0);
    }
}

/// A pixel's key gives back the pixel
proof fn lemma_key_of(q: (int, int))
    requires
        fits_pos(q),
    ensures
        key_of(q) as int == spec_cell_key(q.0, q.1),
        spec_cell_pos(key_of(q) as int) == q,
{
    lemma_cell_pos(q.0, q.1);
}

/// Put cell c2 at pixel q into the next step's cells, as spawned by cell c at pixel p
fn spawn_cell(
    m: &mut DynamicTerrainMap,
    q: (i32, i32),
    c2: DynamicTerrainCell,
    Ghost(pre): Ghost<Map<u64, DynamicTerrainCell>>,
    Ghost(c): Ghost<DynamicTerrainCell>,
    Ghost(p): Ghost<(int, int)>,
)
    requires
        cells_wf(old(m)@),
        cell_wf(c2),
        spawned_into(pre, old(m)@, c, p),
        spawns(c, p, c2, (q.0 as int, q.1 as int)),
    ensures
        cells_wf(final(m)@),
        spawned_into(pre, final(m)@, c, p),
        final(m)@ == old(m)@.insert(key_of((q.0 as int, q.1 as int)), c2),
        spec_cell_pos(key_of((q.0 as int, q.1 as int)) as int) == (q.0 as int, q.1 as int),
{
    let k = cell_key(q.0, q.1);
    proof {
        lemma_cell_pos(q.0 as int, q.1 as int);
    }
    insert_cell(m, k, c2);
    proof {
        assert forall|k2: u64| #[trigger] m@.contains_key(k2) implies (pre.contains_key(k2) && m@[k2] == pre[k2]) || spawns(
            c,
            p,
            m@[k2],
            spec_cell_pos(k2 as int),
        ) by {
            if k2 != k {
                assert(old(m)@.contains_key(k2));
            }
        }
    }
}

/// Is there a cell at level pixel p?
fn has_cell(m: &DynamicTerrainMap, p: (i32, i32)) -> (r: bool)
    ensures
        r == m@.contains_key(spec_cell_key(p.0 as int, p.1 as int) as u64),
{
    let k = cell_key(p.0, p.1);
    m.contains_key(&k)
}

/// The pixel at offset d from pos, None if its coordinates do not fit in i32
fn neighbor(pos: (i32, i32), d: (i32, i32)) -> (r: Option<(i32, i32)>)
    ensures
        r matches Some(p) ==> p.0 == pos.0 + d.0 && p.1 == pos.1 + d.1,
        r is None ==> !(i32::MIN <= pos.0 + d.0 <= i32::MAX && i32::MIN <= pos.1 + d.1 <= i32::MAX),
{
    match (pos.0.checked_add(d.0), pos.1.checked_add(d.1)) {
        (Some(x), Some(y)) => Some((x, y)),
        _ => None,
    }
}

/// Von Neumann neighborhood
fn neighbors4() -> (r: [(i32, i32); 4])
    ensures
        forall|i: int| 0 <= i < 4 ==> von_neumann_step(#[trigger] r@[i].0 as int, r@[i].1 as int),
        forall|i: int, j: int| 0 <= i < j < 4 ==> r@[i] != r@[j],
        forall|dx: int, dy: int|
            #[trigger] von_neumann_step(dx, dy) ==> exists|i: int| 0 <= i < 4 && (#[trigger] r@[i]).0 == dx && r@[i].1 == dy,
{
    let r = [(0, -1), (1, 0), (0, 1), (-1, 0)];
    proof {
        assert forall|dx: int, dy: int| #[trigger] von_neumann_step(dx, dy) implies exists|i: int|
            0 <= i < 4 && (#[trigger] r@[i]).0 == dx && r@[i].1 == dy by {
            if dx == 0 && dy == -1 { assert(r@[0].0 == dx && r@[0].1 == dy); }
            else if dx == 1 { assert(r@[1].0 == dx && r@[1].1 == dy); }
            else if dx == 0 { assert(r@[2].0 == dx && r@[2].1 == dy); }
            else { assert(r@[3].0 == dx && r@[3].1 == dy); }
        }
    }
    r
}

/// Moore neighborhood
fn neighbors8() -> (r: [(i32, i32); 8])
    ensures
        forall|i: int| 0 <= i < 8 ==> moore_step(#[trigger] r@[i].0 as int, r@[i].1 as int),
        forall|i: int, j: int| 0 <= i < j < 8 ==> r@[i] != r@[j],
        forall|dx: int, dy: int|
            #[trigger] moore_step(dx, dy) ==> exists|i: int| 0 <= i < 8 && (#[trigger] r@[i]).0 == dx && r@[i].1 == dy,
{
    let r = [(-1, -1), (0, -1), (1, -1), (-1, 0), (1, 0), (-1, 1), (0, 1), (1, 1)];
    proof {
        assert forall|dx: int, dy: int| #[trigger] moore_step(dx, dy) implies exists|i: int|
            0 <= i < 8 && (#[trigger] r@[i]).0 == dx && r@[i].1 == dy by {
            if dy == -1 {
                if dx == -1 { assert(r@[0].0 == dx && r@[0].1 == dy); }
                else if dx == 0 { assert(r@[1].0 == dx && r@[1].1 == dy); }
                else { assert(r@[2].0 == dx && r@[2].1 == dy); }
            } else if dy == 0 {
                if dx == -1 { assert(r@[3].0 == dx && r@[3].1 == dy); }
                else { assert(r@[4].0 == dx && r@[4].1 == dy); }
            } else {
                if dx == -1 { assert(r@[5].0 == dx && r@[5].1 == dy); }
                else if dx == 0 { assert(r@[6].0 == dx && r@[6].1 == dy); }
                else { assert(r@[7].0 == dx && r@[7].1 == dy); }
            }
        }
    }
    r
}

/// A roundish neighborhood of radius two
fn neighbors_roundish() -> (r: [(i32, i32); 12])
    ensures
        forall|i: int| 0 <= i < 12 ==> roundish_step(#[trigger] r@[i].0 as int, r@[i].1 as int),
        forall|i: int, j: int| 0 <= i < j < 12 ==> r@[i] != r@[j],
        forall|dx: int, dy: int|
            #[trigger] roundish_step(dx, dy) ==> exists|i: int| 0 <= i < 12 && (#[trigger] r@[i]).0 == dx && r@[i].1 == dy,
{
    let r = [(0, -1), (1, 0), (0, 1), (-1, 0), (-1, -2), (1, -2), (-2, -1), (2, -1), (-2, 1), (2, 1), (-1, 2), (1, 2)];
    proof {
        assert forall|dx: int, dy: int| #[trigger] roundish_step(dx, dy) implies exists|i: int|
            0 <= i < 12 && (#[trigger] r@[i]).0 == dx && r@[i].1 == dy by {
            if dx == 0 && dy == -1 { assert(r@[0].0 == dx && r@[0].1 == dy); }
            else if dx == 1 && dy == 0 { assert(r@[1].0 == dx && r@[1].1 == dy); }
            else if dx == 0 && dy == 1 { assert(r@[2].0 == dx && r@[2].1 == dy); }
            else if dx == -1 && dy == 0 { assert(r@[3].0 == dx && r@[3].1 == dy); }
            else if dx == -1 && dy == -2 { assert(r@[4].0 == dx && r@[4].1 == dy); }
            else if dx == 1 && dy == -2 { assert(r@[5].0 == dx && r@[5].1 == dy); }
            else if dx == -2 && dy == -1 { assert(r@[6].0 == dx && r@[6].1 == dy); }
            else if dx == 2 && dy == -1 { assert(r@[7].0 == dx && r@[7].1 == dy); }
            else if dx == -2 && dy == 1 { assert(r@[8].0 == dx && r@[8].1 == dy); }
            else if dx == 2 && dy == 1 { assert(r@[9].0 == dx && r@[9].1 == dy); }
            else if dx == -1 && dy == 2 { assert(r@[10].0 == dx && r@[10].1 == dy); }
            else { assert(r@[11].0 == dx && r@[11].1 == dy); }
        }
    }
    r
}

/// Sand flows down, or diagonally down up to two pixels aside
fn sand_flow() -> (r: [(i32, i32); 5])
    ensures
        forall|i: int| 0 <= i < 5 ==> sand_step(#[trigger] r@[i].0 as int, r@[i].1 as int),
        forall|i: int| 0 <= i < 5 ==> #[trigger] r@[i] == flow_offset(i),
{
    [(0, 1), (-1, 1), (1, 1), (-2, 1), (2, 1)]
}

/// Terrain type at level pixel p
fn ter_at(level: &LevelTerrain, p: (i32, i32)) -> (r: Terrain)
    requires
        level.wf(),
    ensures
        r == level.spec_terrain_at(p.0 as int, p.1 as int),
{
    level.terrain_at_lc(p.0, p.1)
}


/// The solid types dynamic terrain writes carry no flag bits besides the dynamic one
proof fn lemma_solid_types()
    ensures
        0u8 & !(TER_MASK_SOLID | TER_BIT_DYNAMIC) == 0,
        TER_TYPE_GROUND & !(TER_MASK_SOLID | TER_BIT_DYNAMIC) == 0,
        TER_TYPE_GREYGOO & !(TER_MASK_SOLID | TER_BIT_DYNAMIC) == 0,
        TER_TYPE_HIGH_EXPLOSIVE & !(TER_MASK_SOLID | TER_BIT_DYNAMIC) == 0,
        TER_TYPE_DAMAGE & !(TER_MASK_SOLID | TER_BIT_DYNAMIC) == 0,
        TER_TYPE_ICE & !(TER_MASK_SOLID | TER_BIT_DYNAMIC) == 0,
{
    assert(0u8 & !(0x1fu8 | 0x20u8) == 0) by (bit_vector);
    assert(1u8 & !(0x1fu8 | 0x20u8) == 0) by (bit_vector);
    assert(11u8 & !(0x1fu8 | 0x20u8) == 0) by (bit_vector);
    assert(5u8 & !(0x1fu8 | 0x20u8) == 0) by (bit_vector);
    assert(12u8 & !(0x1fu8 | 0x20u8) == 0) by (bit_vector);
    assert(6u8 & !(0x1fu8 | 0x20u8) == 0) by (bit_vector);
}

/// Expanding foam hardens into ground and spreads to open neighbours by chance
fn step_foam<E: DynterEnv, B: PixelBlend>(
    level: &mut LevelTerrain,
    pos: (i32, i32),
    limit: i32,
    new_cells: &mut DynamicTerrainMap,
    dirty: &mut Vec<(i32, i32)>,
    water_color: u32,
    env: &mut E,
    blender: &B,
    Ghost(pre): Ghost<LevelTerrain>,
    Ghost(cells): Ghost<Map<u64, DynamicTerrainCell>>,
    Ghost(key): Ghost<u64>,
)
    requires
        edits_tracked(*old(level), pre, old(dirty)@),
        edits_near(*old(level), pre, cells),
        cells.contains_key(key),
        spec_cell_pos(key as int) == (pos.0 as int, pos.1 as int),
        cells_wf(old(new_cells)@),
    ensures
        edits_tracked(*final(level), pre, final(dirty)@),
        edits_near(*final(level), pre, cells),
        cells_wf(final(new_cells)@),
        spawned_into(old(new_cells)@, final(new_cells)@, (DynamicTerrainCell::Foam { limit }), (pos.0 as int, pos.1 as int)),
        dom_grows(old(new_cells)@, final(new_cells)@),
        pixel_replaced(*old(level), *final(level), pos.0 as int, pos.1 as int, TER_TYPE_GROUND),
        cells_kept(old(new_cells)@, final(new_cells)@),
        limit <= 0 ==> final(new_cells)@ == old(new_cells)@,
        changed_where(old(new_cells)@, final(new_cells)@, |q: (int, int)| solid_type(ter_of(*final(level), q)) == 0),
{
    proof {
        lemma_solid_types();
    }
    let ghost pre_cells = new_cells@;
    let ghost me = DynamicTerrainCell::Foam { limit };
    let ghost pp = (pos.0 as int, pos.1 as int);
    let color = env.foam_color(limit);
    replace_tracked(level, pos.0, pos.1, TER_TYPE_GROUND, color, water_color, blender, dirty, Ghost(pre), Ghost(cells), Ghost(key));
    let ghost mid = *level;
    if limit > 0 {
        let nb = neighbors_roundish();
        let mut n: usize = 0;
        while n < 12
            invariant
                edits_tracked(*level, pre, dirty@),
                edits_near(*level, pre, cells),
                cells.contains_key(key),
                spec_cell_pos(key as int) == (pos.0 as int, pos.1 as int),
                cells_wf(new_cells@),
                spawned_into(pre_cells, new_cells@, me, pp),
                dom_grows(pre_cells, new_cells@),
                me == (DynamicTerrainCell::Foam { limit }),
                pp == (pos.0 as int, pos.1 as int),
                forall|i: int| 0 <= i < 12 ==> roundish_step(#[trigger] nb@[i].0 as int, nb@[i].1 as int),
                *level == mid,
                cells_kept(pre_cells, new_cells@),
                changed_where(pre_cells, new_cells@, |q: (int, int)| solid_type(ter_of(mid, q)) == 0),
                limit > 0,
                n <= 12,
            decreases 12 - n,
        {
            let ghost before = new_cells@;
            if let Some(p) = neighbor(pos, nb[n]) {
                if !is_solid(ter_at(level, p)) && !has_cell(new_cells, p) && env.spread_chance(limit) {
                    spawn_cell(new_cells, p, DynamicTerrainCell::Foam { limit: limit - 1 }, Ghost(pre_cells), Ghost(me), Ghost(pp));
                    proof {
                        let qn = (p.0 as int, p.1 as int);
                        assert forall|k: u64| #[trigger] pre_cells.contains_key(k) implies new_cells@.contains_key(k)
                            && new_cells@[k] == pre_cells[k] by {
                            assert(before.contains_key(k));
                        }
                        assert forall|k: u64|
                            #[trigger] new_cells@.contains_key(k) && !(pre_cells.contains_key(k) && new_cells@[k]
                                == pre_cells[k]) implies solid_type(ter_of(mid, spec_cell_pos(k as int))) == 0 by {
                            if k != key_of(qn) {
                                assert(before.contains_key(k));
                            }
                        }
                    }
                }
            }
            n += 1;
        }
    }
}

/// Grey goo glows while its counter runs down, then eats its pixel and infects
/// destructible neighbours
fn step_greygoo<E: DynterEnv, B: PixelBlend>(
    level: &mut LevelTerrain,
    pos: (i32, i32),
    counter: i32,
    limit: i32,
    new_cells: &mut DynamicTerrainMap,
    dirty: &mut Vec<(i32, i32)>,
    water_color: u32,
    env: &mut E,
    blender: &B,
    Ghost(pre): Ghost<LevelTerrain>,
    Ghost(cells): Ghost<Map<u64, DynamicTerrainCell>>,
    Ghost(key): Ghost<u64>,
)
    requires
        edits_tracked(*old(level), pre, old(dirty)@),
        edits_near(*old(level), pre, cells),
        cells.contains_key(key),
        spec_cell_pos(key as int) == (pos.0 as int, pos.1 as int),
        cells_wf(old(new_cells)@),
    ensures
        edits_tracked(*final(level), pre, final(dirty)@),
        edits_near(*final(level), pre, cells),
        cells_wf(final(new_cells)@),
        spawned_into(old(new_cells)@, final(new_cells)@, (DynamicTerrainCell::GreyGoo { counter, limit }), (pos.0 as int, pos.1 as int)),
        dom_grows(old(new_cells)@, final(new_cells)@),
        counter > 0 ==> pixel_replaced(*old(level), *final(level), pos.0 as int, pos.1 as int, TER_TYPE_GREYGOO),
        counter > 0 ==> final(new_cells)@ == old(new_cells)@.insert(
            key_of((pos.0 as int, pos.1 as int)),
            DynamicTerrainCell::GreyGoo { counter: (counter - 1) as i32, limit },
        ),
        counter <= 0 ==> pixel_replaced(*old(level), *final(level), pos.0 as int, pos.1 as int, 0),
        counter <= 0 ==> artwork_replaced(*old(level), *final(level), pos.0 as int, pos.1 as int, 0, 0, water_color),
        counter <= 0 && limit <= 0 ==> final(new_cells)@ == old(new_cells)@,
        counter <= 0 ==> changed_where(old(new_cells)@, final(new_cells)@, |q: (int, int)| goo_edible(ter_of(*final(level), q))),
        counter <= 0 && limit > 0 ==> forall|dx: int, dy: int|
            #[trigger] von_neumann_step(dx, dy) && fits_pos((pos.0 + dx, pos.1 + dy)) && goo_edible(
                ter_of(*final(level), (pos.0 + dx, pos.1 + dy)),
            ) ==> goo_spawned_at(final(new_cells)@, (pos.0 + dx, pos.1 + dy), limit as int),
{
    proof {
        lemma_solid_types();
    }
    let ghost pre_cells = new_cells@;
    let ghost me = DynamicTerrainCell::GreyGoo { counter, limit };
    let ghost pp = (pos.0 as int, pos.1 as int);
    if counter > 0 {
        let color = env.goo_color(counter);
        replace_tracked(level, pos.0, pos.1, TER_TYPE_GREYGOO, color, water_color, blender, dirty, Ghost(pre), Ghost(cells), Ghost(key));
        spawn_cell(new_cells, pos, DynamicTerrainCell::GreyGoo { counter: counter - 1, limit }, Ghost(pre_cells), Ghost(me), Ghost(pp));
    } else {
        replace_tracked(level, pos.0, pos.1, 0, 0, water_color, blender, dirty, Ghost(pre), Ghost(cells), Ghost(key));
        let ghost mid = *level;
        if limit > 0 {
            let nb = neighbors4();
            let mut n: usize = 0;
            while n < 4
                invariant
                    edits_tracked(*level, pre, dirty@),
                    edits_near(*level, pre, cells),
                    cells.contains_key(key),
                    spec_cell_pos(key as int) == (pos.0 as int, pos.1 as int),
                    cells_wf(new_cells@),
                    spawned_into(pre_cells, new_cells@, me, pp),
                    dom_grows(pre_cells, new_cells@),
                    me == (DynamicTerrainCell::GreyGoo { counter, limit }),
                    pp == (pos.0 as int, pos.1 as int),
                    forall|i: int| 0 <= i < 4 ==> von_neumann_step(#[trigger] nb@[i].0 as int, nb@[i].1 as int),
                    forall|i: int, j: int| 0 <= i < j < 4 ==> nb@[i] != nb@[j],
                    *level == mid,
                    changed_where(pre_cells, new_cells@, |q: (int, int)| goo_edible(ter_of(mid, q))),
                    forall|i: int|
                        0 <= i < n && fits_pos(offset(pp, #[trigger] nb@[i])) && goo_edible(ter_of(mid, offset(pp, nb@[i])))
                            ==> goo_spawned_at(new_cells@, offset(pp, nb@[i]), limit as int),
                    counter <= 0,
                    limit > 0,
                    n <= 4,
                decreases 4 - n,
            {
                let ghost before = new_cells@;
                if let Some(p) = neighbor(pos, nb[n]) {
                    let tp = ter_at(level, p);
                    if is_destructible(tp) && !is_greygoo(tp) {
                        let c = random_i32(20, 40);
                        spawn_cell(new_cells, p, DynamicTerrainCell::GreyGoo { counter: c, limit: limit - 1 }, Ghost(pre_cells), Ghost(me), Ghost(pp));
                        proof {
                            let qn = (p.0 as int, p.1 as int);
                            assert(qn == offset(pp, nb@[n as int]));
                            assert forall|k: u64|
                                #[trigger] new_cells@.contains_key(k) && !(pre_cells.contains_key(k) && new_cells@[k]
                                    == pre_cells[k]) implies goo_edible(ter_of(mid, spec_cell_pos(k as int))) by {
                                if k != key_of(qn) {
                                    assert(before.contains_key(k));
                                }
                            }
                            assert forall|i: int|
                                0 <= i <= n && fits_pos(offset(pp, #[trigger] nb@[i])) && goo_edible(
                                    ter_of(mid, offset(pp, nb@[i])),
                                ) implies goo_spawned_at(new_cells@, offset(pp, nb@[i]), limit as int) by {
                                if i < n {
                                    lemma_key_of(offset(pp, nb@[i]));
                                    assert(nb@[i] != nb@[n as int]);
                                    assert(key_of(offset(pp, nb@[i])) != key_of(qn));
                                }
                            }
                        }
                    }
                }
                n += 1;
            }
            proof {
                assert forall|dx: int, dy: int|
                    #[trigger] von_neumann_step(dx, dy) && fits_pos((pos.0 + dx, pos.1 + dy)) && goo_edible(
                        ter_of(*level, (pos.0 + dx, pos.1 + dy)),
                    ) implies goo_spawned_at(new_cells@, (pos.0 + dx, pos.1 + dy), limit as int) by {
                    let i = choose|i: int| 0 <= i < 4 && (#[trigger] nb@[i]).0 == dx && nb@[i].1 == dy;
                    assert(offset(pp, nb@[i]) == (pos.0 + dx, pos.1 + dy));
                }
            }
        }
    }
}

/// Nitro waits for its counter, then turns its pixel into high explosive and soaks
/// destructible neighbours
fn step_nitro<B: PixelBlend>(
    level: &mut LevelTerrain,
    pos: (i32, i32),
    counter: i32,
    limit: i32,
    new_cells: &mut DynamicTerrainMap,
    dirty: &mut Vec<(i32, i32)>,
    water_color: u32,
    blender: &B,
    Ghost(pre): Ghost<LevelTerrain>,
    Ghost(cells): Ghost<Map<u64, DynamicTerrainCell>>,
    Ghost(key): Ghost<u64>,
)
    requires
        edits_tracked(*old(level), pre, old(dirty)@),
        edits_near(*old(level), pre, cells),
        cells.contains_key(key),
        spec_cell_pos(key as int) == (pos.0 as int, pos.1 as int),
        cells_wf(old(new_cells)@),
    ensures
        edits_tracked(*final(level), pre, final(dirty)@),
        edits_near(*final(level), pre, cells),
        cells_wf(final(new_cells)@),
        spawned_into(old(new_cells)@, final(new_cells)@, (DynamicTerrainCell::Nitro { counter, limit }), (pos.0 as int, pos.1 as int)),
        dom_grows(old(new_cells)@, final(new_cells)@),
        counter > 0 ==> *final(level) == *old(level) && final(dirty)@ == old(dirty)@,
        counter > 0 ==> final(new_cells)@ == old(new_cells)@.insert(
            key_of((pos.0 as int, pos.1 as int)),
            DynamicTerrainCell::Nitro { counter: (counter - 1) as i32, limit },
        ),
        counter <= 0 ==> pixel_replaced(*old(level), *final(level), pos.0 as int, pos.1 as int, TER_TYPE_HIGH_EXPLOSIVE),
        counter <= 0 ==> artwork_replaced(
            *old(level),
            *final(level),
            pos.0 as int,
            pos.1 as int,
            TER_TYPE_HIGH_EXPLOSIVE,
            NITRO_COLOR,
            water_color,
        ),
        counter <= 0 ==> cells_kept(old(new_cells)@, final(new_cells)@),
        counter <= 0 && limit <= 0 ==> final(new_cells)@ == old(new_cells)@,
        counter <= 0 ==> changed_where(old(new_cells)@, final(new_cells)@, |q: (int, int)| nitro_soakable(ter_of(*final(level), q))),
        counter <= 0 && limit > 0 ==> forall|dx: int, dy: int|
            #[trigger] roundish_step(dx, dy) && fits_pos((pos.0 + dx, pos.1 + dy)) && nitro_soakable(
                ter_of(*final(level), (pos.0 + dx, pos.1 + dy)),
            ) && !old(new_cells)@.contains_key(key_of((pos.0 + dx, pos.1 + dy))) ==> nitro_spawned_at(
                final(new_cells)@,
                (pos.0 + dx, pos.1 + dy),
                limit as int,
            ),
{
    proof {
        lemma_solid_types();
    }
    let ghost pre_cells = new_cells@;
    let ghost me = DynamicTerrainCell::Nitro { counter, limit };
    let ghost pp = (pos.0 as int, pos.1 as int);
    if counter > 0 {
        spawn_cell(new_cells, pos, DynamicTerrainCell::Nitro { counter: counter - 1, limit }, Ghost(pre_cells), Ghost(me), Ghost(pp));
    } else {
        replace_tracked(level, pos.0, pos.1, TER_TYPE_HIGH_EXPLOSIVE, NITRO_COLOR, water_color, blender, dirty, Ghost(pre), Ghost(cells), Ghost(key));
        let ghost mid = *level;
        if limit > 0 {
            let nb = neighbors_roundish();
            let mut n: usize = 0;
            while n < 12
                invariant
                    edits_tracked(*level, pre, dirty@),
                    edits_near(*level, pre, cells),
                    cells.contains_key(key),
                    spec_cell_pos(key as int) == (pos.0 as int, pos.1 as int),
                    cells_wf(new_cells@),
                    spawned_into(pre_cells, new_cells@, me, pp),
                    dom_grows(pre_cells, new_cells@),
                    me == (DynamicTerrainCell::Nitro { counter, limit }),
                    pp == (pos.0 as int, pos.1 as int),
                    forall|i: int| 0 <= i < 12 ==> roundish_step(#[trigger] nb@[i].0 as int, nb@[i].1 as int),
                    forall|i: int, j: int| 0 <= i < j < 12 ==> nb@[i] != nb@[j],
                    *level == mid,
                    cells_kept(pre_cells, new_cells@),
                    changed_where(pre_cells, new_cells@, |q: (int, int)| nitro_soakable(ter_of(mid, q))),
                    forall|i: int|
                        n <= i < 12 && fits_pos(offset(pp, #[trigger] nb@[i])) ==> (new_cells@.contains_key(
                            key_of(offset(pp, nb@[i])),
                        ) <==> pre_cells.contains_key(key_of(offset(pp, nb@[i])))),
                    forall|i: int|
                        0 <= i < n && fits_pos(offset(pp, #[trigger] nb@[i])) && nitro_soakable(ter_of(mid, offset(pp, nb@[i])))
                            && !pre_cells.contains_key(key_of(offset(pp, nb@[i]))) ==> nitro_spawned_at(
                            new_cells@,
                            offset(pp, nb@[i]),
                            limit as int,
                        ),
                    counter <= 0,
                    limit > 0,
                    n <= 12,
                decreases 12 - n,
            {
                let ghost before = new_cells@;
                if let Some(p) = neighbor(pos, nb[n]) {
                    let tp = ter_at(level, p);
                    if is_destructible(tp) && !is_high_explosive(tp) && !has_cell(new_cells, p) {
                        let c = random_i32(1, 6);
                        spawn_cell(new_cells, p, DynamicTerrainCell::Nitro { counter: c, limit: limit - 1 }, Ghost(pre_cells), Ghost(me), Ghost(pp));
                        proof {
                            let qn = (p.0 as int, p.1 as int);
                            assert(qn == offset(pp, nb@[n as int]));
                            assert forall|k: u64| #[trigger] pre_cells.contains_key(k) implies new_cells@.contains_key(k)
                                && new_cells@[k] == pre_cells[k] by {
                                assert(before.contains_key(k));
                            }
                            assert forall|k: u64|
                                #[trigger] new_cells@.contains_key(k) && !(pre_cells.contains_key(k) && new_cells@[k]
                                    == pre_cells[k]) implies nitro_soakable(ter_of(mid, spec_cell_pos(k as int))) by {
                                if k != key_of(qn) {
                                    assert(before.contains_key(k));
                                }
                            }
                            assert forall|i: int| n < i < 12 && fits_pos(offset(pp, #[trigger] nb@[i])) implies (new_cells@.contains_key(
                                key_of(offset(pp, nb@[i])),
                            ) <==> pre_cells.contains_key(key_of(offset(pp, nb@[i])))) by {
                                lemma_key_of(offset(pp, nb@[i]));
                                assert(nb@[n as int] != nb@[i]);
                                assert(key_of(offset(pp, nb@[i])) != key_of(qn));
                            }
                            assert forall|i: int|
                                0 <= i <= n && fits_pos(offset(pp, #[trigger] nb@[i])) && nitro_soakable(
                                    ter_of(mid, offset(pp, nb@[i])),
                                ) && !pre_cells.contains_key(key_of(offset(pp, nb@[i]))) implies nitro_spawned_at(
                                new_cells@,
                                offset(pp, nb@[i]),
                                limit as int,
                            ) by {
                                if i < n {
                                    lemma_key_of(offset(pp, nb@[i]));
                                    assert(nb@[i] != nb@[n as int]);
                                    assert(key_of(offset(pp, nb@[i])) != key_of(qn));
                                }
                            }
                        }
                    }
                }
                n += 1;
            }
            proof {
                assert forall|dx: int, dy: int|
                    #[trigger] roundish_step(dx, dy) && fits_pos((pos.0 + dx, pos.1 + dy)) && nitro_soakable(
                        ter_of(*level, (pos.0 + dx, pos.1 + dy)),
                    ) && !pre_cells.contains_key(key_of((pos.0 + dx, pos.1 + dy))) implies nitro_spawned_at(
                    new_cells@,
                    (pos.0 + dx, pos.1 + dy),
                    limit as int,
                ) by {
                    let i = choose|i: int| 0 <= i < 12 && (#[trigger] nb@[i]).0 == dx && nb@[i].1 == dy;
                    assert(offset(pp, nb@[i]) == (pos.0 + dx, pos.1 + dy));
                }
            }
        }
    }
}

/// Fire spreads to burnable neighbours halfway through its life, burns its pixel
/// into damaging terrain while it lasts and leaves cinder or empty space behind
fn step_fire<E: DynterEnv, B: PixelBlend>(
    level: &mut LevelTerrain,
    pos: (i32, i32),
    counter: i32,
    cinder: bool,
    new_cells: &mut DynamicTerrainMap,
    dirty: &mut Vec<(i32, i32)>,
    water_color: u32,
    env: &mut E,
    blender: &B,
    Ghost(pre): Ghost<LevelTerrain>,
    Ghost(cells): Ghost<Map<u64, DynamicTerrainCell>>,
    Ghost(key): Ghost<u64>,
)
    requires
        edits_tracked(*old(level), pre, old(dirty)@),
        edits_near(*old(level), pre, cells),
        cells.contains_key(key),
        spec_cell_pos(key as int) == (pos.0 as int, pos.1 as int),
        cells_wf(old(new_cells)@),
    ensures
        edits_tracked(*final(level), pre, final(dirty)@),
        edits_near(*final(level), pre, cells),
        cells_wf(final(new_cells)@),
        spawned_into(old(new_cells)@, final(new_cells)@, (DynamicTerrainCell::Fire { counter, cinder }), (pos.0 as int, pos.1 as int)),
        dom_grows(old(new_cells)@, final(new_cells)@),
        counter > 0 ==> pixel_replaced(*old(level), *final(level), pos.0 as int, pos.1 as int, TER_TYPE_DAMAGE),
        counter <= 0 && cinder ==> pixel_replaced(*old(level), *final(level), pos.0 as int, pos.1 as int, TER_TYPE_GROUND),
        counter <= 0 && !cinder ==> pixel_replaced(*old(level), *final(level), pos.0 as int, pos.1 as int, 0),
        counter <= 0 && !cinder ==> artwork_replaced(*old(level), *final(level), pos.0 as int, pos.1 as int, 0, 0, water_color),
        counter != 30 ==> final(new_cells)@ == if counter > 0 {
            old(new_cells)@.insert(
                key_of((pos.0 as int, pos.1 as int)),
                DynamicTerrainCell::Fire { counter: (counter - 1) as i32, cinder },
            )
        } else {
            old(new_cells)@
        },
        counter == 30 ==> final(new_cells)@.contains_key(key_of((pos.0 as int, pos.1 as int))) && final(new_cells)@[key_of(
            (pos.0 as int, pos.1 as int),
        )] == (DynamicTerrainCell::Fire { counter: 29, cinder }),
        counter == 30 ==> cells_kept(old(new_cells)@.remove(key_of((pos.0 as int, pos.1 as int))), final(new_cells)@),
        counter == 30 ==> changed_where(
            old(new_cells)@,
            final(new_cells)@,
            |q: (int, int)| q == (pos.0 as int, pos.1 as int) || fire_fuel(ter_of(*old(level), q)),
        ),
        counter == 30 ==> forall|dx: int, dy: int|
            #[trigger] roundish_step(dx, dy) && fits_pos((pos.0 + dx, pos.1 + dy)) && fire_fuel(
                ter_of(*old(level), (pos.0 + dx, pos.1 + dy)),
            ) && !old(new_cells)@.contains_key(key_of((pos.0 + dx, pos.1 + dy))) ==> fire_spawned_at(
                final(new_cells)@,
                (pos.0 + dx, pos.1 + dy),
                ter_of(*old(level), (pos.0 + dx, pos.1 + dy)),
            ),
{
    proof {
        lemma_solid_types();
    }
    let ghost pre_cells = new_cells@;
    let ghost me = DynamicTerrainCell::Fire { counter, cinder };
    let ghost pp = (pos.0 as int, pos.1 as int);
    let ghost start = *level;
    if counter == 30 {
        let nb = neighbors_roundish();
        let mut n: usize = 0;
        while n < 12
            invariant
                edits_tracked(*level, pre, dirty@),
                edits_near(*level, pre, cells),
                cells.contains_key(key),
                spec_cell_pos(key as int) == (pos.0 as int, pos.1 as int),
                cells_wf(new_cells@),
                spawned_into(pre_cells, new_cells@, me, pp),
                dom_grows(pre_cells, new_cells@),
                me == (DynamicTerrainCell::Fire { counter, cinder }),
                pp == (pos.0 as int, pos.1 as int),
                forall|i: int| 0 <= i < 12 ==> roundish_step(#[trigger] nb@[i].0 as int, nb@[i].1 as int),
                forall|i: int, j: int| 0 <= i < j < 12 ==> nb@[i] != nb@[j],
                *level == start,
                cells_kept(pre_cells, new_cells@),
                changed_where(pre_cells, new_cells@, |q: (int, int)| fire_fuel(ter_of(start, q))),
                forall|i: int|
                    n <= i < 12 && fits_pos(offset(pp, #[trigger] nb@[i])) ==> (new_cells@.contains_key(
                        key_of(offset(pp, nb@[i])),
                    ) <==> pre_cells.contains_key(key_of(offset(pp, nb@[i])))),
                forall|i: int|
                    0 <= i < n && fits_pos(offset(pp, #[trigger] nb@[i])) && fire_fuel(ter_of(start, offset(pp, nb@[i])))
                        && !pre_cells.contains_key(key_of(offset(pp, nb@[i]))) ==> fire_spawned_at(
                        new_cells@,
                        offset(pp, nb@[i]),
                        ter_of(start, offset(pp, nb@[i])),
                    ),
                counter == 30,
                n <= 12,
            decreases 12 - n,
        {
            let ghost before = new_cells@;
            if let Some(p) = neighbor(pos, nb[n]) {
                let tp = ter_at(level, p);
                if is_burnable(tp) && !has_cell(new_cells, p) {
                    let c = random_i32(31, 60);
                    spawn_cell(new_cells, p, DynamicTerrainCell::Fire { counter: c, cinder: is_cinder(tp) }, Ghost(pre_cells), Ghost(me), Ghost(pp));
                    proof {
                        let qn = (p.0 as int, p.1 as int);
                        assert(qn == offset(pp, nb@[n as int]));
                        assert forall|k: u64| #[trigger] pre_cells.contains_key(k) implies new_cells@.contains_key(k)
                            && new_cells@[k] == pre_cells[k] by {
                            assert(before.contains_key(k));
                        }
                        assert forall|k: u64|
                            #[trigger] new_cells@.contains_key(k) && !(pre_cells.contains_key(k) && new_cells@[k]
                                == pre_cells[k]) implies fire_fuel(ter_of(start, spec_cell_pos(k as int))) by {
                            if k != key_of(qn) {
                                assert(before.contains_key(k));
                            }
                        }
                        assert forall|i: int| n < i < 12 && fits_pos(offset(pp, #[trigger] nb@[i])) implies (new_cells@.contains_key(
                            key_of(offset(pp, nb@[i])),
                        ) <==> pre_cells.contains_key(key_of(offset(pp, nb@[i])))) by {
                            lemma_key_of(offset(pp, nb@[i]));
                            assert(nb@[n as int] != nb@[i]);
                            assert(key_of(offset(pp, nb@[i])) != key_of(qn));
                        }
                        assert forall|i: int|
                            0 <= i <= n && fits_pos(offset(pp, #[trigger] nb@[i])) && fire_fuel(
                                ter_of(start, offset(pp, nb@[i])),
                            ) && !pre_cells.contains_key(key_of(offset(pp, nb@[i]))) implies fire_spawned_at(
                            new_cells@,
                            offset(pp, nb@[i]),
                            ter_of(start, offset(pp, nb@[i])),
                        ) by {
                            if i < n {
                                lemma_key_of(offset(pp, nb@[i]));
                                assert(nb@[i] != nb@[n as int]);
                                assert(key_of(offset(pp, nb@[i])) != key_of(qn));
                            }
                        }
                    }
                }
            }
            n += 1;
        }
        proof {
            assert forall|dx: int, dy: int|
                #[trigger] roundish_step(dx, dy) && fits_pos((pos.0 + dx, pos.1 + dy)) && fire_fuel(
                    ter_of(start, (pos.0 + dx, pos.1 + dy)),
                ) && !pre_cells.contains_key(key_of((pos.0 + dx, pos.1 + dy))) implies fire_spawned_at(
                new_cells@,
                (pos.0 + dx, pos.1 + dy),
                ter_of(start, (pos.0 + dx, pos.1 + dy)),
            ) by {
                let i = choose|i: int| 0 <= i < 12 && (#[trigger] nb@[i]).0 == dx && nb@[i].1 == dy;
                assert(offset(pp, nb@[i]) == (pos.0 + dx, pos.1 + dy));
            }
        }
    }
    let ghost spread = new_cells@;
    if counter > 0 {
        let color = env.fire_color(counter);
        replace_tracked(level, pos.0, pos.1, TER_TYPE_DAMAGE, color, water_color, blender, dirty, Ghost(pre), Ghost(cells), Ghost(key));
        spawn_cell(new_cells, pos, DynamicTerrainCell::Fire { counter: counter - 1, cinder }, Ghost(pre_cells), Ghost(me), Ghost(pp));
        proof {
            lemma_key_of(pp);
            if counter == 30 {
                assert forall|k: u64| #[trigger] pre_cells.remove(key_of(pp)).contains_key(k) implies new_cells@.contains_key(k)
                    && new_cells@[k] == pre_cells.remove(key_of(pp))[k] by {
                    assert(pre_cells.contains_key(k));
                }
                assert forall|k: u64|
                    #[trigger] new_cells@.contains_key(k) && !(pre_cells.contains_key(k) && new_cells@[k] == pre_cells[k])
                        implies spec_cell_pos(k as int) == pp || fire_fuel(ter_of(start, spec_cell_pos(k as int))) by {
                    if k != key_of(pp) {
                        assert(spread.contains_key(k));
                    }
                }
                assert forall|dx: int, dy: int|
                    #[trigger] roundish_step(dx, dy) && fits_pos((pos.0 + dx, pos.1 + dy)) && fire_fuel(
                        ter_of(start, (pos.0 + dx, pos.1 + dy)),
                    ) && !pre_cells.contains_key(key_of((pos.0 + dx, pos.1 + dy))) implies fire_spawned_at(
                    new_cells@,
                    (pos.0 + dx, pos.1 + dy),
                    ter_of(start, (pos.0 + dx, pos.1 + dy)),
                ) by {
                    lemma_key_of((pos.0 + dx, pos.1 + dy));
                    assert(key_of((pos.0 + dx, pos.1 + dy)) != key_of(pp));
                    assert(fire_spawned_at(spread, (pos.0 + dx, pos.1 + dy), ter_of(start, (pos.0 + dx, pos.1 + dy))));
                }
            }
        }
    } else if cinder {
        let color = env.cinder_color();
        replace_tracked(level, pos.0, pos.1, TER_TYPE_GROUND, color, water_color, blender, dirty, Ghost(pre), Ghost(cells), Ghost(key));
    } else {
        replace_tracked(level, pos.0, pos.1, 0, 0, water_color, blender, dirty, Ghost(pre), Ghost(cells), Ghost(key));
    }
}

/// Is some 8-neighbour of p solid terrain other than ice?
fn next_to_non_ice_solid(level: &LevelTerrain, p: (i32, i32)) -> (r: bool)
    requires
        level.wf(),
    ensures
        r == spec_next_to_non_ice_solid(*level, (p.0 as int, p.1 as int)),
{
    let ghost pp = (p.0 as int, p.1 as int);
    let nb = neighbors8();
    let mut n: usize = 0;
    while n < 8
        invariant
            level.wf(),
            n <= 8,
            pp == (p.0 as int, p.1 as int),
            forall|i: int| 0 <= i < 8 ==> moore_step(#[trigger] nb@[i].0 as int, nb@[i].1 as int),
            forall|dx: int, dy: int|
                #[trigger] moore_step(dx, dy) ==> exists|i: int| 0 <= i < 8 && (#[trigger] nb@[i]).0 == dx && nb@[i].1 == dy,
            forall|i: int|
                0 <= i < n ==> !(fits_i32(pp.0 + nb@[i].0) && fits_i32(pp.1 + nb@[i].1) && solid_type(
                    #[trigger] nb_terrain(*level, pp, nb@[i].0 as int, nb@[i].1 as int),
                ) != 0 && solid_type(nb_terrain(*level, pp, nb@[i].0 as int, nb@[i].1 as int)) != TER_TYPE_ICE),
        decreases 8 - n,
    {
        if let Some(q) = neighbor(p, nb[n]) {
            let tq = ter_at(level, q);
            assert(tq == nb_terrain(*level, pp, nb@[n as int].0 as int, nb@[n as int].1 as int));
            if is_solid(tq) && !is_ice(tq) {
                proof {
                    assert(moore_step(nb@[n as int].0 as int, nb@[n as int].1 as int));
                }
                return true;
            }
        }
        n += 1;
    }
    proof {
        assert forall|dx: int, dy: int|
            moore_step(dx, dy) && fits_i32(pp.0 + dx) && fits_i32(pp.1 + dy) implies !(solid_type(
            #[trigger] nb_terrain(*level, pp, dx, dy),
        ) != 0 && solid_type(nb_terrain(*level, pp, dx, dy)) != TER_TYPE_ICE) by {
            let i = choose|i: int| 0 <= i < 8 && (#[trigger] nb@[i]).0 == dx && nb@[i].1 == dy;
            assert(nb_terrain(*level, pp, nb@[i].0 as int, nb@[i].1 as int) == nb_terrain(*level, pp, dx, dy));
        }
    }
    false
}

/// Is some roundish neighbour of p open space?
fn next_to_space(level: &LevelTerrain, p: (i32, i32)) -> (r: bool)
    requires
        level.wf(),
    ensures
        r == spec_next_to_space(*level, (p.0 as int, p.1 as int)),
{
    let ghost pp = (p.0 as int, p.1 as int);
    let nb = neighbors_roundish();
    let mut n: usize = 0;
    while n < 12
        invariant
            level.wf(),
            n <= 12,
            pp == (p.0 as int, p.1 as int),
            forall|i: int| 0 <= i < 12 ==> roundish_step(#[trigger] nb@[i].0 as int, nb@[i].1 as int),
            forall|dx: int, dy: int|
                #[trigger] roundish_step(dx, dy) ==> exists|i: int| 0 <= i < 12 && (#[trigger] nb@[i]).0 == dx && nb@[i].1 == dy,
            forall|i: int|
                0 <= i < n ==> !(fits_i32(pp.0 + nb@[i].0) && fits_i32(pp.1 + nb@[i].1) && !water_bit(
                    #[trigger] nb_terrain(*level, pp, nb@[i].0 as int, nb@[i].1 as int),
                ) && solid_type(nb_terrain(*level, pp, nb@[i].0 as int, nb@[i].1 as int)) == 0),
        decreases 12 - n,
    {
        if let Some(q) = neighbor(p, nb[n]) {
            let tq = ter_at(level, q);
            assert(tq == nb_terrain(*level, pp, nb@[n as int].0 as int, nb@[n as int].1 as int));
            if is_space(tq) {
                proof {
                    assert(roundish_step(nb@[n as int].0 as int, nb@[n as int].1 as int));
                }
                return true;
            }
        }
        n += 1;
    }
    proof {
        assert forall|dx: int, dy: int|
            roundish_step(dx, dy) && fits_i32(pp.0 + dx) && fits_i32(pp.1 + dy) implies !(!water_bit(
            #[trigger] nb_terrain(*level, pp, dx, dy),
        ) && solid_type(nb_terrain(*level, pp, dx, dy)) == 0) by {
            let i = choose|i: int| 0 <= i < 12 && (#[trigger] nb@[i]).0 == dx && nb@[i].1 == dy;
            assert(nb_terrain(*level, pp, nb@[i].0 as int, nb@[i].1 as int) == nb_terrain(*level, pp, dx, dy));
        }
    }
    false
}

/// Frost freezes its pixel into ice. In open air it spreads as a thin layer hugging
/// solid ground, now and then growing an icicle; underwater it spreads by chance.
fn step_freezer<E: DynterEnv, B: PixelBlend>(
    level: &mut LevelTerrain,
    pos: (i32, i32),
    limit: i32,
    new_cells: &mut DynamicTerrainMap,
    dirty: &mut Vec<(i32, i32)>,
    water_color: u32,
    snow_color: u32,
    env: &mut E,
    blender: &B,
    Ghost(pre): Ghost<LevelTerrain>,
    Ghost(cells): Ghost<Map<u64, DynamicTerrainCell>>,
    Ghost(key): Ghost<u64>,
)
    requires
        edits_tracked(*old(level), pre, old(dirty)@),
        edits_near(*old(level), pre, cells),
        cells.contains_key(key),
        spec_cell_pos(key as int) == (pos.0 as int, pos.1 as int),
        cells_wf(old(new_cells)@),
    ensures
        edits_tracked(*final(level), pre, final(dirty)@),
        edits_near(*final(level), pre, cells),
        cells_wf(final(new_cells)@),
        spawned_into(old(new_cells)@, final(new_cells)@, (DynamicTerrainCell::Freezer { limit }), (pos.0 as int, pos.1 as int)),
        dom_grows(old(new_cells)@, final(new_cells)@),
        frost_grown(*old(level), *final(level)),
        frost_column(*old(level), *final(level), pos.0 as int, pos.1 as int),
        old(level).in_bounds(pos.0 as int, pos.1 as int) && solid_type(old(level).spec_terrain(pos.0 as int, pos.1 as int))
            == 0 ==> final(level).spec_terrain(pos.0 as int, pos.1 as int) == replaced_terrain(
            old(level).spec_terrain(pos.0 as int, pos.1 as int),
            TER_TYPE_ICE,
        ),
        limit <= 0 ==> final(new_cells)@ == old(new_cells)@,
        changed_where(old(new_cells)@, final(new_cells)@, |q: (int, int)| solid_type(ter_of(*old(level), q)) == 0),
{
    proof {
        lemma_solid_types();
    }
    let ghost pre_cells = new_cells@;
    let ghost me = DynamicTerrainCell::Freezer { limit };
    let ghost pp = (pos.0 as int, pos.1 as int);
    let ghost start = *level;
    if !is_solid(ter_at(level, pos)) {
        replace_tracked(level, pos.0, pos.1, TER_TYPE_ICE, snow_color, water_color, blender, dirty, Ghost(pre), Ghost(cells), Ghost(key));
    }
    proof {
        if start.in_bounds(pp.0, pp.1) && solid_type(start.spec_terrain(pp.0, pp.1)) == 0 {
            lemma_frozen(start.spec_terrain(pp.0, pp.1));
        }
    }
    if limit > 0 {
        let nb = neighbors_roundish();
        let mut n: usize = 0;
        while n < 12
            invariant
                edits_tracked(*level, pre, dirty@),
                edits_near(*level, pre, cells),
                cells.contains_key(key),
                spec_cell_pos(key as int) == (pos.0 as int, pos.1 as int),
                cells_wf(new_cells@),
                spawned_into(pre_cells, new_cells@, me, pp),
                dom_grows(pre_cells, new_cells@),
                me == (DynamicTerrainCell::Freezer { limit }),
                pp == (pos.0 as int, pos.1 as int),
                forall|i: int| 0 <= i < 12 ==> roundish_step(#[trigger] nb@[i].0 as int, nb@[i].1 as int),
                frost_grown(start, *level),
                frost_column(start, *level, pp.0, pp.1),
                start.in_bounds(pp.0, pp.1) && solid_type(start.spec_terrain(pp.0, pp.1)) == 0 ==> level.spec_terrain(pp.0, pp.1)
                    == replaced_terrain(start.spec_terrain(pp.0, pp.1), TER_TYPE_ICE),
                changed_where(pre_cells, new_cells@, |q: (int, int)| solid_type(ter_of(start, q)) == 0),
                limit > 0,
                n <= 12,
            decreases 12 - n,
        {
            if let Some(p) = neighbor(pos, nb[n]) {
                let tp = ter_at(level, p);
                proof {
                    lemma_frost_terrain(start, *level, (p.0 as int, p.1 as int));
                }
                if is_space(tp) {
                    if next_to_non_ice_solid(level, p) {
                        let ghost before = new_cells@;
                        spawn_cell(new_cells, p, DynamicTerrainCell::Freezer { limit: limit - 1 }, Ghost(pre_cells), Ghost(me), Ghost(pp));
                        proof {
                            let qn = (p.0 as int, p.1 as int);
                            assert forall|k: u64|
                                #[trigger] new_cells@.contains_key(k) && !(pre_cells.contains_key(k) && new_cells@[k]
                                    == pre_cells[k]) implies solid_type(ter_of(start, spec_cell_pos(k as int))) == 0 by {
                                if k != key_of(qn) {
                                    assert(before.contains_key(k));
                                }
                            }
                        }
                        if env.icicle_chance() {
                            let mut dy: i32 = 1;
                            while dy < 4
                                invariant
                                    edits_tracked(*level, pre, dirty@),
                                    edits_near(*level, pre, cells),
                                    cells.contains_key(key),
                                    spec_cell_pos(key as int) == (pos.0 as int, pos.1 as int),
                                    pp == (pos.0 as int, pos.1 as int),
                                    frost_grown(start, *level),
                                    frost_column(start, *level, pp.0, pp.1),
                                    start.in_bounds(pp.0, pp.1) && solid_type(start.spec_terrain(pp.0, pp.1)) == 0
                                        ==> level.spec_terrain(pp.0, pp.1) == replaced_terrain(
                                        start.spec_terrain(pp.0, pp.1),
                                        TER_TYPE_ICE,
                                    ),
                                    1 <= dy <= 4,
                                decreases 4 - dy,
                            {
                                match neighbor(pos, (0, dy)) {
                                    Some(icepos) => {
                                        if is_space(ter_at(level, icepos)) {
                                            proof {
                                                lemma_solid_types();
                                                lemma_frost_terrain(start, *level, (icepos.0 as int, icepos.1 as int));
                                                if start.in_bounds(icepos.0 as int, icepos.1 as int) {
                                                    lemma_frozen(start.spec_terrain(icepos.0 as int, icepos.1 as int));
                                                }
                                            }
                                            replace_tracked(level, icepos.0, icepos.1, TER_TYPE_ICE, snow_color, water_color, blender, dirty, Ghost(pre), Ghost(cells), Ghost(key));
                                        } else {
                                            break;
                                        }
                                    },
                                    None => {
                                        break;
                                    },
                                }
                                dy += 1;
                            }
                        }
                    }
                } else if is_water(tp) {
                    if env.spread_chance(limit) {
                        let ghost before = new_cells@;
                        spawn_cell(new_cells, p, DynamicTerrainCell::Freezer { limit: limit - 3 }, Ghost(pre_cells), Ghost(me), Ghost(pp));
                        proof {
                            let qn = (p.0 as int, p.1 as int);
                            assert forall|k: u64|
                                #[trigger] new_cells@.contains_key(k) && !(pre_cells.contains_key(k) && new_cells@[k]
                                    == pre_cells[k]) implies solid_type(ter_of(start, spec_cell_pos(k as int))) == 0 by {
                                if k != key_of(qn) {
                                    assert(before.contains_key(k));
                                }
                            }
                        }
                    }
                }
            }
            n += 1;
        }
    }
}

/// Toxic sludge turns its pixel into damaging terrain and creeps along destructible
/// surfaces that border open space (bases are immune)
fn step_toxin<B: PixelBlend>(
    level: &mut LevelTerrain,
    pos: (i32, i32),
    limit: i32,
    new_cells: &mut DynamicTerrainMap,
    dirty: &mut Vec<(i32, i32)>,
    water_color: u32,
    blender: &B,
    Ghost(pre): Ghost<LevelTerrain>,
    Ghost(cells): Ghost<Map<u64, DynamicTerrainCell>>,
    Ghost(key): Ghost<u64>,
)
    requires
        edits_tracked(*old(level), pre, old(dirty)@),
        edits_near(*old(level), pre, cells),
        cells.contains_key(key),
        spec_cell_pos(key as int) == (pos.0 as int, pos.1 as int),
        cells_wf(old(new_cells)@),
    ensures
        edits_tracked(*final(level), pre, final(dirty)@),
        edits_near(*final(level), pre, cells),
        cells_wf(final(new_cells)@),
        spawned_into(old(new_cells)@, final(new_cells)@, (DynamicTerrainCell::Toxin { limit }), (pos.0 as int, pos.1 as int)),
        dom_grows(old(new_cells)@, final(new_cells)@),
        pixel_replaced(*old(level), *final(level), pos.0 as int, pos.1 as int, TER_TYPE_DAMAGE),
        artwork_replaced(*old(level), *final(level), pos.0 as int, pos.1 as int, TER_TYPE_DAMAGE, TOXIN_COLOR, water_color),
        limit <= 0 ==> final(new_cells)@ == old(new_cells)@,
        changed_where(old(new_cells)@, final(new_cells)@, |q: (int, int)| toxin_target(*final(level), q)),
        limit > 0 ==> forall|dx: int, dy: int|
            #[trigger] von_neumann_step(dx, dy) && fits_pos((pos.0 + dx, pos.1 + dy)) && toxin_target(
                *final(level),
                (pos.0 + dx, pos.1 + dy),
            ) ==> final(new_cells)@.contains_key(key_of((pos.0 + dx, pos.1 + dy))) && final(new_cells)@[key_of(
                (pos.0 + dx, pos.1 + dy),
            )] == (DynamicTerrainCell::Toxin { limit: (limit - 1) as i32 }),
{
    proof {
        lemma_solid_types();
    }
    let ghost pre_cells = new_cells@;
    let ghost me = DynamicTerrainCell::Toxin { limit };
    let ghost pp = (pos.0 as int, pos.1 as int);
    replace_tracked(level, pos.0, pos.1, TER_TYPE_DAMAGE, TOXIN_COLOR, water_color, blender, dirty, Ghost(pre), Ghost(cells), Ghost(key));
    let ghost mid = *level;
    if limit > 0 {
        let nb = neighbors4();
        let mut n: usize = 0;
        while n < 4
            invariant
                edits_tracked(*level, pre, dirty@),
                edits_near(*level, pre, cells),
                cells.contains_key(key),
                spec_cell_pos(key as int) == (pos.0 as int, pos.1 as int),
                cells_wf(new_cells@),
                spawned_into(pre_cells, new_cells@, me, pp),
                dom_grows(pre_cells, new_cells@),
                me == (DynamicTerrainCell::Toxin { limit }),
                pp == (pos.0 as int, pos.1 as int),
                forall|i: int| 0 <= i < 4 ==> von_neumann_step(#[trigger] nb@[i].0 as int, nb@[i].1 as int),
                forall|i: int, j: int| 0 <= i < j < 4 ==> nb@[i] != nb@[j],
                *level == mid,
                changed_where(pre_cells, new_cells@, |q: (int, int)| toxin_target(mid, q)),
                forall|i: int|
                    0 <= i < n && fits_pos(offset(pp, #[trigger] nb@[i])) && toxin_target(mid, offset(pp, nb@[i]))
                        ==> new_cells@.contains_key(key_of(offset(pp, nb@[i]))) && new_cells@[key_of(offset(pp, nb@[i]))]
                        == (DynamicTerrainCell::Toxin { limit: (limit - 1) as i32 }),
                limit > 0,
                n <= 4,
            decreases 4 - n,
        {
            let ghost before = new_cells@;
            if let Some(p) = neighbor(pos, nb[n]) {
                let tp = ter_at(level, p);
                if is_destructible(tp) && !is_damaging(tp) && !is_effective_base(tp) {
                    if next_to_space(level, p) {
                        spawn_cell(new_cells, p, DynamicTerrainCell::Toxin { limit: limit - 1 }, Ghost(pre_cells), Ghost(me), Ghost(pp));
                        proof {
                            let qn = (p.0 as int, p.1 as int);
                            assert(qn == offset(pp, nb@[n as int]));
                            assert forall|k: u64|
                                #[trigger] new_cells@.contains_key(k) && !(pre_cells.contains_key(k) && new_cells@[k]
                                    == pre_cells[k]) implies toxin_target(mid, spec_cell_pos(k as int)) by {
                                if k != key_of(qn) {
                                    assert(before.contains_key(k));
                                }
                            }
                            assert forall|i: int|
                                0 <= i <= n && fits_pos(offset(pp, #[trigger] nb@[i])) && toxin_target(mid, offset(pp, nb@[i]))
                                    implies new_cells@.contains_key(key_of(offset(pp, nb@[i]))) && new_cells@[key_of(
                                offset(pp, nb@[i]),
                            )] == (DynamicTerrainCell::Toxin { limit: (limit - 1) as i32 }) by {
                                if i < n {
                                    lemma_key_of(offset(pp, nb@[i]));
                                    assert(nb@[i] != nb@[n as int]);
                                    assert(key_of(offset(pp, nb@[i])) != key_of(qn));
                                }
                            }
                        }
                    }
                }
            }
            n += 1;
        }
        proof {
            assert forall|dx: int, dy: int|
                #[trigger] von_neumann_step(dx, dy) && fits_pos((pos.0 + dx, pos.1 + dy)) && toxin_target(
                    *level,
                    (pos.0 + dx, pos.1 + dy),
                ) implies new_cells@.contains_key(key_of((pos.0 + dx, pos.1 + dy))) && new_cells@[key_of(
                (pos.0 + dx, pos.1 + dy),
            )] == (DynamicTerrainCell::Toxin { limit: (limit - 1) as i32 }) by {
                let i = choose|i: int| 0 <= i < 4 && (#[trigger] nb@[i]).0 == dx && nb@[i].1 == dy;
                assert(offset(pp, nb@[i]) == (pos.0 + dx, pos.1 + dy));
            }
        }
    }
}

proof fn lemma_sand_terrain(t: Terrain)
    ensures
        (t & (TER_MASK_SOLID | TER_BIT_DYNAMIC)) & !(TER_MASK_SOLID | TER_BIT_DYNAMIC) == 0,
{
    assert((t & (0x1fu8 | 0x20u8)) & !(0x1fu8 | 0x20u8) == 0) by (bit_vector);
}

/// The loosening wave turns a dynamic pixel into a falling sand grain and moves on
/// to the dynamic neighbours not yet loosened
fn step_loosening_sand(
    level: &LevelTerrain,
    pos: (i32, i32),
    old_cells: &DynamicTerrainMap,
    new_cells: &mut DynamicTerrainMap,
)
    requires
        level.wf(),
        cells_wf(old(new_cells)@),
    ensures
        cells_wf(final(new_cells)@),
        spawned_into(old(new_cells)@, final(new_cells)@, DynamicTerrainCell::LooseningSand, (pos.0 as int, pos.1 as int)),
        dom_grows(old(new_cells)@, final(new_cells)@),
        cells_kept(old(new_cells)@, final(new_cells)@),
        dynamic_bit(ter_of(*level, (pos.0 as int, pos.1 as int))) && !old(new_cells)@.contains_key(
            key_of((pos.0 as int, pos.1 as int)),
        ) ==> final(new_cells)@.contains_key(key_of((pos.0 as int, pos.1 as int))) && final(new_cells)@[key_of(
            (pos.0 as int, pos.1 as int),
        )] == loosened_sand(*level, (pos.0 as int, pos.1 as int)),
        changed_where(
            old(new_cells)@,
            final(new_cells)@,
            |q: (int, int)| dynamic_bit(ter_of(*level, q)) && (q == (pos.0 as int, pos.1 as int) || !old_cells@.contains_key(key_of(q))),
        ),
        forall|dx: int, dy: int|
            #[trigger] moore_step(dx, dy) && fits_pos((pos.0 + dx, pos.1 + dy)) && dynamic_bit(
                ter_of(*level, (pos.0 + dx, pos.1 + dy)),
            ) && !old_cells@.contains_key(key_of((pos.0 + dx, pos.1 + dy))) && !old(new_cells)@.contains_key(
                key_of((pos.0 + dx, pos.1 + dy)),
            ) ==> final(new_cells)@.contains_key(key_of((pos.0 + dx, pos.1 + dy))) && final(new_cells)@[key_of(
                (pos.0 + dx, pos.1 + dy),
            )] == DynamicTerrainCell::LooseningSand,
{
    let ghost pre_cells = new_cells@;
    let ghost me = DynamicTerrainCell::LooseningSand;
    let ghost pp = (pos.0 as int, pos.1 as int);
    let ghost dyn_here = |q: (int, int)| dynamic_bit(ter_of(*level, q)) && (q == pp || !old_cells@.contains_key(key_of(q)));
    proof {
        lemma_key_of(pp);
    }
    let t = ter_at(level, pos);
    if is_dynamic(t) && !has_cell(new_cells, pos) {
        let color = level.pixel_at_lc(pos.0, pos.1);
        proof {
            lemma_sand_terrain(t);
        }
        spawn_cell(
            new_cells,
            pos,
            DynamicTerrainCell::Sand {
                terrain: t & (TER_MASK_SOLID | TER_BIT_DYNAMIC),
                solidify: SAND_SOLIDIFY_FRAMES,
                color,
            },
            Ghost(pre_cells),
            Ghost(me),
            Ghost(pp),
        );
        assert(new_cells@[key_of(pp)] == loosened_sand(*level, pp));
    }
    let ghost first = new_cells@;
    proof {
        if dynamic_bit(ter_of(*level, pp)) && !pre_cells.contains_key(key_of(pp)) {
            assert(first.contains_key(key_of(pp)) && first[key_of(pp)] == loosened_sand(*level, pp));
        }
        assert forall|k: u64| #[trigger] pre_cells.contains_key(k) implies new_cells@.contains_key(k) && new_cells@[k]
            == pre_cells[k] by {
            if k == key_of(pp) {
                assert(pre_cells.contains_key(key_of(pp)));
            }
        }
        assert forall|k: u64|
            #[trigger] new_cells@.contains_key(k) && !(pre_cells.contains_key(k) && new_cells@[k] == pre_cells[k]) implies dyn_here(
            spec_cell_pos(k as int),
        ) by {
            if k != key_of(pp) {
                assert(pre_cells.contains_key(k));
            }
        }
    }
    let nb = neighbors8();
    let mut n: usize = 0;
    while n < 8
        invariant
            level.wf(),
            cells_wf(new_cells@),
            spawned_into(pre_cells, new_cells@, me, pp),
            dom_grows(pre_cells, new_cells@),
            me == DynamicTerrainCell::LooseningSand,
            pp == (pos.0 as int, pos.1 as int),
            forall|i: int| 0 <= i < 8 ==> moore_step(#[trigger] nb@[i].0 as int, nb@[i].1 as int),
            forall|dx: int, dy: int|
                #[trigger] moore_step(dx, dy) ==> exists|i: int| 0 <= i < 8 && (#[trigger] nb@[i]).0 == dx && nb@[i].1 == dy,
            cells_kept(first, new_cells@),
            cells_kept(pre_cells, first),
            changed_where(pre_cells, first, dyn_here),
            forall|k: u64|
                #[trigger] new_cells@.contains_key(k) && !first.contains_key(k) ==> new_cells@[k] == DynamicTerrainCell::LooseningSand
                    && dynamic_bit(ter_of(*level, spec_cell_pos(k as int))) && !old_cells@.contains_key(key_of(spec_cell_pos(k as int))),
            dyn_here == (|q: (int, int)| dynamic_bit(ter_of(*level, q)) && (q == pp || !old_cells@.contains_key(key_of(q)))),
            spec_cell_pos(key_of(pp) as int) == pp,
            forall|i: int|
                0 <= i < n && fits_pos(offset(pp, #[trigger] nb@[i])) && dynamic_bit(ter_of(*level, offset(pp, nb@[i])))
                    && !old_cells@.contains_key(key_of(offset(pp, nb@[i]))) && !first.contains_key(key_of(offset(pp, nb@[i])))
                    ==> new_cells@.contains_key(key_of(offset(pp, nb@[i]))) && new_cells@[key_of(offset(pp, nb@[i]))]
                    == DynamicTerrainCell::LooseningSand,
            n <= 8,
        decreases 8 - n,
    {
        let ghost before = new_cells@;
        if let Some(p) = neighbor(pos, nb[n]) {
            let tp = ter_at(level, p);
            if is_dynamic(tp) && !has_cell(new_cells, p) && !has_cell(old_cells, p) {
                spawn_cell(new_cells, p, DynamicTerrainCell::LooseningSand, Ghost(pre_cells), Ghost(me), Ghost(pp));
                proof {
                    let qn = (p.0 as int, p.1 as int);
                    assert(qn == offset(pp, nb@[n as int]));
                    assert forall|k: u64| #[trigger] first.contains_key(k) implies new_cells@.contains_key(k)
                        && new_cells@[k] == first[k] by {
                        assert(before.contains_key(k));
                    }
                    assert forall|k: u64|
                        #[trigger] new_cells@.contains_key(k) && !first.contains_key(k) implies new_cells@[k]
                            == DynamicTerrainCell::LooseningSand && dynamic_bit(ter_of(*level, spec_cell_pos(k as int)))
                            && !old_cells@.contains_key(key_of(spec_cell_pos(k as int))) by {
                        if k != key_of(qn) {
                            assert(before.contains_key(k));
                        }
                    }
                }
            }
        }
        n += 1;
    }
    proof {
        if dynamic_bit(ter_of(*level, pp)) && !pre_cells.contains_key(key_of(pp)) {
            assert(first.contains_key(key_of(pp)));
        }
        assert forall|k: u64| #[trigger] pre_cells.contains_key(k) implies new_cells@.contains_key(k) && new_cells@[k]
            == pre_cells[k] by {
            assert(first.contains_key(k));
        }
        assert forall|k: u64|
            #[trigger] new_cells@.contains_key(k) && !(pre_cells.contains_key(k) && new_cells@[k] == pre_cells[k]) implies dyn_here(
            spec_cell_pos(k as int),
        ) by {
            if first.contains_key(k) {
                assert(new_cells@[k] == first[k]);
            }
        }
        assert forall|dx: int, dy: int|
            #[trigger] moore_step(dx, dy) && fits_pos((pos.0 + dx, pos.1 + dy)) && dynamic_bit(
                ter_of(*level, (pos.0 + dx, pos.1 + dy)),
            ) && !old_cells@.contains_key(key_of((pos.0 + dx, pos.1 + dy))) && !pre_cells.contains_key(
                key_of((pos.0 + dx, pos.1 + dy)),
            ) implies new_cells@.contains_key(key_of((pos.0 + dx, pos.1 + dy))) && new_cells@[key_of(
            (pos.0 + dx, pos.1 + dy),
        )] == DynamicTerrainCell::LooseningSand by {
            let i = choose|i: int| 0 <= i < 8 && (#[trigger] nb@[i]).0 == dx && nb@[i].1 == dy;
            assert(offset(pp, nb@[i]) == (pos.0 + dx, pos.1 + dy));
            lemma_key_of((pos.0 + dx, pos.1 + dy));
            assert(key_of((pos.0 + dx, pos.1 + dy)) != key_of(pp));
        }
    }
}

/// A sand grain that still lies where it was falls to the first open pixel below
/// it (straight down first, then diagonally); otherwise it settles a little more.
/// A grain whose pixel changed under it, or that has settled, is dropped.
fn step_sand<B: PixelBlend>(
    level: &mut LevelTerrain,
    pos: (i32, i32),
    terrain: Terrain,
    solidify: i32,
    color: u32,
    new_cells: &mut DynamicTerrainMap,
    dirty: &mut Vec<(i32, i32)>,
    water_color: u32,
    blender: &B,
    Ghost(pre): Ghost<LevelTerrain>,
    Ghost(cells): Ghost<Map<u64, DynamicTerrainCell>>,
    Ghost(key): Ghost<u64>,
)
    requires
        edits_tracked(*old(level), pre, old(dirty)@),
        edits_near(*old(level), pre, cells),
        cells.contains_key(key),
        spec_cell_pos(key as int) == (pos.0 as int, pos.1 as int),
        cells_wf(old(new_cells)@),
        terrain & !(TER_MASK_SOLID | TER_BIT_DYNAMIC) == 0,
    ensures
        edits_tracked(*final(level), pre, final(dirty)@),
        edits_near(*final(level), pre, cells),
        cells_wf(final(new_cells)@),
        spawned_into(
            old(new_cells)@,
            final(new_cells)@,
            (DynamicTerrainCell::Sand { terrain, solidify, color }),
            (pos.0 as int, pos.1 as int),
        ),
        dom_grows(old(new_cells)@, final(new_cells)@),
        !sand_in_place(*old(level), (pos.0 as int, pos.1 as int), terrain, solidify) ==> *final(level) == *old(level)
            && final(dirty)@ == old(dirty)@ && final(new_cells)@ == old(new_cells)@,
        sand_in_place(*old(level), (pos.0 as int, pos.1 as int), terrain, solidify) && first_flow(
            *old(level),
            (pos.0 as int, pos.1 as int),
        ) == 5 ==> *final(level) == *old(level) && final(dirty)@ == old(dirty)@ && final(new_cells)@
            == old(new_cells)@.insert(
            key_of((pos.0 as int, pos.1 as int)),
            DynamicTerrainCell::Sand { terrain, solidify: (solidify - 1) as i32, color },
        ),
        sand_in_place(*old(level), (pos.0 as int, pos.1 as int), terrain, solidify) && first_flow(
            *old(level),
            (pos.0 as int, pos.1 as int),
        ) < 5 ==> {
            let q = offset((pos.0 as int, pos.1 as int), flow_offset(first_flow(*old(level), (pos.0 as int, pos.1 as int))));
            &&& final(new_cells)@ == old(new_cells)@.insert(key_of(q), DynamicTerrainCell::Sand { terrain, solidify, color })
            &&& exists|mid: LevelTerrain|
                #[trigger] pixel_replaced(*old(level), mid, pos.0 as int, pos.1 as int, 0) && artwork_replaced(
                    *old(level),
                    mid,
                    pos.0 as int,
                    pos.1 as int,
                    0,
                    0,
                    water_color,
                ) && pixel_replaced(mid, *final(level), q.0, q.1, terrain) && artwork_replaced(
                    mid,
                    *final(level),
                    q.0,
                    q.1,
                    terrain,
                    color,
                    water_color,
                )
        },
{
    proof {
        lemma_solid_types();
    }
    let ghost pre_cells = new_cells@;
    let ghost me = DynamicTerrainCell::Sand { terrain, solidify, color };
    let ghost pp = (pos.0 as int, pos.1 as int);
    let ghost start = *level;
    if solidify > 0 && ter_at(level, pos) & (TER_MASK_SOLID | TER_BIT_DYNAMIC) == terrain {
        let flow = sand_flow();
        let mut n: usize = 0;
        while n < 5
            invariant
                edits_tracked(*level, pre, dirty@),
                edits_near(*level, pre, cells),
                cells.contains_key(key),
                spec_cell_pos(key as int) == (pos.0 as int, pos.1 as int),
                cells_wf(new_cells@),
                new_cells@ == pre_cells,
                pre_cells == old(new_cells)@,
                me == (DynamicTerrainCell::Sand { terrain, solidify, color }),
                pp == (pos.0 as int, pos.1 as int),
                forall|i: int| 0 <= i < 5 ==> sand_step(#[trigger] flow@[i].0 as int, flow@[i].1 as int),
                forall|i: int| 0 <= i < 5 ==> #[trigger] flow@[i] == flow_offset(i),
                terrain & !(TER_MASK_SOLID | TER_BIT_DYNAMIC) == 0,
                solidify > 0,
                *level == start,
                start == *old(level),
                dirty@ == old(dirty)@,
                sand_in_place(start, pp, terrain, solidify),
                forall|i: int| 0 <= i < n ==> !#[trigger] flow_open(start, pp, i),
                n <= 5,
            decreases 5 - n,
        {
            if let Some(p) = neighbor(pos, flow[n]) {
                if !is_solid(ter_at(level, p)) {
                    proof {
                        lemma_solid_types();
                        assert(flow_open(start, pp, n as int));
                        assert(first_flow(start, pp) == n);
                    }
                    replace_tracked(level, pos.0, pos.1, 0, 0, water_color, blender, dirty, Ghost(pre), Ghost(cells), Ghost(key));
                    let ghost mid = *level;
                    replace_tracked(level, p.0, p.1, terrain, color, water_color, blender, dirty, Ghost(pre), Ghost(cells), Ghost(key));
                    spawn_cell(new_cells, p, DynamicTerrainCell::Sand { terrain, solidify, color }, Ghost(pre_cells), Ghost(me), Ghost(pp));
                    proof {
                        assert(pixel_replaced(start, mid, pos.0 as int, pos.1 as int, 0));
                    }
                    return;
                }
            }
            n += 1;
        }
        proof {
            assert(!flow_open(start, pp, 0) && !flow_open(start, pp, 1) && !flow_open(start, pp, 2) && !flow_open(start, pp, 3)
                && !flow_open(start, pp, 4));
        }
        spawn_cell(new_cells, pos, DynamicTerrainCell::Sand { terrain, solidify: solidify - 1, color }, Ghost(pre_cells), Ghost(me), Ghost(pp));
    }
}

/// Add a new dynamic terrain cell at level pixel (x, y), replacing any cell there.
/// A cell that destroys ground is not started on indestructible solid terrain.
/// Returns whether the cell was added.
pub fn add_dynterrain(level: &LevelTerrain, cells: &mut DynamicTerrainMap, x: i32, y: i32, cell: DynamicTerrainCell) -> (added: bool)
    requires
        level.wf(),
        cells_wf(old(cells)@),
        cell_wf(cell),
    ensures
        cells_wf(final(cells)@),
        added == (!(cell is GreyGoo || cell is Nitro || cell is Fire) || !(solid_type(level.spec_terrain_at(x as int, y as int)) != 0
            && !destructible_bit(level.spec_terrain_at(x as int, y as int)))),
        final(cells)@ == if added {
            old(cells)@.insert(spec_cell_key(x as int, y as int) as u64, cell)
        } else {
            old(cells)@
        },
{
    if !cell.destroys_ground() || !is_indestructible_solid(level.terrain_at_lc(x, y)) {
        insert_cell(cells, cell_key(x, y), cell);
        true
    } else {
        false
    }
}

/// The cells one old cell puts into the next step keep every cell of the next step
/// accounted for
proof fn lemma_spawned_step(
    cells: Map<u64, DynamicTerrainCell>,
    before: Map<u64, DynamicTerrainCell>,
    after: Map<u64, DynamicTerrainCell>,
    key: u64,
    pos: (i32, i32),
)
    requires
        cells.contains_key(key),
        spec_cell_key(pos.0 as int, pos.1 as int) == key,
        next_cells_ok(cells, before),
        spawned_into(before, after, cells[key], (pos.0 as int, pos.1 as int)),
    ensures
        next_cells_ok(cells, after),
{
    lemma_cell_pos(pos.0 as int, pos.1 as int);
    assert forall|k: u64| #[trigger] after.contains_key(k) implies exists|k0: u64|
        #[trigger] cells.contains_key(k0) && spawns(cells[k0], spec_cell_pos(k0 as int), after[k], spec_cell_pos(k as int)) by {
        if before.contains_key(k) && after[k] == before[k] {
            assert(before.contains_key(k));
        } else {
            assert(cells.contains_key(key) && spawns(cells[key], spec_cell_pos(key as int), after[k], spec_cell_pos(k as int)));
        }
    }
}

/// What one cell at pixel p does when it acts: `pre` and `m0` are the level and the
/// cells of the next step collected so far, `post` and `m` the level and cells after
/// it acted (`olds` is the map of cells of this step). Where chance decides (foam
/// and frost spreading, icicles, colours), every outcome is allowed.
pub open spec fn acts_by_rule(
    pre: LevelTerrain,
    post: LevelTerrain,
    p: (int, int),
    c: DynamicTerrainCell,
    m0: Map<u64, DynamicTerrainCell>,
    m: Map<u64, DynamicTerrainCell>,
    water_color: u32,
    olds: Map<u64, DynamicTerrainCell>,
) -> bool {
    match c {
        DynamicTerrainCell::Foam { limit } => {
            &&& pixel_replaced(pre, post, p.0, p.1, TER_TYPE_GROUND)
            &&& cells_kept(m0, m)
            &&& limit <= 0 ==> m == m0
            &&& changed_where(m0, m, |q: (int, int)| solid_type(ter_of(post, q)) == 0)
        },
        DynamicTerrainCell::GreyGoo { counter, limit } => {
            &&& counter > 0 ==> pixel_replaced(pre, post, p.0, p.1, TER_TYPE_GREYGOO)
            &&& counter > 0 ==> m == m0.insert(key_of(p), DynamicTerrainCell::GreyGoo { counter: (counter - 1) as i32, limit })
            &&& counter <= 0 ==> pixel_replaced(pre, post, p.0, p.1, 0)
            &&& counter <= 0 ==> artwork_replaced(pre, post, p.0, p.1, 0, 0, water_color)
            &&& counter <= 0 && limit <= 0 ==> m == m0
            &&& counter <= 0 ==> changed_where(m0, m, |q: (int, int)| goo_edible(ter_of(post, q)))
            &&& counter <= 0 && limit > 0 ==> forall|dx: int, dy: int|
                #[trigger] von_neumann_step(dx, dy) && fits_pos((p.0 + dx, p.1 + dy)) && goo_edible(
                    ter_of(post, (p.0 + dx, p.1 + dy)),
                ) ==> goo_spawned_at(m, (p.0 + dx, p.1 + dy), limit as int)
        },
        DynamicTerrainCell::Nitro { counter, limit } => {
            &&& counter > 0 ==> post == pre
            &&& counter > 0 ==> m == m0.insert(key_of(p), DynamicTerrainCell::Nitro { counter: (counter - 1) as i32, limit })
            &&& counter <= 0 ==> pixel_replaced(pre, post, p.0, p.1, TER_TYPE_HIGH_EXPLOSIVE)
            &&& counter <= 0 ==> artwork_replaced(pre, post, p.0, p.1, TER_TYPE_HIGH_EXPLOSIVE, NITRO_COLOR, water_color)
            &&& counter <= 0 ==> cells_kept(m0, m)
            &&& counter <= 0 && limit <= 0 ==> m == m0
            &&& counter <= 0 ==> changed_where(m0, m, |q: (int, int)| nitro_soakable(ter_of(post, q)))
            &&& counter <= 0 && limit > 0 ==> forall|dx: int, dy: int|
                #[trigger] roundish_step(dx, dy) && fits_pos((p.0 + dx, p.1 + dy)) && nitro_soakable(
                    ter_of(post, (p.0 + dx, p.1 + dy)),
                ) && !m0.contains_key(key_of((p.0 + dx, p.1 + dy))) ==> nitro_spawned_at(m, (p.0 + dx, p.1 + dy), limit as int)
        },
        DynamicTerrainCell::Fire { counter, cinder } => {
            &&& counter > 0 ==> pixel_replaced(pre, post, p.0, p.1, TER_TYPE_DAMAGE)
            &&& counter <= 0 && cinder ==> pixel_replaced(pre, post, p.0, p.1, TER_TYPE_GROUND)
            &&& counter <= 0 && !cinder ==> pixel_replaced(pre, post, p.0, p.1, 0)
            &&& counter <= 0 && !cinder ==> artwork_replaced(pre, post, p.0, p.1, 0, 0, water_color)
            &&& counter != 30 ==> m == if counter > 0 {
                m0.insert(key_of(p), DynamicTerrainCell::Fire { counter: (counter - 1) as i32, cinder })
            } else {
                m0
            }
            &&& counter == 30 ==> m.contains_key(key_of(p)) && m[key_of(p)] == (DynamicTerrainCell::Fire { counter: 29, cinder })
            &&& counter == 30 ==> cells_kept(m0.remove(key_of(p)), m)
            &&& counter == 30 ==> changed_where(m0, m, |q: (int, int)| q == p || fire_fuel(ter_of(pre, q)))
            &&& counter == 30 ==> forall|dx: int, dy: int|
                #[trigger] roundish_step(dx, dy) && fits_pos((p.0 + dx, p.1 + dy)) && fire_fuel(ter_of(pre, (p.0 + dx, p.1 + dy)))
                    && !m0.contains_key(key_of((p.0 + dx, p.1 + dy))) ==> fire_spawned_at(
                    m,
                    (p.0 + dx, p.1 + dy),
                    ter_of(pre, (p.0 + dx, p.1 + dy)),
                )
        },
        DynamicTerrainCell::Freezer { limit } => {
            &&& frost_grown(pre, post)
            &&& frost_column(pre, post, p.0, p.1)
            &&& pre.in_bounds(p.0, p.1) && solid_type(pre.spec_terrain(p.0, p.1)) == 0 ==> post.spec_terrain(p.0, p.1)
                == replaced_terrain(pre.spec_terrain(p.0, p.1), TER_TYPE_ICE)
            &&& limit <= 0 ==> m == m0
            &&& changed_where(m0, m, |q: (int, int)| solid_type(ter_of(pre, q)) == 0)
        },
        DynamicTerrainCell::Toxin { limit } => {
            &&& pixel_replaced(pre, post, p.0, p.1, TER_TYPE_DAMAGE)
            &&& artwork_replaced(pre, post, p.0, p.1, TER_TYPE_DAMAGE, TOXIN_COLOR, water_color)
            &&& limit <= 0 ==> m == m0
            &&& changed_where(m0, m, |q: (int, int)| toxin_target(post, q))
            &&& limit > 0 ==> forall|dx: int, dy: int|
                #[trigger] von_neumann_step(dx, dy) && fits_pos((p.0 + dx, p.1 + dy)) && toxin_target(post, (p.0 + dx, p.1 + dy))
                    ==> m.contains_key(key_of((p.0 + dx, p.1 + dy))) && m[key_of((p.0 + dx, p.1 + dy))]
                    == (DynamicTerrainCell::Toxin { limit: (limit - 1) as i32 })
        },
        DynamicTerrainCell::LooseningSand => {
            &&& post == pre
            &&& cells_kept(m0, m)
            &&& dynamic_bit(ter_of(pre, p)) && !m0.contains_key(key_of(p)) ==> m.contains_key(key_of(p)) && m[key_of(p)]
                == loosened_sand(pre, p)
            &&& changed_where(m0, m, |q: (int, int)| dynamic_bit(ter_of(pre, q)) && (q == p || !olds.contains_key(key_of(q))))
            &&& forall|dx: int, dy: int|
                #[trigger] moore_step(dx, dy) && fits_pos((p.0 + dx, p.1 + dy)) && dynamic_bit(ter_of(pre, (p.0 + dx, p.1 + dy)))
                    && !olds.contains_key(key_of((p.0 + dx, p.1 + dy))) && !m0.contains_key(key_of((p.0 + dx, p.1 + dy)))
                    ==> m.contains_key(key_of((p.0 + dx, p.1 + dy))) && m[key_of((p.0 + dx, p.1 + dy))]
                    == DynamicTerrainCell::LooseningSand
        },
        DynamicTerrainCell::Sand { terrain, solidify, color } => {
            &&& !sand_in_place(pre, p, terrain, solidify) ==> post == pre && m == m0
            &&& sand_in_place(pre, p, terrain, solidify) && first_flow(pre, p) == 5 ==> post == pre && m == m0.insert(
                key_of(p),
                DynamicTerrainCell::Sand { terrain, solidify: (solidify - 1) as i32, color },
            )
            &&& sand_in_place(pre, p, terrain, solidify) && first_flow(pre, p) < 5 ==> {
                let q = offset(p, flow_offset(first_flow(pre, p)));
                &&& m == m0.insert(key_of(q), DynamicTerrainCell::Sand { terrain, solidify, color })
                &&& exists|mid: LevelTerrain|
                    #[trigger] pixel_replaced(pre, mid, p.0, p.1, 0) && artwork_replaced(pre, mid, p.0, p.1, 0, 0, water_color)
                        && pixel_replaced(mid, post, q.0, q.1, terrain) && artwork_replaced(mid, post, q.0, q.1, terrain, color, water_color)
            }
        },
    }
}

/// The cells of a step, taken in `order`, act one after another by their rules:
/// cell `order[i]` turns level `levels[i]` and collected cells `maps[i]` into
/// `levels[i + 1]` and `maps[i + 1]`, starting from level `pre` and no cells and
/// ending with level `post` and cells `next`. `order` holds each cell of `olds` once.
pub open spec fn acts_in_order(
    olds: Map<u64, DynamicTerrainCell>,
    pre: LevelTerrain,
    post: LevelTerrain,
    next: Map<u64, DynamicTerrainCell>,
    order: Seq<u64>,
    levels: Seq<LevelTerrain>,
    maps: Seq<Map<u64, DynamicTerrainCell>>,
    water_color: u32,
) -> bool {
    &&& order.len() == olds.len()
    &&& forall|k: u64| olds.contains_key(k) <==> #[trigger] order.contains(k)
    &&& levels.len() == order.len() + 1
    &&& maps.len() == order.len() + 1
    &&& levels[0] == pre
    &&& maps[0] == Map::<u64, DynamicTerrainCell>::empty()
    &&& levels[order.len() as int] == post
    &&& maps[order.len() as int] == next
    &&& forall|i: int|
        #![trigger order[i]]
        0 <= i < order.len() ==> acts_by_rule(
            levels[i],
            levels[i + 1],
            spec_cell_pos(order[i] as int),
            olds[order[i]],
            maps[i],
            maps[i + 1],
            water_color,
            olds,
        )
}

/// Does cell c stay in the next step whatever the cells around it do: grey goo,
/// nitro or fire whose counter still runs
pub open spec fn keeps_its_place(c: DynamicTerrainCell) -> bool {
    match c {
        DynamicTerrainCell::GreyGoo { counter, .. } => counter > 0,
        DynamicTerrainCell::Nitro { counter, .. } => counter > 0,
        DynamicTerrainCell::Fire { counter, .. } => counter > 0,
        _ => false,
    }
}

/// Perform one dynamic terrain simulation step (a fixed 60 steps per second).
///
/// Every cell of `old_cells` acts on the level in turn and the cells of the next
/// step are collected into a new map, which is returned with the tiles whose
/// artwork changed. Each cell of the next step is one that a cell of this step
/// can put there by its rule ([`spawns`]), and every level pixel that changes is
/// within reach of a cell of this step ([`edit_reach`]).
pub fn step_dynterrain<E: DynterEnv, B: PixelBlend>(
    level: &mut LevelTerrain,
    old_cells: &DynamicTerrainMap,
    water_color: u32,
    snow_color: u32,
    env: &mut E,
    blender: &B,
) -> (res: (DynamicTerrainMap, Vec<(i32, i32)>))
    requires
        old(level).wf(),
        cells_wf(old_cells@),
    ensures
        edits_tracked(*final(level), *old(level), res.1@),
        cells_wf(res.0@),
        next_cells_ok(old_cells@, res.0@),
        edits_near(*final(level), *old(level), old_cells@),
        old_cells@.is_empty() ==> res.0@.is_empty() && *final(level) == *old(level) && res.1@.len() == 0,
        forall|k: u64| #[trigger] old_cells@.contains_key(k) && keeps_its_place(old_cells@[k]) ==> res.0@.contains_key(k),
        exists|order: Seq<u64>, levels: Seq<LevelTerrain>, maps: Seq<Map<u64, DynamicTerrainCell>>|
            #[trigger] acts_in_order(old_cells@, *old(level), *final(level), res.0@, order, levels, maps, water_color),
{
    let ghost pre = *level;
    let mut new_cells: DynamicTerrainMap = HashMap::new();
    let mut dirty: Vec<(i32, i32)> = Vec::new();
    if old_cells.is_empty() {
        proof {
            assert(acts_in_order(old_cells@, pre, *level, new_cells@, Seq::empty(), seq![pre], seq![Map::empty()], water_color));
        }
        return (new_cells, dirty);
    }
    proof {
        assert(edits_tracked(*level, pre, dirty@));
        assert(edits_near(*level, pre, old_cells@));
    }
    let ghost mut steps: int = 0;
    let ghost mut order: Seq<u64> = Seq::empty();
    let ghost mut levels: Seq<LevelTerrain> = seq![pre];
    let ghost mut maps: Seq<Map<u64, DynamicTerrainCell>> = seq![Map::empty()];
    for pair in it: old_cells.iter()
        invariant
            edits_tracked(*level, pre, dirty@),
            cells_wf(new_cells@),
            cells_wf(old_cells@),
            next_cells_ok(old_cells@, new_cells@),
            edits_near(*level, pre, old_cells@),
            forall|i: int|
                0 <= i < it.seq().len() ==> old_cells@.contains_key(*it.seq()[i].0) && old_cells@[*it.seq()[i].0]
                    == *it.seq()[i].1,
            it.seq().len() == old_cells@.dom().len(),
            steps == it.index(),
            order.len() == steps,
            levels.len() == steps + 1,
            maps.len() == steps + 1,
            levels[0] == pre,
            maps[0] == Map::<u64, DynamicTerrainCell>::empty(),
            levels[steps] == *level,
            maps[steps] == new_cells@,
            forall|i: int| #![trigger order[i]] 0 <= i < steps ==> order[i] == *it.seq()[i].0 && old_cells@.contains_key(order[i]),
            forall|i: int|
                #![trigger order[i]]
                0 <= i < steps ==> acts_by_rule(
                    levels[i],
                    levels[i + 1],
                    spec_cell_pos(order[i] as int),
                    old_cells@[order[i]],
                    maps[i],
                    maps[i + 1],
                    water_color,
                    old_cells@,
                ),
            forall|k: u64|
                #[trigger] old_cells@.contains_key(k) ==> order.contains(k) || exists|i: int|
                    it.index() <= i < it.seq().len() && *it.seq()[i].0 == k,
            forall|k: u64|
                #[trigger] old_cells@.contains_key(k) && keeps_its_place(old_cells@[k]) ==> new_cells@.contains_key(k) || exists|i: int|
                    it.index() <= i < it.seq().len() && *it.seq()[i].0 == k,
    {
        let ghost lv0 = *level;
        let ghost ord0 = order;
        let (key, cell) = pair;
        let pos = cell_pos(*key);
        let ghost before = new_cells@;
        proof {
            lemma_cell_pos(pos.0 as int, pos.1 as int);
        }
        match *cell {
            DynamicTerrainCell::Foam { limit } => {
                step_foam(level, pos, limit, &mut new_cells, &mut dirty, water_color, env, blender, Ghost(pre), Ghost(old_cells@), Ghost(*key));
            },
            DynamicTerrainCell::GreyGoo { counter, limit } => {
                step_greygoo(level, pos, counter, limit, &mut new_cells, &mut dirty, water_color, env, blender, Ghost(pre), Ghost(old_cells@), Ghost(*key));
            },
            DynamicTerrainCell::Nitro { counter, limit } => {
                step_nitro(level, pos, counter, limit, &mut new_cells, &mut dirty, water_color, blender, Ghost(pre), Ghost(old_cells@), Ghost(*key));
            },
            DynamicTerrainCell::Fire { counter, cinder } => {
                step_fire(level, pos, counter, cinder, &mut new_cells, &mut dirty, water_color, env, blender, Ghost(pre), Ghost(old_cells@), Ghost(*key));
            },
            DynamicTerrainCell::Freezer { limit } => {
                step_freezer(level, pos, limit, &mut new_cells, &mut dirty, water_color, snow_color, env, blender, Ghost(pre), Ghost(old_cells@), Ghost(*key));
            },
            DynamicTerrainCell::Toxin { limit } => {
                step_toxin(level, pos, limit, &mut new_cells, &mut dirty, water_color, blender, Ghost(pre), Ghost(old_cells@), Ghost(*key));
            },
            DynamicTerrainCell::LooseningSand => {
                step_loosening_sand(level, pos, old_cells, &mut new_cells);
            },
            DynamicTerrainCell::Sand { terrain, solidify, color } => {
                step_sand(level, pos, terrain, solidify, color, &mut new_cells, &mut dirty, water_color, blender, Ghost(pre), Ghost(old_cells@), Ghost(*key));
            },
        }
        proof {
            lemma_spawned_step(old_cells@, before, new_cells@, *key, pos);
            assert(acts_by_rule(lv0, *level, (pos.0 as int, pos.1 as int), *cell, before, new_cells@, water_color, old_cells@));
            order = order.push(*key);
            assert forall|k: u64| ord0.contains(k) implies order.contains(k) by {
                let i = choose|i: int| 0 <= i < ord0.len() && ord0[i] == k;
                assert(order[i] == k);
            }
            assert(order[order.len() - 1] == *key);
            assert(order.contains(*key));
            levels = levels.push(*level);
            maps = maps.push(new_cells@);
            steps = steps + 1;
        }
    }
    proof {
        assert forall|k: u64| old_cells@.contains_key(k) <==> #[trigger] order.contains(k) by {
            if order.contains(k) {
                let i = choose|i: int| 0 <= i < order.len() && order[i] == k;
                assert(old_cells@.contains_key(order[i]));
            }
        }
        assert(acts_in_order(old_cells@, pre, *level, new_cells@, order, levels, maps, water_color));
    }
    (new_cells, dirty)
}

} // verus!
