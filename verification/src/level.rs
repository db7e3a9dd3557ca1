//! The destructible terrain of a level: a grid of tiles holding terrain types
//! and artwork pixels, addressed in level pixel coordinates.

use crate::geometry::{Rect, Line, max_int, min_int, spec_intersection};
use crate::terrain::{
    Terrain, TER_LEVELBOUND, TER_BIT_DESTRUCTIBLE, TER_BIT_DYNAMIC, TER_BIT_WATER, TER_MASK_SOLID, destructible_bit,
    water_bit, solid_type, is_destructible, is_underwater, is_solid, is_basesupport,
};
use crate::palette::{map_palette, PALETTE_SIZE};
use crate::tile::{
    TerrainTile, TileContentHint, LineHit, TILE_LENGTH, TILE_SIZE, spec_content_hint, in_tile, tile_offset,
    law_line_hit_in_tile, spec_line_hit, bresenham_path, law_bresenham_path_shape, law_hit_along_is_first,
    law_content_hint_skips, abs_int,
};
use vstd::prelude::*;

verus! {

/// Why level pixel data could not be turned into terrain
#[derive(Clone, Copy, Debug, PartialEq, Eq, Structural)]
pub enum LevelError {
    /// Level dimensions are not multiples of the tile size
    NotTileMultiple,
    /// The artwork image is not the size of the terrain map
    ArtworkSizeMismatch,
}

/// The terrain grid of a level
pub struct LevelTerrain {
    tiles: Vec<TerrainTile>,
    tiles_wide: i32,
    tiles_high: i32,
}

/// Index of the tile holding level pixel (x, y) in a grid `tw` tiles wide
pub open spec fn tile_index_of(tw: int, x: int, y: int) -> int {
    (y / TILE_SIZE as int) * tw + x / TILE_SIZE as int
}

/// Offset of level pixel (x, y) inside its tile
pub open spec fn offset_in_tile(x: int, y: int) -> int {
    (y % TILE_SIZE as int) * TILE_SIZE as int + x % TILE_SIZE as int
}

pub proof fn lemma_pixel_in_grid(tw: int, th: int, x: int, y: int)
    requires
        0 <= x < tw * TILE_SIZE,
        0 <= y < th * TILE_SIZE,
    ensures
        0 <= tile_index_of(tw, x, y) < tw * th,
        0 <= offset_in_tile(x, y) < TILE_LENGTH,
        (x / TILE_SIZE as int) < tw,
        (y / TILE_SIZE as int) < th,
{
    let i = x / 64;
    let j = y / 64;
    assert(0 <= i < tw);
    assert(0 <= j < th);
    assert(0 <= j * tw + i < tw * th) by (nonlinear_arith)
        requires
            0 <= i < tw,
            0 <= j < th;
}

impl LevelTerrain {
    pub closed spec fn wf(&self) -> bool {
        &&& self.tiles_wide >= 0
        &&& self.tiles_high >= 0
        &&& self.tiles_wide * TILE_SIZE <= i32::MAX
        &&& self.tiles_high * TILE_SIZE <= i32::MAX
        &&& self.tiles_wide * self.tiles_high <= i32::MAX
        &&& self.tiles@.len() == self.tiles_wide * self.tiles_high
        &&& forall|t: int| 0 <= t < self.tiles@.len() ==> (#[trigger] self.tiles@[t]).wf()
    }

    /// Width in tiles
    pub closed spec fn spec_tiles_wide(&self) -> int {
        self.tiles_wide as int
    }

    /// Height in tiles
    pub closed spec fn spec_tiles_high(&self) -> int {
        self.tiles_high as int
    }

    /// Width in level pixels
    pub open spec fn spec_width(&self) -> int {
        self.spec_tiles_wide() * TILE_SIZE
    }

    /// Height in level pixels
    pub open spec fn spec_height(&self) -> int {
        self.spec_tiles_high() * TILE_SIZE
    }

    /// Is (x, y) a pixel of the level?
    pub open spec fn in_bounds(&self, x: int, y: int) -> bool {
        0 <= x < self.spec_width() && 0 <= y < self.spec_height()
    }

    /// The tile at tile coordinates (i, j)
    pub closed spec fn spec_tile(&self, i: int, j: int) -> TerrainTile {
        self.tiles@[j * self.tiles_wide + i]
    }

    /// Terrain type of level pixel (x, y)
    pub closed spec fn spec_terrain(&self, x: int, y: int) -> Terrain {
        self.tiles@[tile_index_of(self.tiles_wide as int, x, y)].terrain@[offset_in_tile(x, y)]
    }

    /// Artwork pixel of level pixel (x, y)
    pub closed spec fn spec_artwork(&self, x: int, y: int) -> u32 {
        self.tiles@[tile_index_of(self.tiles_wide as int, x, y)].artwork@[offset_in_tile(x, y)]
    }

    /// Content hint of the tile holding level pixel (x, y)
    pub closed spec fn spec_hint(&self, x: int, y: int) -> TileContentHint {
        self.tiles@[tile_index_of(self.tiles_wide as int, x, y)].content_hint
    }

    /// Terrain type at (x, y); the level boundary type outside the level
    pub open spec fn spec_terrain_at(&self, x: int, y: int) -> Terrain {
        if self.in_bounds(x, y) {
            self.spec_terrain(x, y)
        } else {
            TER_LEVELBOUND
        }
    }

    /// Does every tile's content hint describe its current terrain?
    pub open spec fn hints_fresh(&self) -> bool {
        forall|i: int, j: int|
            0 <= i < self.spec_tiles_wide() && 0 <= j < self.spec_tiles_high() ==> (#[trigger] self.spec_tile(i, j)).content_hint
                == spec_content_hint(self.spec_tile(i, j).terrain@)
    }

    /// Split level-sized pixel data into tiles.
    ///
    /// `terrain_px` holds the raw colour indices of the terrain map and `artwork_px`
    /// the ARGB pixels of the artwork, both row by row without padding. Each terrain
    /// index is mapped to a terrain type through `palette`; artwork pixels whose
    /// terrain index is the `transparent` key become fully transparent.
    pub fn from_pixels(
        width: i32,
        height: i32,
        terrain_px: &Vec<u8>,
        artwork_width: i32,
        artwork_height: i32,
        artwork_px: &Vec<u32>,
        transparent: Option<u8>,
        palette: &Vec<Terrain>,
    ) -> (r: Result<LevelTerrain, LevelError>)
        requires
            width >= 0,
            height >= 0,
            artwork_width >= 0,
            artwork_height >= 0,
            terrain_px.len() == width * height,
            artwork_px.len() == artwork_width * artwork_height,
            palette.len() == PALETTE_SIZE,
            (width / TILE_SIZE) * (height / TILE_SIZE) <= i32::MAX,
        ensures
            (r == Err::<LevelTerrain, LevelError>(LevelError::NotTileMultiple)) <==> (width % TILE_SIZE != 0
                || height % TILE_SIZE != 0),
            (r == Err::<LevelTerrain, LevelError>(LevelError::ArtworkSizeMismatch)) <==> (width % TILE_SIZE == 0
                && height % TILE_SIZE == 0 && (artwork_width != width || artwork_height != height)),
            r matches Ok(level) ==> {
                &&& level.wf()
                &&& level.hints_fresh()
                &&& level.spec_tiles_wide() == width / TILE_SIZE
                &&& level.spec_tiles_high() == height / TILE_SIZE
                &&& level.spec_width() == width
                &&& level.spec_height() == height
                &&& forall|x: int, y: int|
                    #![trigger level.spec_terrain(x, y)]
                    #![trigger level.spec_artwork(x, y)]
                    level.in_bounds(x, y) ==> level.spec_terrain(x, y) == loaded_terrain(
                        width as int,
                        terrain_px@,
                        palette@,
                        x,
                        y,
                    ) && level.spec_artwork(x, y) == loaded_artwork(
                        width as int,
                        terrain_px@,
                        artwork_px@,
                        transparent,
                        x,
                        y,
                    )
            },
    {
        if width % TILE_SIZE > 0 || height % TILE_SIZE > 0 {
            return Err(LevelError::NotTileMultiple);
        }
        if artwork_width != width || artwork_height != height {
            return Err(LevelError::ArtworkSizeMismatch);
        }
        let tiles_wide = width / TILE_SIZE;
        let tiles_high = height / TILE_SIZE;
        let w = width as usize;
        let h = height as usize;
        let tw = tiles_wide as usize;
        let th = tiles_high as usize;
        let ghost ter = terrain_px@;
        let ghost art = artwork_px@;
        let ghost pal = palette@;
        let mut tiles: Vec<TerrainTile> = Vec::new();
        let mut j: usize = 0;
        while j < th
            invariant
                w == width,
                h == height,
                tw == tiles_wide,
                th == tiles_high,
                tw * TILE_SIZE == w,
                th * TILE_SIZE == h,
                tw * th <= i32::MAX,
                j <= th,
                ter == terrain_px@,
                art == artwork_px@,
                pal == palette@,
                palette.len() == PALETTE_SIZE,
                terrain_px.len() == w * h,
                artwork_px.len() == w * h,
                tiles.len() == j * tw,
                forall|t: int|
                    0 <= t < tiles.len() ==> tile_loaded(#[trigger] tiles@[t], w as int, t % tw as int, t / tw as int, ter, art, transparent, pal),
            decreases th - j,
        {
            let mut i: usize = 0;
            while i < tw
                invariant
                    w == width,
                    h == height,
                    tw == tiles_wide,
                    th == tiles_high,
                    tw * TILE_SIZE == w,
                    th * TILE_SIZE == h,
                    tw * th <= i32::MAX,
                    j < th,
                    i <= tw,
                    ter == terrain_px@,
                    art == artwork_px@,
                    pal == palette@,
                    palette.len() == PALETTE_SIZE,
                    terrain_px.len() == w * h,
                    artwork_px.len() == w * h,
                    tiles.len() == j * tw + i,
                    forall|t: int|
                        0 <= t < tiles.len() ==> tile_loaded(#[trigger] tiles@[t], w as int, t % tw as int, t / tw as int, ter, art, transparent, pal),
                decreases tw - i,
            {
                proof {
                    assert((i + 1) * TILE_SIZE <= w);
                    assert((j + 1) * TILE_SIZE <= h) by (nonlinear_arith)
                        requires j < th, th * TILE_SIZE == h;
                    lemma_div_mod_parts(j as int, tw as int, i as int);
                    assert(j * tw + i < tw * th) by (nonlinear_arith)
                        requires j < th, i < tw;
                }
                let tile = load_tile(w, h, i, j, terrain_px, artwork_px, transparent, palette);
                tiles.push(tile);
                i += 1;
            }
            proof {
                assert(j * tw + tw == (j + 1) * tw) by (nonlinear_arith);
            }
            j += 1;
        }
        let level = LevelTerrain { tiles, tiles_wide, tiles_high };
        proof {
            assert(tiles.len() == tw * th) by (nonlinear_arith)
                requires tiles.len() == j * tw, j == th;
            assert forall|t: int| 0 <= t < level.tiles@.len() implies (#[trigger] level.tiles@[t]).wf() by {
                assert(tile_loaded(level.tiles@[t], w as int, t % tw as int, t / tw as int, ter, art, transparent, pal));
            }
            assert forall|ti: int, tj: int|
                0 <= ti < level.spec_tiles_wide() && 0 <= tj < level.spec_tiles_high() implies (#[trigger] level.spec_tile(ti, tj)).content_hint
                    == spec_content_hint(level.spec_tile(ti, tj).terrain@) by {
                assert(0 <= tj * tw + ti < tw * th) by (nonlinear_arith)
                    requires 0 <= ti < tw, 0 <= tj < th;
                let t = tj * tw + ti;
                assert(tile_loaded(level.tiles@[t], w as int, t % tw as int, t / tw as int, ter, art, transparent, pal));
            }
            assert forall|x: int, y: int| level.in_bounds(x, y) implies level.spec_terrain(x, y) == loaded_terrain(
                width as int,
                ter,
                pal,
                x,
                y,
            ) && level.spec_artwork(x, y) == loaded_artwork(
                width as int,
                ter,
                art,
                transparent,
                x,
                y,
            ) by {
                lemma_pixel_in_grid(tw as int, th as int, x, y);
                let ti = x / TILE_SIZE as int;
                let tj = y / TILE_SIZE as int;
                let m = x % TILE_SIZE as int;
                let k = y % TILE_SIZE as int;
                let t = tile_index_of(tw as int, x, y);
                assert(t == tj * tw + ti);
                lemma_div_mod_parts(tj, tw as int, ti);
                assert(tile_loaded(level.tiles@[t], w as int, ti, tj, ter, art, transparent, pal));
                assert(x == ti * TILE_SIZE + m);
                assert(y == tj * TILE_SIZE + k);
                assert(offset_in_tile(x, y) == k * TILE_SIZE + m);
                assert(level.tiles@[t].terrain@[k * TILE_SIZE + m] == loaded_terrain(w as int, ter, pal, ti * TILE_SIZE + m, tj * TILE_SIZE + k));
            }
        }
        Ok(level)
    }


    /// Does a hole of radius r centred on level pixel (cx, cy) blow away pixel (x, y)?
    /// Only destructible terrain in tiles hinted as possibly destructible is removed.
    pub open spec fn carves(&self, cx: int, cy: int, r: int, x: int, y: int) -> bool {
        &&& self.in_bounds(x, y)
        &&& in_hole(cx, cy, r, x, y)
        &&& self.spec_hint(x, y) == TileContentHint::Destructible
        &&& destructible_bit(self.spec_terrain(x, y))
    }

    /// Make a hole of radius `r` centred on level pixel (cx, cy).
    ///
    /// Every destructible pixel of the hole loses its solid type and destructible bit
    /// and its artwork becomes transparent, or the water colour if it is underwater.
    /// Returns the removed pixels with their terrain and artwork from before (tile by
    /// tile in index order, row by row inside a tile), and the tiles whose artwork
    /// changed (to be repainted).
    pub fn make_hole(&mut self, cx: i32, cy: i32, r: i32, water_color: u32) -> (res: (
        Vec<DestroyedPixel>,
        Vec<(i32, i32)>,
    ))
        requires
            old(self).wf(),
            r > 0 ==> r <= 46340 && i32::MIN + r <= cx <= i32::MAX - r && i32::MIN + r <= cy <= i32::MAX - r,
        ensures
            final(self).wf(),
            final(self).spec_tiles_wide() == old(self).spec_tiles_wide(),
            final(self).spec_tiles_high() == old(self).spec_tiles_high(),
            forall|i: int, j: int|
                0 <= i < old(self).spec_tiles_wide() && 0 <= j < old(self).spec_tiles_high() ==> (#[trigger] final(self).spec_tile(i, j)).content_hint
                    == old(self).spec_tile(i, j).content_hint,
            forall|x: int, y: int|
                #![trigger final(self).spec_terrain(x, y)]
                #![trigger final(self).spec_artwork(x, y)]
                old(self).in_bounds(x, y) ==> {
                    &&& final(self).spec_terrain(x, y) == if old(self).carves(cx as int, cy as int, r as int, x, y) {
                        carved_terrain(old(self).spec_terrain(x, y))
                    } else {
                        old(self).spec_terrain(x, y)
                    }
                    &&& final(self).spec_artwork(x, y) == if old(self).carves(cx as int, cy as int, r as int, x, y) {
                        carved_artwork(old(self).spec_terrain(x, y), water_color)
                    } else {
                        old(self).spec_artwork(x, y)
                    }
                },
            forall|n: int|
                0 <= n < res.0.len() ==> {
                    let e = #[trigger] res.0@[n];
                    &&& old(self).carves(cx as int, cy as int, r as int, e.x as int, e.y as int)
                    &&& e.terrain == old(self).spec_terrain(e.x as int, e.y as int)
                    &&& e.artwork == old(self).spec_artwork(e.x as int, e.y as int)
                },
            forall|a: int, b: int|
                #![trigger res.0@[a], res.0@[b]]
                0 <= a < b < res.0.len() ==> (res.0@[a].x, res.0@[a].y) != (res.0@[b].x, res.0@[b].y),
            forall|a: int, b: int|
                #![trigger res.0@[a], res.0@[b]]
                0 <= a < b < res.0.len() ==> pixel_key(old(self).spec_tiles_wide(), res.0@[a].x as int, res.0@[a].y as int)
                    < pixel_key(old(self).spec_tiles_wide(), res.0@[b].x as int, res.0@[b].y as int),
            forall|x: int, y: int|
                #[trigger] old(self).carves(cx as int, cy as int, r as int, x, y) ==> pixel_recorded(res.0@, x, y),
            forall|d: int| 0 <= d < res.1.len() ==> #[trigger] dirty_tile_recorded(res.0@, res.1@, d),
            forall|n: int| 0 <= n < res.0.len() ==> #[trigger] record_tile_dirty(res.0@, res.1@, n),
            forall|a: int, b: int|
                #![trigger res.1@[a], res.1@[b]]
                0 <= a < b < res.1.len() ==> res.1@[a] != res.1@[b],
            hole_made(*old(self), *final(self), cx as int, cy as int, r as int, water_color),
    {
        let ghost old_level = *self;
        let mut out: Vec<DestroyedPixel> = Vec::new();
        let mut dirty: Vec<(i32, i32)> = Vec::new();
        if r <= 0 || self.tiles_wide == 0 || self.tiles_high == 0 {
            proof {
                assert forall|x: int, y: int| #[trigger] old_level.carves(cx as int, cy as int, r as int, x, y) implies false by {
                }
            }
            return (out, dirty);
        }
        let hole = Rect::new(cx - r, cy - r, r * 2, r * 2);
        let (tx0, ty0, tx1, ty1) = self.tile_range(hole);
        let tw = self.tiles_wide;
        let ghost th = self.tiles_high as int;
        let ghost tw_i = tw as int;
        proof {
            self.lemma_hole_start(cx as int, cy as int, r as int, water_color, tx0 as int, tx1 as int, ty0 as int);
            assert(tw_i * th <= i32::MAX);
            assert(0 <= tx0 <= tx1 < tw_i || tx0 > tx1);
        }
        let mut j: i32 = ty0;
        while j <= ty1
            invariant
                ty0 <= j <= ty1 + 1,
                0 <= tx0 < tw,
                0 <= tx1 < tw,
                0 <= ty0 < th,
                0 <= ty1 < th,
                tw == self.tiles_wide,
                tw_i == tw,
                th == self.tiles_high,
                tw >= 1,
                th >= 1,
                0 < r <= 46340,
                i32::MIN + r <= cx <= i32::MAX - r,
                i32::MIN + r <= cy <= i32::MAX - r,
                hole.x == cx - r,
                hole.y == cy - r,
                hole.w == 2 * r,
                hole.h == 2 * r,
                tx0 == clamp_int(trunc_div(cx - r, TILE_SIZE as int), 0, tw - 1),
                ty0 == clamp_int(trunc_div(cy - r, TILE_SIZE as int), 0, th - 1),
                tx1 == clamp_int(trunc_div(cx + r - 1, TILE_SIZE as int), 0, tw - 1),
                ty1 == clamp_int(trunc_div(cy + r - 1, TILE_SIZE as int), 0, th - 1),
                old_level.wf(),
                old_level.tiles_wide == tw,
                old_level.tiles_high == th,
                self.hole_state_ok(old_level, out@, dirty@, cx as int, cy as int, r as int, water_color, tx0 as int, tx1 as int, ty0 as int, tx0 as int, j as int),
            decreases ty1 + 1 - j,
        {
            let mut i: i32 = tx0;
            while i <= tx1
                invariant
                    ty0 <= j <= ty1,
                    tx0 <= i <= tx1 + 1,
                    0 <= tx0 < tw,
                    0 <= tx1 < tw,
                    0 <= ty0 < th,
                    0 <= ty1 < th,
                    tw == self.tiles_wide,
                    tw_i == tw,
                    th == self.tiles_high,
                    tw >= 1,
                    th >= 1,
                    0 < r <= 46340,
                    i32::MIN + r <= cx <= i32::MAX - r,
                    i32::MIN + r <= cy <= i32::MAX - r,
                    hole.x == cx - r,
                    hole.y == cy - r,
                    hole.w == 2 * r,
                    hole.h == 2 * r,
                    old_level.wf(),
                    old_level.tiles_wide == tw,
                    old_level.tiles_high == th,
                    self.hole_state_ok(old_level, out@, dirty@, cx as int, cy as int, r as int, water_color, tx0 as int, tx1 as int, ty0 as int, i as int, j as int),
                decreases tx1 + 1 - i,
            {
                proof {
                    assert(0 <= j * tw + i < tw * th) by (nonlinear_arith)
                        requires 0 <= i < tw, 0 <= j < th;
                    assert(i * TILE_SIZE <= i32::MAX - TILE_SIZE) by (nonlinear_arith)
                        requires 0 <= i < tw, tw * TILE_SIZE <= i32::MAX;
                    assert(j * TILE_SIZE <= i32::MAX - TILE_SIZE) by (nonlinear_arith)
                        requires 0 <= j < th, th * TILE_SIZE <= i32::MAX;
                }
                let idx: i32 = j * tw + i;
                let ox: i32 = i * TILE_SIZE;
                let oy: i32 = j * TILE_SIZE;
                let tile_rect = Rect::new(ox, oy, TILE_SIZE, TILE_SIZE);
                let ghost pre = *self;
                let ghost pre_out = out@;
                let ghost pre_dirty = dirty@;
                let ghost old_tile = old_level.tiles@[idx as int];
                proof {
                    self.lemma_hole_tile_untouched(old_level, out@, dirty@, cx as int, cy as int, r as int, water_color, tx0 as int, tx1 as int, ty0 as int, i as int, j as int);
                }
                if self.tiles[idx as usize].content_hint == TileContentHint::Destructible {
                    match hole.intersected(tile_rect) {
                        Some(isect) => {
                            let local = isect.offset(-tile_rect.x(), -tile_rect.y());
                            let lx1 = local.x + local.w - 1;
                            let ly1 = local.y + local.h - 1;
                            let changed = carve_tile(
                                &mut self.tiles[idx as usize],
                                ox,
                                oy,
                                local.x,
                                local.y,
                                lx1,
                                ly1,
                                cx,
                                cy,
                                r,
                                water_color,
                                &mut out,
                            );
                            if changed {
                                dirty.push((i, j));
                            }
                            proof {
                                self.lemma_hole_tile_carved(pre, old_level, pre_out, out@, pre_dirty, dirty@, cx as int, cy as int, r as int, water_color, tx0 as int, tx1 as int, ty0 as int, i as int, j as int);
                            }
                        },
                        None => {
                            proof {
                                pre.lemma_hole_tile_skipped(old_level, out@, dirty@, cx as int, cy as int, r as int, water_color, tx0 as int, tx1 as int, ty0 as int, i as int, j as int, hole, tile_rect);
                            }
                        },
                    }
                } else {
                    proof {
                        pre.lemma_hole_tile_skipped(old_level, out@, dirty@, cx as int, cy as int, r as int, water_color, tx0 as int, tx1 as int, ty0 as int, i as int, j as int, hole, tile_rect);
                    }
                }
                i += 1;
            }
            proof {
                self.lemma_hole_next_row(old_level, out@, dirty@, cx as int, cy as int, r as int, water_color, tx0 as int, tx1 as int, ty0 as int, j as int);
            }
            j += 1;
        }
        proof {
            self.lemma_hole_done(old_level, out@, dirty@, cx as int, cy as int, r as int, water_color, tx0 as int, tx1 as int, ty0 as int, ty1 as int);
        }
        (out, dirty)
    }


    /// Progress of carving a hole: the tiles already visited are carved, the others
    /// untouched, and the removed pixels and dirty tiles are recorded in walk order.
    spec fn hole_state_ok(
        &self,
        old: LevelTerrain,
        out: Seq<DestroyedPixel>,
        dirty: Seq<(i32, i32)>,
        cx: int,
        cy: int,
        r: int,
        water_color: u32,
        tx0: int,
        tx1: int,
        ty0: int,
        i: int,
        j: int,
    ) -> bool {
        let tw = self.tiles_wide as int;
        &&& self.wf()
        &&& self.tiles_wide == old.tiles_wide
        &&& self.tiles_high == old.tiles_high
        &&& self.hole_tiles_ok(old, cx, cy, r, water_color, tx0, tx1, ty0, i, j)
        &&& hole_records_ok(old, out, cx, cy, r, tx0, tx1, ty0, i, j)
        &&& hole_records_sorted(tw, out)
        &&& hole_cover_ok(old, out, cx, cy, r, tx0, tx1, ty0, i, j)
        &&& hole_dirty_ok(tw, out, dirty, j * tw + i)
    }

    /// The visited tiles are carved, the others untouched
    #[verifier::opaque]
    spec fn hole_tiles_ok(
        &self,
        old: LevelTerrain,
        cx: int,
        cy: int,
        r: int,
        water_color: u32,
        tx0: int,
        tx1: int,
        ty0: int,
        i: int,
        j: int,
    ) -> bool {
        forall|ti: int, tj: int|
            0 <= ti < self.tiles_wide && 0 <= tj < self.tiles_high ==> if hole_visited(tx0, tx1, ty0, i, j, ti, tj) {
                tile_carve_ok(
                    old.spec_tile(ti, tj),
                    #[trigger] self.spec_tile(ti, tj),
                    ti * TILE_SIZE,
                    tj * TILE_SIZE,
                    cx,
                    cy,
                    r,
                    water_color,
                )
            } else {
                self.spec_tile(ti, tj) == old.spec_tile(ti, tj)
            }
    }

    /// Level pixel (ti * TILE_SIZE + m, tj * TILE_SIZE + k) is pixel (m, k) of tile (ti, tj)
    proof fn lemma_tile_pixel(&self, ti: int, tj: int, k: int, m: int)
        requires
            self.wf(),
            0 <= ti < self.tiles_wide,
            0 <= tj < self.tiles_high,
            0 <= k < TILE_SIZE,
            0 <= m < TILE_SIZE,
        ensures
            ({
                let x = ti * TILE_SIZE + m;
                let y = tj * TILE_SIZE + k;
                &&& self.in_bounds(x, y)
                &&& tile_of(x, y) == (ti, tj)
                &&& tile_index_of(self.tiles_wide as int, x, y) == tj * self.tiles_wide + ti
                &&& offset_in_tile(x, y) == k * TILE_SIZE + m
                &&& pixel_key(self.tiles_wide as int, x, y) == (tj * self.tiles_wide + ti) * TILE_LENGTH + k * TILE_SIZE + m
                &&& self.spec_terrain(x, y) == self.spec_tile(ti, tj).terrain@[k * TILE_SIZE + m]
                &&& self.spec_artwork(x, y) == self.spec_tile(ti, tj).artwork@[k * TILE_SIZE + m]
                &&& self.spec_hint(x, y) == self.spec_tile(ti, tj).content_hint
            }),
    {
        lemma_div_mod_parts(ti, TILE_SIZE as int, m);
        lemma_div_mod_parts(tj, TILE_SIZE as int, k);
        assert(ti * TILE_SIZE + m < self.tiles_wide * TILE_SIZE);
        assert(tj * TILE_SIZE + k < self.tiles_high * TILE_SIZE);
    }

    /// Every level pixel is a pixel of its tile
    proof fn lemma_pixel_tile(&self, x: int, y: int)
        requires
            self.wf(),
            self.in_bounds(x, y),
        ensures
            0 <= tile_of(x, y).0 < self.tiles_wide,
            0 <= tile_of(x, y).1 < self.tiles_high,
            x == tile_of(x, y).0 * TILE_SIZE + x % TILE_SIZE as int,
            y == tile_of(x, y).1 * TILE_SIZE + y % TILE_SIZE as int,
            0 <= (x % TILE_SIZE as int) < TILE_SIZE,
            0 <= (y % TILE_SIZE as int) < TILE_SIZE,
    {
        lemma_pixel_in_grid(self.tiles_wide as int, self.tiles_high as int, x, y);
    }

    /// A hole's pixels in a tile are those of the tile's pixels the tile walk carves
    proof fn lemma_carves_tile_pixel(&self, cx: int, cy: int, r: int, ti: int, tj: int, k: int, m: int)
        requires
            self.wf(),
            0 <= ti < self.tiles_wide,
            0 <= tj < self.tiles_high,
            0 <= k < TILE_SIZE,
            0 <= m < TILE_SIZE,
        ensures
            self.carves(cx, cy, r, ti * TILE_SIZE + m, tj * TILE_SIZE + k) == tile_pixel_carved(
                self.spec_tile(ti, tj),
                ti * TILE_SIZE,
                tj * TILE_SIZE,
                cx,
                cy,
                r,
                k,
                m,
            ),
    {
        self.lemma_tile_pixel(ti, tj, k, m);
    }


    /// Before the walk nothing is visited or recorded
    proof fn lemma_hole_start(&self, cx: int, cy: int, r: int, water_color: u32, tx0: int, tx1: int, ty0: int)
        requires
            self.wf(),
        ensures
            self.hole_state_ok(*self, Seq::empty(), Seq::empty(), cx, cy, r, water_color, tx0, tx1, ty0, tx0, ty0),
    {
        reveal(LevelTerrain::hole_tiles_ok);
        reveal(hole_records_ok);
        reveal(hole_records_sorted);
        reveal(hole_cover_ok);
        reveal(hole_dirty_ok);
    }

    /// A tile the walk has not reached yet is still the original tile
    proof fn lemma_hole_tile_untouched(
        &self,
        old: LevelTerrain,
        out: Seq<DestroyedPixel>,
        dirty: Seq<(i32, i32)>,
        cx: int,
        cy: int,
        r: int,
        water_color: u32,
        tx0: int,
        tx1: int,
        ty0: int,
        i: int,
        j: int,
    )
        requires
            self.hole_state_ok(old, out, dirty, cx, cy, r, water_color, tx0, tx1, ty0, i, j),
            0 <= i < self.tiles_wide,
            0 <= j < self.tiles_high,
        ensures
            self.tiles@[j * self.tiles_wide + i] == old.spec_tile(i, j),
            self.tiles@[j * self.tiles_wide + i] == old.tiles@[j * self.tiles_wide + i],
    {
        reveal(LevelTerrain::hole_tiles_ok);
        assert(!hole_visited(tx0, tx1, ty0, i, j, i, j));
        assert(self.spec_tile(i, j) == old.spec_tile(i, j));
    }

    /// Moving the walk from tile (i, j) to the next tile keeps the record parts valid
    /// when no pixel of tile (i, j) was recorded
    proof fn lemma_hole_records_advance(
        old: LevelTerrain,
        out: Seq<DestroyedPixel>,
        dirty: Seq<(i32, i32)>,
        cx: int,
        cy: int,
        r: int,
        tx0: int,
        tx1: int,
        ty0: int,
        i: int,
        j: int,
    )
        requires
            old.wf(),
            hole_records_ok(old, out, cx, cy, r, tx0, tx1, ty0, i, j),
            hole_dirty_ok(old.tiles_wide as int, out, dirty, j * old.tiles_wide + i),
        ensures
            hole_records_ok(old, out, cx, cy, r, tx0, tx1, ty0, i + 1, j),
            hole_dirty_ok(old.tiles_wide as int, out, dirty, j * old.tiles_wide + i + 1),
    {
        reveal(hole_records_ok);
        reveal(hole_dirty_ok);
    }

    /// Moving past a tile that holds no pixel of the hole keeps the walk's state valid
    proof fn lemma_hole_tile_skipped(
        &self,
        old: LevelTerrain,
        out: Seq<DestroyedPixel>,
        dirty: Seq<(i32, i32)>,
        cx: int,
        cy: int,
        r: int,
        water_color: u32,
        tx0: int,
        tx1: int,
        ty0: int,
        i: int,
        j: int,
        hole: Rect,
        tile_rect: Rect,
    )
        requires
            self.hole_state_ok(old, out, dirty, cx, cy, r, water_color, tx0, tx1, ty0, i, j),
            old.wf(),
            0 <= tx0 <= i <= tx1 < self.tiles_wide,
            0 <= ty0 <= j < self.tiles_high,
            hole.x == cx - r,
            hole.y == cy - r,
            hole.w == 2 * r,
            hole.h == 2 * r,
            hole.edges_fit(),
            tile_rect.x == i * TILE_SIZE,
            tile_rect.y == j * TILE_SIZE,
            tile_rect.w == TILE_SIZE,
            tile_rect.h == TILE_SIZE,
            tile_rect.edges_fit(),
            old.spec_tile(i, j).content_hint != TileContentHint::Destructible || spec_intersection(hole, tile_rect) is None,
        ensures
            self.hole_state_ok(old, out, dirty, cx, cy, r, water_color, tx0, tx1, ty0, i + 1, j),
    {
        let tw = self.tiles_wide as int;
        let ot = old.spec_tile(i, j);
        assert forall|k: int, m: int| 0 <= k < TILE_SIZE && 0 <= m < TILE_SIZE implies !#[trigger] tile_pixel_carved(
            ot,
            i * TILE_SIZE,
            j * TILE_SIZE,
            cx,
            cy,
            r,
            k,
            m,
        ) by {
            if ot.content_hint == TileContentHint::Destructible {
                crate::geometry::law_intersection_is_common_area(hole, tile_rect, i * TILE_SIZE + m, j * TILE_SIZE + k);
            }
        }
        assert(self.hole_tiles_ok(old, cx, cy, r, water_color, tx0, tx1, ty0, i + 1, j)) by {
            reveal(LevelTerrain::hole_tiles_ok);
            assert(self.spec_tile(i, j) == ot);
            assert(0 <= j * tw + i < tw * self.tiles_high) by (nonlinear_arith)
                requires 0 <= i < tw, 0 <= j < self.tiles_high;
            assert(self.tiles@[j * tw + i].wf());
        }
        LevelTerrain::lemma_hole_records_advance(old, out, dirty, cx, cy, r, tx0, tx1, ty0, i, j);
        assert(hole_cover_ok(old, out, cx, cy, r, tx0, tx1, ty0, i + 1, j)) by {
            reveal(hole_cover_ok);
            assert forall|x: int, y: int|
                #[trigger] old.carves(cx, cy, r, x, y) && hole_visited(tx0, tx1, ty0, i + 1, j, tile_of(x, y).0, tile_of(x, y).1)
                    implies pixel_recorded(out, x, y) by {
                if tile_of(x, y) == (i, j) {
                    old.lemma_pixel_tile(x, y);
                    old.lemma_carves_tile_pixel(cx, cy, r, i, j, y % TILE_SIZE as int, x % TILE_SIZE as int);
                    assert(!tile_pixel_carved(ot, i * TILE_SIZE, j * TILE_SIZE, cx, cy, r, y % TILE_SIZE as int, x % TILE_SIZE as int));
                }
            }
        }
    }

    /// Carving the next tile of the walk keeps the walk's state valid
    proof fn lemma_hole_tile_carved(
        &self,
        pre: LevelTerrain,
        old: LevelTerrain,
        pre_out: Seq<DestroyedPixel>,
        out: Seq<DestroyedPixel>,
        pre_dirty: Seq<(i32, i32)>,
        dirty: Seq<(i32, i32)>,
        cx: int,
        cy: int,
        r: int,
        water_color: u32,
        tx0: int,
        tx1: int,
        ty0: int,
        i: int,
        j: int,
    )
        requires
            pre.hole_state_ok(old, pre_out, pre_dirty, cx, cy, r, water_color, tx0, tx1, ty0, i, j),
            old.wf(),
            0 <= tx0 <= i <= tx1 < pre.tiles_wide,
            0 <= ty0 <= j < pre.tiles_high,
            self.tiles_wide == pre.tiles_wide,
            self.tiles_high == pre.tiles_high,
            self.tiles@ == pre.tiles@.update(j * pre.tiles_wide + i, self.tiles@[j * pre.tiles_wide + i]),
            tile_carve_ok(
                old.spec_tile(i, j),
                self.tiles@[j * pre.tiles_wide + i],
                i * TILE_SIZE,
                j * TILE_SIZE,
                cx,
                cy,
                r,
                water_color,
            ),
            out.len() >= pre_out.len(),
            out.subrange(0, pre_out.len() as int) == pre_out,
            forall|n: int|
                pre_out.len() <= n < out.len() ==> records_tile_pixel(
                    old.spec_tile(i, j),
                    i * TILE_SIZE,
                    j * TILE_SIZE,
                    cx,
                    cy,
                    r,
                    #[trigger] out[n],
                ),
            forall|a: int, b: int|
                #![trigger out[a], out[b]]
                pre_out.len() <= a < b < out.len() ==> (out[a].y - j * TILE_SIZE) * TILE_SIZE + (out[a].x - i * TILE_SIZE)
                    < (out[b].y - j * TILE_SIZE) * TILE_SIZE + (out[b].x - i * TILE_SIZE),
            forall|k: int, m: int|
                0 <= k < TILE_SIZE && 0 <= m < TILE_SIZE && #[trigger] tile_pixel_carved(
                    old.spec_tile(i, j),
                    i * TILE_SIZE,
                    j * TILE_SIZE,
                    cx,
                    cy,
                    r,
                    k,
                    m,
                ) ==> exists|n: int|
                    pre_out.len() <= n < out.len() && out[n].x == i * TILE_SIZE + m && out[n].y == j * TILE_SIZE + k,
            dirty == (if out.len() > pre_out.len() {
                pre_dirty.push((i as i32, j as i32))
            } else {
                pre_dirty
            }),
        ensures
            self.hole_state_ok(old, out, dirty, cx, cy, r, water_color, tx0, tx1, ty0, i + 1, j),
    {
        let tw = pre.tiles_wide as int;
        let th = pre.tiles_high as int;
        let idx = j * tw + i;
        let ot = old.spec_tile(i, j);
        let plen = pre_out.len() as int;
        assert(0 <= idx < tw * th) by (nonlinear_arith)
            requires 0 <= i < tw, 0 <= j < th, idx == j * tw + i;
        assert forall|n: int| 0 <= n < plen implies #[trigger] out[n] == pre_out[n] by {
            assert(out.subrange(0, plen)[n] == out[n]);
        }
        // what the records of this tile are, in level terms
        assert forall|n: int| plen <= n < out.len() implies {
            let e = #[trigger] out[n];
            &&& old.carves(cx, cy, r, e.x as int, e.y as int)
            &&& e.terrain == old.spec_terrain(e.x as int, e.y as int)
            &&& e.artwork == old.spec_artwork(e.x as int, e.y as int)
            &&& tile_of(e.x as int, e.y as int) == (i, j)
            &&& pixel_key(tw, e.x as int, e.y as int) == idx * TILE_LENGTH + (e.y - j * TILE_SIZE) * TILE_SIZE + (e.x - i * TILE_SIZE)
        } by {
            let e = out[n];
            let m = e.x - i * TILE_SIZE;
            let k = e.y - j * TILE_SIZE;
            assert(records_tile_pixel(ot, i * TILE_SIZE, j * TILE_SIZE, cx, cy, r, e));
            old.lemma_tile_pixel(i, j, k, m);
            old.lemma_carves_tile_pixel(cx, cy, r, i, j, k, m);
        }
        // tiles
        assert forall|ti: int, tj: int| 0 <= ti < tw && 0 <= tj < th && (ti != i || tj != j) implies #[trigger] self.spec_tile(ti, tj)
            == pre.spec_tile(ti, tj) by {
            lemma_div_mod_parts(tj, tw, ti);
            lemma_div_mod_parts(j, tw, i);
            assert(tj * tw + ti != idx);
            assert(0 <= tj * tw + ti < tw * th) by (nonlinear_arith)
                requires 0 <= ti < tw, 0 <= tj < th;
        }
        assert forall|t: int| 0 <= t < self.tiles@.len() implies (#[trigger] self.tiles@[t]).wf() by {
            if t != idx {
                assert(self.tiles@[t] == pre.tiles@[t]);
            }
        }
        assert(self.wf());
        assert(self.hole_tiles_ok(old, cx, cy, r, water_color, tx0, tx1, ty0, i + 1, j)) by {
            reveal(LevelTerrain::hole_tiles_ok);
            assert forall|ti: int, tj: int| 0 <= ti < tw && 0 <= tj < th implies if hole_visited(tx0, tx1, ty0, i + 1, j, ti, tj) {
                tile_carve_ok(
                    old.spec_tile(ti, tj),
                    #[trigger] self.spec_tile(ti, tj),
                    ti * TILE_SIZE,
                    tj * TILE_SIZE,
                    cx,
                    cy,
                    r,
                    water_color,
                )
            } else {
                self.spec_tile(ti, tj) == old.spec_tile(ti, tj)
            } by {
                if ti != i || tj != j {
                    assert(self.spec_tile(ti, tj) == pre.spec_tile(ti, tj));
                }
            }
        }
        assert(hole_records_ok(old, out, cx, cy, r, tx0, tx1, ty0, i + 1, j)) by {
            reveal(hole_records_ok);
            assert forall|n: int| 0 <= n < out.len() implies {
                let e = #[trigger] out[n];
                &&& old.carves(cx, cy, r, e.x as int, e.y as int)
                &&& e.terrain == old.spec_terrain(e.x as int, e.y as int)
                &&& e.artwork == old.spec_artwork(e.x as int, e.y as int)
                &&& hole_visited(tx0, tx1, ty0, i + 1, j, tile_of(e.x as int, e.y as int).0, tile_of(e.x as int, e.y as int).1)
                &&& pixel_key(tw, e.x as int, e.y as int) < (j * tw + i + 1) * TILE_LENGTH
            } by {
                if n < plen {
                    assert(out[n] == pre_out[n]);
                } else {
                    assert(records_tile_pixel(ot, i * TILE_SIZE, j * TILE_SIZE, cx, cy, r, out[n]));
                }
            }
        }
        assert(hole_records_sorted(tw, out)) by {
            reveal(hole_records_sorted);
            reveal(hole_records_ok);
            assert forall|a: int, b: int|
                #![trigger out[a], out[b]]
                0 <= a < b < out.len() implies pixel_key(tw, out[a].x as int, out[a].y as int) < pixel_key(
                    tw,
                    out[b].x as int,
                    out[b].y as int,
                ) by {
                if b < plen {
                    assert(out[a] == pre_out[a] && out[b] == pre_out[b]);
                } else if a < plen {
                    assert(out[a] == pre_out[a]);
                    assert(pixel_key(tw, pre_out[a].x as int, pre_out[a].y as int) < idx * TILE_LENGTH);
                    assert(records_tile_pixel(ot, i * TILE_SIZE, j * TILE_SIZE, cx, cy, r, out[b]));
                }
            }
        }
        assert(hole_cover_ok(old, out, cx, cy, r, tx0, tx1, ty0, i + 1, j)) by {
            reveal(hole_cover_ok);
            assert forall|x: int, y: int|
                #[trigger] old.carves(cx, cy, r, x, y) && hole_visited(tx0, tx1, ty0, i + 1, j, tile_of(x, y).0, tile_of(x, y).1)
                    implies pixel_recorded(out, x, y) by {
                if tile_of(x, y) == (i, j) {
                    old.lemma_pixel_tile(x, y);
                    let k = y % TILE_SIZE as int;
                    let m = x % TILE_SIZE as int;
                    old.lemma_carves_tile_pixel(cx, cy, r, i, j, k, m);
                    assert(tile_pixel_carved(ot, i * TILE_SIZE, j * TILE_SIZE, cx, cy, r, k, m));
                    let w = choose|w: int| plen <= w < out.len() && out[w].x == i * TILE_SIZE + m && out[w].y == j * TILE_SIZE + k;
                    assert(out[w].x == x && out[w].y == y);
                } else {
                    assert(hole_visited(tx0, tx1, ty0, i, j, tile_of(x, y).0, tile_of(x, y).1));
                    assert(pixel_recorded(pre_out, x, y));
                    let w = choose|w: int| 0 <= w < pre_out.len() && pre_out[w].x == x && pre_out[w].y == y;
                    assert(out[w] == pre_out[w]);
                }
            }
        }
        assert(hole_dirty_ok(tw, out, dirty, idx + 1)) by {
            reveal(hole_dirty_ok);
            reveal(hole_records_ok);
            let dlen = pre_dirty.len() as int;
            assert forall|d: int| 0 <= d < dlen implies #[trigger] dirty[d] == pre_dirty[d] by {
            }
            assert forall|d: int| 0 <= d < dirty.len() implies #[trigger] dirty_tile_recorded(out, dirty, d) && dirty[d].1 * tw + dirty[d].0 < idx + 1 by {
                if d < dlen {
                    assert(dirty_tile_recorded(pre_out, pre_dirty, d));
                    let w = choose|w: int| 0 <= w < pre_out.len() && in_dirty_tile(pre_out, pre_dirty, w, d);
                    assert(out[w] == pre_out[w]);
                    assert(in_dirty_tile(out, dirty, w, d));
                } else {
                    assert(in_dirty_tile(out, dirty, plen, d));
                }
            }
            assert forall|n: int| 0 <= n < out.len() implies #[trigger] record_tile_dirty(out, dirty, n) by {
                if n < plen {
                    assert(out[n] == pre_out[n]);
                    assert(record_tile_dirty(pre_out, pre_dirty, n));
                    let w = choose|w: int| 0 <= w < pre_dirty.len() && in_dirty_tile(pre_out, pre_dirty, n, w);
                    assert(in_dirty_tile(out, dirty, n, w));
                } else {
                    assert(in_dirty_tile(out, dirty, n, dlen));
                }
            }
            assert forall|a: int, b: int|
                #![trigger dirty[a], dirty[b]]
                0 <= a < b < dirty.len() implies dirty[a].1 * tw + dirty[a].0 < dirty[b].1 * tw + dirty[b].0 by {
                if b < dlen {
                    assert(dirty[a] == pre_dirty[a] && dirty[b] == pre_dirty[b]);
                } else {
                    assert(dirty[a] == pre_dirty[a]);
                }
            }
        }
    }

    /// Finishing a row of tiles moves the walk to the start of the next row
    proof fn lemma_hole_next_row(
        &self,
        old: LevelTerrain,
        out: Seq<DestroyedPixel>,
        dirty: Seq<(i32, i32)>,
        cx: int,
        cy: int,
        r: int,
        water_color: u32,
        tx0: int,
        tx1: int,
        ty0: int,
        j: int,
    )
        requires
            self.hole_state_ok(old, out, dirty, cx, cy, r, water_color, tx0, tx1, ty0, tx1 + 1, j),
            0 <= tx0 <= tx1 < self.tiles_wide,
        ensures
            self.hole_state_ok(old, out, dirty, cx, cy, r, water_color, tx0, tx1, ty0, tx0, j + 1),
    {
        let tw = self.tiles_wide as int;
        assert((j + 1) * tw == j * tw + tw) by (nonlinear_arith);
        assert forall|ti: int, tj: int|
            #![trigger hole_visited(tx0, tx1, ty0, tx1 + 1, j, ti, tj)]
            #![trigger hole_visited(tx0, tx1, ty0, tx0, j + 1, ti, tj)]
            hole_visited(tx0, tx1, ty0, tx1 + 1, j, ti, tj) == hole_visited(tx0, tx1, ty0, tx0, j + 1, ti, tj) by {
        }
        assert(self.hole_tiles_ok(old, cx, cy, r, water_color, tx0, tx1, ty0, tx0, j + 1)) by {
            reveal(LevelTerrain::hole_tiles_ok);
            assert forall|ti: int, tj: int| 0 <= ti < tw && 0 <= tj < self.tiles_high implies #[trigger] hole_visited(tx0, tx1, ty0, tx1 + 1, j, ti, tj)
                == hole_visited(tx0, tx1, ty0, tx0, j + 1, ti, tj) by {
            }
        }
        assert(hole_records_ok(old, out, cx, cy, r, tx0, tx1, ty0, tx0, j + 1)) by {
            reveal(hole_records_ok);
        }
        assert(hole_cover_ok(old, out, cx, cy, r, tx0, tx1, ty0, tx0, j + 1)) by {
            reveal(hole_cover_ok);
        }
        assert(hole_dirty_ok(tw, out, dirty, (j + 1) * tw + tx0)) by {
            reveal(hole_dirty_ok);
        }
    }

    /// After the last row of the walk, the level and the records are those of the whole hole
    proof fn lemma_hole_done(
        &self,
        old: LevelTerrain,
        out: Seq<DestroyedPixel>,
        dirty: Seq<(i32, i32)>,
        cx: int,
        cy: int,
        r: int,
        water_color: u32,
        tx0: int,
        tx1: int,
        ty0: int,
        ty1: int,
    )
        requires
            self.hole_state_ok(old, out, dirty, cx, cy, r, water_color, tx0, tx1, ty0, tx0, ty1 + 1),
            old.wf(),
            old.tiles_wide >= 1,
            old.tiles_high >= 1,
            tx0 == clamp_int(trunc_div(cx - r, TILE_SIZE as int), 0, old.tiles_wide - 1),
            ty0 == clamp_int(trunc_div(cy - r, TILE_SIZE as int), 0, old.tiles_high - 1),
            tx1 == clamp_int(trunc_div(cx + r - 1, TILE_SIZE as int), 0, old.tiles_wide - 1),
            ty1 == clamp_int(trunc_div(cy + r - 1, TILE_SIZE as int), 0, old.tiles_high - 1),
        ensures
            self.wf(),
            self.spec_tiles_wide() == old.spec_tiles_wide(),
            self.spec_tiles_high() == old.spec_tiles_high(),
            forall|i: int, j: int|
                0 <= i < old.spec_tiles_wide() && 0 <= j < old.spec_tiles_high() ==> (#[trigger] self.spec_tile(i, j)).content_hint
                    == old.spec_tile(i, j).content_hint,
            forall|x: int, y: int|
                #![trigger self.spec_terrain(x, y)]
                #![trigger self.spec_artwork(x, y)]
                old.in_bounds(x, y) ==> {
                    &&& self.spec_terrain(x, y) == if old.carves(cx, cy, r, x, y) {
                        carved_terrain(old.spec_terrain(x, y))
                    } else {
                        old.spec_terrain(x, y)
                    }
                    &&& self.spec_artwork(x, y) == if old.carves(cx, cy, r, x, y) {
                        carved_artwork(old.spec_terrain(x, y), water_color)
                    } else {
                        old.spec_artwork(x, y)
                    }
                },
            forall|n: int|
                0 <= n < out.len() ==> {
                    let e = #[trigger] out[n];
                    &&& old.carves(cx, cy, r, e.x as int, e.y as int)
                    &&& e.terrain == old.spec_terrain(e.x as int, e.y as int)
                    &&& e.artwork == old.spec_artwork(e.x as int, e.y as int)
                },
            forall|a: int, b: int|
                #![trigger out[a], out[b]]
                0 <= a < b < out.len() ==> (out[a].x, out[a].y) != (out[b].x, out[b].y),
            forall|a: int, b: int|
                #![trigger out[a], out[b]]
                0 <= a < b < out.len() ==> pixel_key(old.spec_tiles_wide(), out[a].x as int, out[a].y as int) < pixel_key(
                    old.spec_tiles_wide(),
                    out[b].x as int,
                    out[b].y as int,
                ),
            forall|x: int, y: int|
                #[trigger] old.carves(cx, cy, r, x, y) ==> pixel_recorded(out, x, y),
            forall|d: int| 0 <= d < dirty.len() ==> #[trigger] dirty_tile_recorded(out, dirty, d),
            forall|n: int| 0 <= n < out.len() ==> #[trigger] record_tile_dirty(out, dirty, n),
            forall|a: int, b: int|
                #![trigger dirty[a], dirty[b]]
                0 <= a < b < dirty.len() ==> dirty[a] != dirty[b],
    {
        let tw = old.tiles_wide as int;
        let th = old.tiles_high as int;
        reveal(LevelTerrain::hole_tiles_ok);
        reveal(hole_records_ok);
        reveal(hole_records_sorted);
        reveal(hole_cover_ok);
        reveal(hole_dirty_ok);
        // every pixel of the hole lies in a tile of the walk
        assert forall|x: int, y: int| old.in_bounds(x, y) && in_hole(cx, cy, r, x, y) implies hole_visited(
            tx0,
            tx1,
            ty0,
            tx0,
            ty1 + 1,
            tile_of(x, y).0,
            tile_of(x, y).1,
        ) by {
            lemma_span_tiles(tw, cx - r, cx + r - 1, x);
            lemma_span_tiles(th, cy - r, cy + r - 1, y);
        }
        assert forall|i: int, j: int|
            0 <= i < old.spec_tiles_wide() && 0 <= j < old.spec_tiles_high() implies (#[trigger] self.spec_tile(i, j)).content_hint
                == old.spec_tile(i, j).content_hint by {
            assert(hole_visited(tx0, tx1, ty0, tx0, ty1 + 1, i, j) || self.spec_tile(i, j) == old.spec_tile(i, j));
        }
        assert forall|x: int, y: int| old.in_bounds(x, y) implies {
            &&& #[trigger] self.spec_terrain(x, y) == if old.carves(cx, cy, r, x, y) {
                carved_terrain(old.spec_terrain(x, y))
            } else {
                old.spec_terrain(x, y)
            }
            &&& self.spec_artwork(x, y) == if old.carves(cx, cy, r, x, y) {
                carved_artwork(old.spec_terrain(x, y), water_color)
            } else {
                old.spec_artwork(x, y)
            }
        } by {
            old.lemma_pixel_tile(x, y);
            let ti = tile_of(x, y).0;
            let tj = tile_of(x, y).1;
            let k = y % TILE_SIZE as int;
            let m = x % TILE_SIZE as int;
            old.lemma_tile_pixel(ti, tj, k, m);
            self.lemma_tile_pixel(ti, tj, k, m);
            old.lemma_carves_tile_pixel(cx, cy, r, ti, tj, k, m);
            if hole_visited(tx0, tx1, ty0, tx0, ty1 + 1, ti, tj) {
                assert(tile_carve_ok(
                    old.spec_tile(ti, tj),
                    self.spec_tile(ti, tj),
                    ti * TILE_SIZE,
                    tj * TILE_SIZE,
                    cx,
                    cy,
                    r,
                    water_color,
                ));
            } else {
                assert(self.spec_tile(ti, tj) == old.spec_tile(ti, tj));
            }
        }
        assert forall|a: int, b: int|
            #![trigger out[a], out[b]]
            0 <= a < b < out.len() implies (out[a].x, out[a].y) != (out[b].x, out[b].y) by {
            assert(pixel_key(tw, out[a].x as int, out[a].y as int) < pixel_key(tw, out[b].x as int, out[b].y as int));
        }
        assert forall|a: int, b: int|
            #![trigger dirty[a], dirty[b]]
            0 <= a < b < dirty.len() implies dirty[a] != dirty[b] by {
            assert(dirty[a].1 * tw + dirty[a].0 < dirty[b].1 * tw + dirty[b].0);
        }
    }


    /// Level pixels (x, y) and (x2, y2) that are in the level and differ lie in
    /// different tiles or at different offsets of their tile
    proof fn lemma_pixel_unique(&self, x: int, y: int, x2: int, y2: int)
        requires
            self.wf(),
            self.in_bounds(x, y),
            self.in_bounds(x2, y2),
            other_pixel(x, y, x2, y2),
        ensures
            tile_index_of(self.tiles_wide as int, x, y) != tile_index_of(self.tiles_wide as int, x2, y2)
                || offset_in_tile(x, y) != offset_in_tile(x2, y2),
    {
        self.lemma_pixel_tile(x, y);
        self.lemma_pixel_tile(x2, y2);
        let tw = self.tiles_wide as int;
        lemma_div_mod_parts(y / TILE_SIZE as int, tw, x / TILE_SIZE as int);
        lemma_div_mod_parts(y2 / TILE_SIZE as int, tw, x2 / TILE_SIZE as int);
    }

    /// Write terrain and artwork of one level pixel
    fn set_pixel_lc(&mut self, x: i32, y: i32, ter: Terrain, art: u32)
        requires
            old(self).wf(),
            old(self).in_bounds(x as int, y as int),
        ensures
            final(self).wf(),
            final(self).tiles_wide == old(self).tiles_wide,
            final(self).tiles_high == old(self).tiles_high,
            final(self).spec_terrain(x as int, y as int) == ter,
            final(self).spec_artwork(x as int, y as int) == art,
            forall|i: int, j: int|
                0 <= i < old(self).spec_tiles_wide() && 0 <= j < old(self).spec_tiles_high() ==> (#[trigger] final(self).spec_tile(i, j)).content_hint
                    == old(self).spec_tile(i, j).content_hint,
            forall|x2: int, y2: int|
                #![trigger final(self).spec_terrain(x2, y2)]
                #![trigger final(self).spec_artwork(x2, y2)]
                old(self).in_bounds(x2, y2) && other_pixel(x as int, y as int, x2, y2) ==> final(self).spec_terrain(x2, y2)
                    == old(self).spec_terrain(x2, y2) && final(self).spec_artwork(x2, y2) == old(self).spec_artwork(x2, y2),
    {
        proof {
            lemma_pixel_in_grid(self.tiles_wide as int, self.tiles_high as int, x as int, y as int);
        }
        let t = ((y / TILE_SIZE) * self.tiles_wide + x / TILE_SIZE) as usize;
        let o = ((y % TILE_SIZE) * TILE_SIZE + x % TILE_SIZE) as usize;
        let ghost pre = *self;
        let tile = &mut self.tiles[t];
        tile.terrain.set(o, ter);
        tile.artwork.set(o, art);
        proof {
            assert forall|u: int| 0 <= u < self.tiles@.len() implies (#[trigger] self.tiles@[u]).wf() by {
                if u != t {
                    assert(self.tiles@[u] == pre.tiles@[u]);
                }
            }
            assert forall|i: int, j: int|
                0 <= i < pre.spec_tiles_wide() && 0 <= j < pre.spec_tiles_high() implies (#[trigger] self.spec_tile(i, j)).content_hint
                    == pre.spec_tile(i, j).content_hint by {
                assert(0 <= j * self.tiles_wide + i < self.tiles_wide * self.tiles_high) by (nonlinear_arith)
                    requires 0 <= i < self.tiles_wide, 0 <= j < self.tiles_high;
                if j * self.tiles_wide + i != t {
                    assert(self.tiles@[j * self.tiles_wide + i] == pre.tiles@[j * self.tiles_wide + i]);
                }
            }
            assert forall|x2: int, y2: int| pre.in_bounds(x2, y2) && other_pixel(x as int, y as int, x2, y2) implies #[trigger] self.spec_terrain(x2, y2)
                == pre.spec_terrain(x2, y2) && self.spec_artwork(x2, y2) == pre.spec_artwork(x2, y2) by {
                pre.lemma_pixel_unique(x as int, y as int, x2, y2);
                lemma_pixel_in_grid(self.tiles_wide as int, self.tiles_high as int, x2, y2);
                let t2 = tile_index_of(self.tiles_wide as int, x2, y2);
                let o2 = offset_in_tile(x2, y2);
                if t2 != t {
                    assert(self.tiles@[t2] == pre.tiles@[t2]);
                } else {
                    assert(o2 != o);
                    assert(self.tiles@[t as int].terrain@ == pre.tiles@[t as int].terrain@.update(o as int, ter));
                    assert(self.tiles@[t as int].artwork@ == pre.tiles@[t as int].artwork@.update(o as int, art));
                }
            }
            assert(forall|x2: int, y2: int|
                #![trigger self.spec_terrain(x2, y2)]
                #![trigger self.spec_artwork(x2, y2)]
                pre.in_bounds(x2, y2) && other_pixel(x as int, y as int, x2, y2) ==> self.spec_terrain(x2, y2)
                    == pre.spec_terrain(x2, y2) && self.spec_artwork(x2, y2) == pre.spec_artwork(x2, y2));
        }
    }

    /// Replace a level pixel with a solid (`solid` a solid type, possibly with the
    /// dynamic bit) or with empty space (`solid` zero). The underwater bit is preserved.
    ///
    /// Emptied pixels get the artwork `color`, or the water colour underwater. Solid
    /// pixels get `color`; underwater it is seen through the water, and a colour that
    /// is not fully opaque is drawn over the old artwork. Returns the tile whose
    /// artwork changed, or None when the pixel is outside the level.
    pub fn replace_point_lc<B: PixelBlend>(
        &mut self,
        x: i32,
        y: i32,
        solid: Terrain,
        color: u32,
        water_color: u32,
        blender: &B,
    ) -> (r: Option<(i32, i32)>)
        requires
            old(self).wf(),
            solid & !(TER_MASK_SOLID | TER_BIT_DYNAMIC) == 0,
        ensures
            final(self).wf(),
            final(self).spec_tiles_wide() == old(self).spec_tiles_wide(),
            final(self).spec_tiles_high() == old(self).spec_tiles_high(),
            forall|i: int, j: int|
                0 <= i < old(self).spec_tiles_wide() && 0 <= j < old(self).spec_tiles_high() ==> (#[trigger] final(self).spec_tile(i, j)).content_hint
                    == old(self).spec_tile(i, j).content_hint,
            forall|x2: int, y2: int|
                #![trigger final(self).spec_terrain(x2, y2)]
                #![trigger final(self).spec_artwork(x2, y2)]
                old(self).in_bounds(x2, y2) && other_pixel(x as int, y as int, x2, y2) ==> final(self).spec_terrain(x2, y2)
                    == old(self).spec_terrain(x2, y2) && final(self).spec_artwork(x2, y2) == old(self).spec_artwork(x2, y2),
            !old(self).in_bounds(x as int, y as int) ==> r is None,
            old(self).in_bounds(x as int, y as int) ==> {
                let t = old(self).spec_terrain(x as int, y as int);
                &&& r == Some(((x / TILE_SIZE) as i32, (y / TILE_SIZE) as i32))
                &&& final(self).spec_terrain(x as int, y as int) == replaced_terrain(t, solid)
                &&& solid == 0 ==> final(self).spec_artwork(x as int, y as int) == if water_bit(t) {
                    water_color
                } else {
                    color
                }
                &&& (solid != 0 && !water_bit(t) && color & 0xff00_0000 == 0xff00_0000) ==> final(self).spec_artwork(
                    x as int,
                    y as int,
                ) == color
            },
    {
        if x < 0 || y < 0 || x >= self.tiles_wide * TILE_SIZE || y >= self.tiles_high * TILE_SIZE {
            return None;
        }
        let t = self.terrain_at_lc(x, y);
        let art: u32;
        let ter: Terrain;
        if solid == 0 {
            ter = t & !(TER_BIT_DESTRUCTIBLE | TER_MASK_SOLID | TER_BIT_DYNAMIC);
            if is_underwater(t) {
                art = water_color;
            } else {
                art = color;
            }
        } else {
            if is_underwater(t) {
                art = blender.blend_water(color, water_color);
            } else if color & 0xff00_0000 != 0xff00_0000 {
                let old_art = self.pixel_at_lc(x, y);
                art = blender.blend(old_art, color);
            } else {
                art = color;
            }
            ter = (t & !TER_MASK_SOLID) | TER_BIT_DESTRUCTIBLE | solid;
        }
        self.set_pixel_lc(x, y, ter, art);
        Some((x / TILE_SIZE, y / TILE_SIZE))
    }

    /// Add a terrain point at a level pixel. The change is made only if the pixel is
    /// in the level and not already solid; underwater pixels stay underwater.
    /// Returns the tile whose artwork changed, if any.
    pub fn add_point_lc(&mut self, x: i32, y: i32, ter: Terrain, color: u32) -> (r: Option<(i32, i32)>)
        requires
            old(self).wf(),
        ensures
            final(self).wf(),
            final(self).spec_tiles_wide() == old(self).spec_tiles_wide(),
            final(self).spec_tiles_high() == old(self).spec_tiles_high(),
            forall|i: int, j: int|
                0 <= i < old(self).spec_tiles_wide() && 0 <= j < old(self).spec_tiles_high() ==> (#[trigger] final(self).spec_tile(i, j)).content_hint
                    == old(self).spec_tile(i, j).content_hint,
            forall|x2: int, y2: int|
                #![trigger final(self).spec_terrain(x2, y2)]
                #![trigger final(self).spec_artwork(x2, y2)]
                old(self).in_bounds(x2, y2) && (other_pixel(x as int, y as int, x2, y2) || r is None) ==> final(self).spec_terrain(x2, y2)
                    == old(self).spec_terrain(x2, y2) && final(self).spec_artwork(x2, y2) == old(self).spec_artwork(x2, y2),
            (r is Some) <==> (old(self).in_bounds(x as int, y as int) && solid_type(old(self).spec_terrain(x as int, y as int)) == 0),
            r is Some ==> {
                &&& r == Some(((x / TILE_SIZE) as i32, (y / TILE_SIZE) as i32))
                &&& final(self).spec_terrain(x as int, y as int) == added_terrain(old(self).spec_terrain(x as int, y as int), ter)
                &&& final(self).spec_artwork(x as int, y as int) == color
            },
    {
        if x < 0 || y < 0 || x >= self.tiles_wide * TILE_SIZE || y >= self.tiles_high * TILE_SIZE {
            return None;
        }
        let t = self.terrain_at_lc(x, y);
        if is_solid(t) {
            return None;
        }
        let new_ter = if is_underwater(t) {
            ter | TER_BIT_WATER
        } else {
            ter
        };
        self.set_pixel_lc(x, y, new_ter, color);
        Some((x / TILE_SIZE, y / TILE_SIZE))
    }

    /// Change the artwork of a level pixel without changing its terrain type:
    /// `color` is drawn over the old artwork. Returns the tile whose artwork changed,
    /// or None when the pixel is outside the level.
    pub fn color_point_lc<B: PixelBlend>(&mut self, x: i32, y: i32, color: u32, blender: &B) -> (r: Option<(i32, i32)>)
        requires
            old(self).wf(),
        ensures
            final(self).wf(),
            final(self).spec_tiles_wide() == old(self).spec_tiles_wide(),
            final(self).spec_tiles_high() == old(self).spec_tiles_high(),
            forall|i: int, j: int|
                0 <= i < old(self).spec_tiles_wide() && 0 <= j < old(self).spec_tiles_high() ==> (#[trigger] final(self).spec_tile(i, j)).content_hint
                    == old(self).spec_tile(i, j).content_hint,
            forall|x2: int, y2: int|
                #![trigger final(self).spec_terrain(x2, y2)]
                old(self).in_bounds(x2, y2) ==> final(self).spec_terrain(x2, y2) == old(self).spec_terrain(x2, y2),
            forall|x2: int, y2: int|
                #![trigger final(self).spec_artwork(x2, y2)]
                old(self).in_bounds(x2, y2) && (other_pixel(x as int, y as int, x2, y2) || r is None) ==> final(self).spec_artwork(x2, y2)
                    == old(self).spec_artwork(x2, y2),
            (r is Some) <==> old(self).in_bounds(x as int, y as int),
            r is Some ==> r == Some(((x / TILE_SIZE) as i32, (y / TILE_SIZE) as i32)),
    {
        if x < 0 || y < 0 || x >= self.tiles_wide * TILE_SIZE || y >= self.tiles_high * TILE_SIZE {
            return None;
        }
        let t = self.terrain_at_lc(x, y);
        let old_art = self.pixel_at_lc(x, y);
        let art = blender.blend(old_art, color);
        self.set_pixel_lc(x, y, t, art);
        Some((x / TILE_SIZE, y / TILE_SIZE))
    }


    /// Recompute the content hints of the given tiles after their terrain changed
    pub fn reset_hints(&mut self, dirty: &Vec<(i32, i32)>)
        requires
            old(self).wf(),
            forall|d: int|
                0 <= d < dirty.len() ==> 0 <= (#[trigger] dirty@[d]).0 < old(self).spec_tiles_wide() && 0 <= dirty@[d].1
                    < old(self).spec_tiles_high(),
        ensures
            final(self).wf(),
            final(self).spec_tiles_wide() == old(self).spec_tiles_wide(),
            final(self).spec_tiles_high() == old(self).spec_tiles_high(),
            forall|i: int, j: int|
                0 <= i < old(self).spec_tiles_wide() && 0 <= j < old(self).spec_tiles_high() ==> {
                    &&& (#[trigger] final(self).spec_tile(i, j)).terrain@ == old(self).spec_tile(i, j).terrain@
                    &&& final(self).spec_tile(i, j).artwork@ == old(self).spec_tile(i, j).artwork@
                    &&& final(self).spec_tile(i, j).content_hint == if dirty@.contains((i as i32, j as i32)) {
                        spec_content_hint(old(self).spec_tile(i, j).terrain@)
                    } else {
                        old(self).spec_tile(i, j).content_hint
                    }
                },
    {
        let ghost pre = *self;
        let tw = self.tiles_wide;
        let mut d: usize = 0;
        while d < dirty.len()
            invariant
                pre.wf(),
                self.wf(),
                self.tiles_wide == pre.tiles_wide,
                self.tiles_high == pre.tiles_high,
                tw == self.tiles_wide,
                d <= dirty.len(),
                forall|e: int|
                    0 <= e < dirty.len() ==> 0 <= (#[trigger] dirty@[e]).0 < pre.spec_tiles_wide() && 0 <= dirty@[e].1
                        < pre.spec_tiles_high(),
                forall|i: int, j: int|
                    0 <= i < pre.spec_tiles_wide() && 0 <= j < pre.spec_tiles_high() ==> {
                        &&& (#[trigger] self.spec_tile(i, j)).terrain@ == pre.spec_tile(i, j).terrain@
                        &&& self.spec_tile(i, j).artwork@ == pre.spec_tile(i, j).artwork@
                        &&& self.spec_tile(i, j).content_hint == if dirty@.subrange(0, d as int).contains((i as i32, j as i32)) {
                            spec_content_hint(pre.spec_tile(i, j).terrain@)
                        } else {
                            pre.spec_tile(i, j).content_hint
                        }
                    },
            decreases dirty.len() - d,
        {
            let (i, j) = dirty[d];
            proof {
                assert(dirty@[d as int] == (i, j));
                assert(0 <= j * tw + i < tw * self.tiles_high) by (nonlinear_arith)
                    requires 0 <= i < tw, 0 <= j < self.tiles_high;
            }
            let idx = (j * tw + i) as usize;
            let ghost before = *self;
            self.tiles[idx].reset_content_hint();
            proof {
                assert forall|u: int| 0 <= u < self.tiles@.len() implies (#[trigger] self.tiles@[u]).wf() by {
                    if u != idx {
                        assert(self.tiles@[u] == before.tiles@[u]);
                    }
                }
                assert(dirty@.subrange(0, d + 1) == dirty@.subrange(0, d as int).push((i, j)));
                assert forall|ti: int, tj: int|
                    0 <= ti < pre.spec_tiles_wide() && 0 <= tj < pre.spec_tiles_high() implies {
                        &&& (#[trigger] self.spec_tile(ti, tj)).terrain@ == pre.spec_tile(ti, tj).terrain@
                        &&& self.spec_tile(ti, tj).artwork@ == pre.spec_tile(ti, tj).artwork@
                        &&& self.spec_tile(ti, tj).content_hint == if dirty@.subrange(0, d + 1).contains((ti as i32, tj as i32)) {
                            spec_content_hint(pre.spec_tile(ti, tj).terrain@)
                        } else {
                            pre.spec_tile(ti, tj).content_hint
                        }
                    } by {
                    assert(0 <= tj * tw + ti < tw * self.tiles_high) by (nonlinear_arith)
                        requires 0 <= ti < tw, 0 <= tj < self.tiles_high;
                    lemma_div_mod_parts(tj, tw as int, ti);
                    lemma_div_mod_parts(j as int, tw as int, i as int);
                    assert(before.spec_tile(ti, tj).terrain@ == pre.spec_tile(ti, tj).terrain@);
                    if ti == i && tj == j {
                        assert(dirty@.subrange(0, d + 1)[d as int] == (ti as i32, tj as i32));
                        assert(dirty@.subrange(0, d + 1).contains((ti as i32, tj as i32)));
                    } else {
                        assert(tj * tw + ti != idx);
                        assert(self.spec_tile(ti, tj) == before.spec_tile(ti, tj));
                        assert(dirty@.subrange(0, d + 1).contains((ti as i32, tj as i32)) == dirty@.subrange(0, d as int).contains((ti as i32, tj as i32)));
                    }
                }
            }
            d += 1;
        }
        proof {
            assert(dirty@.subrange(0, dirty.len() as int) == dirty@);
        }
    }


    /// The terrain a trace that found no solid pixel reports: open space or water
    /// (for tiles known to hold only that) or the terrain of some level pixel
    pub open spec fn clear_summary(&self, t: Terrain) -> bool {
        t == 0 || t == TER_BIT_WATER || exists|x: int, y: int| #[trigger] self.in_bounds(x, y) && self.spec_terrain(x, y) == t
    }

    /// The part of line l in tile (i, j) that the clipper gives, when it lies inside the tile
    pub open spec fn tile_segment<C: LineClip>(&self, clipper: C, l: Line, i: int, j: int) -> Option<Line> {
        let ox = i * TILE_SIZE;
        let oy = j * TILE_SIZE;
        match clipper.clipped(l, Rect { x: ox as i32, y: oy as i32, w: TILE_SIZE, h: TILE_SIZE }) {
            Some(s) => if ox <= s.x1 < ox + TILE_SIZE && oy <= s.y1 < oy + TILE_SIZE && ox <= s.x2 < ox + TILE_SIZE
                && oy <= s.y2 < oy + TILE_SIZE {
                Some(s)
            } else {
                None
            },
            None => None,
        }
    }

    /// What the part `seg` of a line in tile (i, j) meets: the first solid pixel on
    /// it (in level coordinates), or the terrain at its end. Tiles hinted to hold
    /// only open space or only water are taken at their word.
    pub open spec fn segment_hit(&self, i: int, j: int, seg: Line) -> LineHit {
        let ox = i * TILE_SIZE;
        let oy = j * TILE_SIZE;
        let tile = self.spec_tile(i, j);
        if tile.content_hint == TileContentHint::FreeSpace {
            LineHit::Clear(0)
        } else if tile.content_hint == TileContentHint::Water {
            LineHit::Clear(TER_BIT_WATER)
        } else {
            let local = Line {
                x1: (seg.x1 - ox) as i32,
                y1: (seg.y1 - oy) as i32,
                x2: (seg.x2 - ox) as i32,
                y2: (seg.y2 - oy) as i32,
            };
            match spec_line_hit(tile.terrain@, local) {
                LineHit::Solid { terrain, x, y } => LineHit::Solid { terrain, x: (x + ox) as i32, y: (y + oy) as i32 },
                LineHit::Clear(t) => LineHit::Clear(t),
            }
        }
    }

    /// The tile a trace along l moves to from tile (i, j), whose part of the line is `seg`:
    /// across the tile edge where that part ends, in the line's direction, staying in the level
    pub open spec fn next_tile(&self, l: Line, i: int, j: int, seg: Line) -> (int, int) {
        let ox = i * TILE_SIZE;
        let oy = j * TILE_SIZE;
        let ni = if seg.x2 == ox && i > 0 && l.x1 > l.x2 {
            i - 1
        } else if seg.x2 == ox + TILE_SIZE - 1 && i < self.spec_tiles_wide() - 1 && l.x1 < l.x2 {
            i + 1
        } else {
            i
        };
        let nj = if seg.y2 == oy && j > 0 && l.y1 > l.y2 {
            j - 1
        } else if seg.y2 == oy + TILE_SIZE - 1 && j < self.spec_tiles_high() - 1 && l.y1 < l.y2 {
            j + 1
        } else {
            j
        };
        (ni, nj)
    }

    /// Tracing line l from tile (i, j) on, with `last` the terrain found so far and at
    /// most `fuel` more tiles to visit: each tile's part of the line is followed in
    /// turn, and the first solid pixel met is the result. The trace ends without a
    /// hit, giving the terrain found last, when a tile has no part of the line, at
    /// the tile of the line's end, when it cannot move on, or when the fuel runs out.
    pub open spec fn trace_from<C: LineClip>(&self, clipper: C, l: Line, i: int, j: int, last: Terrain, fuel: nat) -> LineHit
        decreases fuel,
    {
        if fuel == 0 {
            LineHit::Clear(last)
        } else {
            match self.tile_segment(clipper, l, i, j) {
                None => LineHit::Clear(last),
                Some(seg) => match self.segment_hit(i, j, seg) {
                    LineHit::Solid { terrain, x, y } => LineHit::Solid { terrain, x, y },
                    LineHit::Clear(t) => if i == trunc_div(l.x2 as int, TILE_SIZE as int) && j == trunc_div(l.y2 as int, TILE_SIZE as int) {
                        LineHit::Clear(t)
                    } else if self.next_tile(l, i, j, seg) == (i, j) {
                        LineHit::Clear(t)
                    } else {
                        self.trace_from(clipper, l, self.next_tile(l, i, j, seg).0, self.next_tile(l, i, j, seg).1, t, (fuel - 1) as nat)
                    },
                },
            }
        }
    }

    /// The level pixels a trace follows in tile (i, j) along the part `seg` of the line
    pub open spec fn segment_pixels(i: int, j: int, seg: Line) -> Seq<(int, int)> {
        let ox = i * TILE_SIZE;
        let oy = j * TILE_SIZE;
        let local = Line {
            x1: (seg.x1 - ox) as i32,
            y1: (seg.y1 - oy) as i32,
            x2: (seg.x2 - ox) as i32,
            y2: (seg.y2 - oy) as i32,
        };
        bresenham_path(local).map_values(|q: (int, int)| (q.0 + ox, q.1 + oy))
    }

    /// The level pixels a trace from tile (i, j) on follows, part after part of the
    /// line, up to the part where it stops (see [`LevelTerrain::trace_from`])
    pub open spec fn traced_pixels<C: LineClip>(&self, clipper: C, l: Line, i: int, j: int, fuel: nat) -> Seq<(int, int)>
        decreases fuel,
    {
        if fuel == 0 {
            Seq::empty()
        } else {
            match self.tile_segment(clipper, l, i, j) {
                None => Seq::empty(),
                Some(seg) => {
                    let here = Self::segment_pixels(i, j, seg);
                    match self.segment_hit(i, j, seg) {
                        LineHit::Solid { .. } => here,
                        LineHit::Clear(_) => if i == trunc_div(l.x2 as int, TILE_SIZE as int) && j == trunc_div(
                            l.y2 as int,
                            TILE_SIZE as int,
                        ) {
                            here
                        } else if self.next_tile(l, i, j, seg) == (i, j) {
                            here
                        } else {
                            here + self.traced_pixels(
                                clipper,
                                l,
                                self.next_tile(l, i, j, seg).0,
                                self.next_tile(l, i, j, seg).1,
                                (fuel - 1) as nat,
                            )
                        },
                    }
                },
            }
        }
    }

    /// Along one part of a line inside a tile, a hit is the first solid pixel the
    /// trace follows, and no hit means none of them is solid
    proof fn lemma_segment_hit(&self, i: int, j: int, seg: Line)
        requires
            self.wf(),
            self.hints_fresh(),
            0 <= i < self.tiles_wide,
            0 <= j < self.tiles_high,
            i * TILE_SIZE <= seg.x1 < i * TILE_SIZE + TILE_SIZE,
            i * TILE_SIZE <= seg.x2 < i * TILE_SIZE + TILE_SIZE,
            j * TILE_SIZE <= seg.y1 < j * TILE_SIZE + TILE_SIZE,
            j * TILE_SIZE <= seg.y2 < j * TILE_SIZE + TILE_SIZE,
        ensures
            ({
                let sp = Self::segment_pixels(i, j, seg);
                &&& forall|m: int| 0 <= m < sp.len() ==> self.in_bounds((#[trigger] sp[m]).0, sp[m].1)
                &&& self.segment_hit(i, j, seg) matches LineHit::Solid { terrain, x, y } ==> exists|k: int|
                    0 <= k < sp.len() && sp[k] == (x as int, y as int) && self.spec_terrain(x as int, y as int) == terrain
                        && solid_type(terrain) != 0 && forall|m: int|
                        0 <= m < k ==> solid_type(self.spec_terrain((#[trigger] sp[m]).0, sp[m].1)) == 0
                &&& self.segment_hit(i, j, seg) is Clear ==> forall|m: int|
                    0 <= m < sp.len() ==> solid_type(self.spec_terrain((#[trigger] sp[m]).0, sp[m].1)) == 0
            }),
    {
        let ox = i * TILE_SIZE;
        let oy = j * TILE_SIZE;
        let local = Line {
            x1: (seg.x1 - ox) as i32,
            y1: (seg.y1 - oy) as i32,
            x2: (seg.x2 - ox) as i32,
            y2: (seg.y2 - oy) as i32,
        };
        let path = bresenham_path(local);
        let sp = Self::segment_pixels(i, j, seg);
        let tile = self.spec_tile(i, j);
        let ter = tile.terrain@;
        law_bresenham_path_shape(local);
        assert(0 <= j * self.tiles_wide + i < self.tiles_wide * self.tiles_high) by (nonlinear_arith)
            requires 0 <= i < self.tiles_wide, 0 <= j < self.tiles_high;
        assert(tile == self.tiles@[j * self.tiles_wide + i]);
        assert forall|m: int| 0 <= m < path.len() implies in_tile((#[trigger] path[m]).0, path[m].1) && sp[m] == (
            path[m].0 + ox,
            path[m].1 + oy,
        ) && self.in_bounds(sp[m].0, sp[m].1) && self.spec_terrain(sp[m].0, sp[m].1) == ter[tile_offset(path[m].0, path[m].1)] by {
            self.lemma_tile_pixel(i, j, path[m].1, path[m].0);
        }
        if tile.content_hint == TileContentHint::FreeSpace || tile.content_hint == TileContentHint::Water {
            assert forall|m: int| 0 <= m < sp.len() implies solid_type(self.spec_terrain((#[trigger] sp[m]).0, sp[m].1)) == 0 by {
                assert(in_tile(path[m].0, path[m].1));
                law_content_hint_skips(ter, tile_offset(path[m].0, path[m].1));
            }
        } else {
            law_hit_along_is_first(ter, path, (local.x2 as int, local.y2 as int));
            if self.segment_hit(i, j, seg) is Solid {
                let h = spec_line_hit(ter, local);
                let k = choose|k: int|
                    0 <= k < path.len() && path[k].0 as i32 == h->x && path[k].1 as i32 == h->y && h->terrain == ter[tile_offset(
                        path[k].0,
                        path[k].1,
                    )] && solid_type(h->terrain) != 0 && forall|m: int|
                        0 <= m < k ==> solid_type(ter[tile_offset(#[trigger] path[m].0, path[m].1)]) == 0;
                assert(in_tile(path[k].0, path[k].1));
                assert(sp[k] == (path[k].0 + ox, path[k].1 + oy));
                assert forall|m: int| 0 <= m < k implies solid_type(self.spec_terrain((#[trigger] sp[m]).0, sp[m].1)) == 0 by {
                    assert(solid_type(ter[tile_offset(path[m].0, path[m].1)]) == 0);
                }
            } else {
                assert forall|m: int| 0 <= m < sp.len() implies solid_type(self.spec_terrain((#[trigger] sp[m]).0, sp[m].1)) == 0 by {
                    assert(solid_type(ter[tile_offset(path[m].0, path[m].1)]) == 0);
                }
            }
        }
    }

    /// A trace finds the first solid pixel it follows: when it hits, the hit is a
    /// solid pixel of the level among the pixels it followed, and none followed before
    /// it is solid; when it finds no hit, none of the pixels it followed is solid.
    /// (Tiles are skipped by their content hints, so the hints must be fresh.)
    pub proof fn law_trace_first_hit<C: LineClip>(&self, clipper: C, l: Line, i: int, j: int, last: Terrain, fuel: nat)
        requires
            self.wf(),
            self.hints_fresh(),
            0 <= i < self.spec_tiles_wide(),
            0 <= j < self.spec_tiles_high(),
        ensures
            ({
                let px = self.traced_pixels(clipper, l, i, j, fuel);
                &&& forall|m: int| 0 <= m < px.len() ==> self.in_bounds((#[trigger] px[m]).0, px[m].1)
                &&& self.trace_from(clipper, l, i, j, last, fuel) matches LineHit::Solid { terrain, x, y } ==> exists|k: int|
                    0 <= k < px.len() && px[k] == (x as int, y as int) && self.spec_terrain(x as int, y as int) == terrain
                        && solid_type(terrain) != 0 && forall|m: int|
                        0 <= m < k ==> solid_type(self.spec_terrain((#[trigger] px[m]).0, px[m].1)) == 0
                &&& self.trace_from(clipper, l, i, j, last, fuel) is Clear ==> forall|m: int|
                    0 <= m < px.len() ==> solid_type(self.spec_terrain((#[trigger] px[m]).0, px[m].1)) == 0
            }),
        decreases fuel,
    {
        if fuel > 0 {
            match self.tile_segment(clipper, l, i, j) {
                None => {},
                Some(seg) => {
                    self.lemma_segment_hit(i, j, seg);
                    let here = Self::segment_pixels(i, j, seg);
                    if self.segment_hit(i, j, seg) is Clear && !(i == trunc_div(l.x2 as int, TILE_SIZE as int) && j == trunc_div(
                        l.y2 as int,
                        TILE_SIZE as int,
                    )) && self.next_tile(l, i, j, seg) != (i, j) {
                        let t = self.segment_hit(i, j, seg)->Clear_0;
                        let (ni, nj) = self.next_tile(l, i, j, seg);
                        self.law_trace_first_hit(clipper, l, ni, nj, t, (fuel - 1) as nat);
                        let rest = self.traced_pixels(clipper, l, ni, nj, (fuel - 1) as nat);
                        let px = here + rest;
                        assert(px == self.traced_pixels(clipper, l, i, j, fuel));
                        assert(self.trace_from(clipper, l, i, j, last, fuel) == self.trace_from(clipper, l, ni, nj, t, (fuel - 1) as nat));
                        assert forall|m: int| 0 <= m < px.len() implies self.in_bounds((#[trigger] px[m]).0, px[m].1) by {
                            if m >= here.len() {
                                assert(px[m] == rest[m - here.len()]);
                            }
                        }
                        let r = self.trace_from(clipper, l, ni, nj, t, (fuel - 1) as nat);
                        if r is Solid {
                            let k = choose|k: int|
                                0 <= k < rest.len() && rest[k] == (r->x as int, r->y as int) && self.spec_terrain(r->x as int, r->y as int)
                                    == r->terrain && solid_type(r->terrain) != 0 && forall|m: int|
                                    0 <= m < k ==> solid_type(self.spec_terrain((#[trigger] rest[m]).0, rest[m].1)) == 0;
                            assert(px[here.len() + k] == rest[k]);
                            assert forall|m: int| 0 <= m < here.len() + k implies solid_type(
                                self.spec_terrain((#[trigger] px[m]).0, px[m].1),
                            ) == 0 by {
                                if m >= here.len() {
                                    assert(px[m] == rest[m - here.len()]);
                                } else {
                                    assert(px[m] == here[m]);
                                }
                            }
                        } else {
                            assert forall|m: int| 0 <= m < px.len() implies solid_type(self.spec_terrain((#[trigger] px[m]).0, px[m].1))
                                == 0 by {
                                if m >= here.len() {
                                    assert(px[m] == rest[m - here.len()]);
                                } else {
                                    assert(px[m] == here[m]);
                                }
                            }
                        }
                    }
                },
            }
        }
    }

    /// Check for collisions with solid terrain along a line in level pixel
    /// coordinates that starts inside the level.
    ///
    /// The line is followed tile by tile (at most 100 tiles), clipping it to each
    /// tile with `clipper`; tiles known to hold only open space or only water are
    /// skipped. Returns the first solid point found, or else the terrain type at the
    /// end of the last tile segment followed.
    pub fn terrain_line_lc<C: LineClip>(&self, l: Line, clipper: &C) -> (r: LineHit)
        requires
            self.wf(),
            self.in_bounds(l.x1 as int, l.y1 as int),
        ensures
            r matches LineHit::Solid { terrain, x, y } ==> self.in_bounds(x as int, y as int) && self.spec_terrain(
                x as int,
                y as int,
            ) == terrain && solid_type(terrain) != 0,
            r matches LineHit::Clear(t) ==> self.clear_summary(t),
            r == self.trace_from(*clipper, l, l.x1 / TILE_SIZE, l.y1 / TILE_SIZE, 0, 100),
            self.traced_pixels(*clipper, l, l.x1 / TILE_SIZE, l.y1 / TILE_SIZE, 100).len() > 0,
            self.traced_pixels(*clipper, l, l.x1 / TILE_SIZE, l.y1 / TILE_SIZE, 100)[0] == (l.x1 as int, l.y1 as int),
    {
        let tw = self.tiles_wide;
        let th = self.tiles_high;
        proof {
            lemma_pixel_in_grid(tw as int, th as int, l.x1 as int, l.y1 as int);
        }
        let mut i: i32 = l.x1 / TILE_SIZE;
        let mut j: i32 = l.y1 / TILE_SIZE;
        let last_i: i32 = l.x2 / TILE_SIZE;
        let last_j: i32 = l.y2 / TILE_SIZE;
        let mut prev_i: i32 = -1;
        let mut prev_j: i32 = -1;
        let mut last_non_solid: Terrain = 0;
        let mut loop_limit: i32 = 100;
        while loop_limit > 0 && (i != prev_i || j != prev_j)
            invariant
                self.wf(),
                tw == self.tiles_wide,
                th == self.tiles_high,
                0 <= i < tw,
                0 <= j < th,
                0 <= loop_limit <= 100,
                self.clear_summary(last_non_solid),
                last_i == trunc_div(l.x2 as int, TILE_SIZE as int),
                last_j == trunc_div(l.y2 as int, TILE_SIZE as int),
                self.trace_from(*clipper, l, l.x1 / TILE_SIZE, l.y1 / TILE_SIZE, 0, 100) == if i == prev_i && j == prev_j {
                    LineHit::Clear(last_non_solid)
                } else {
                    self.trace_from(*clipper, l, i as int, j as int, last_non_solid, loop_limit as nat)
                },
            loop_limit == 100 ==> i == l.x1 / TILE_SIZE && j == l.y1 / TILE_SIZE && prev_i == -1,
            loop_limit < 100 ==> self.traced_pixels(*clipper, l, l.x1 / TILE_SIZE, l.y1 / TILE_SIZE, 100).len() > 0
                && self.traced_pixels(*clipper, l, l.x1 / TILE_SIZE, l.y1 / TILE_SIZE, 100)[0] == (l.x1 as int, l.y1 as int),
            ensures
                self.traced_pixels(*clipper, l, l.x1 / TILE_SIZE, l.y1 / TILE_SIZE, 100).len() > 0,
                self.traced_pixels(*clipper, l, l.x1 / TILE_SIZE, l.y1 / TILE_SIZE, 100)[0] == (l.x1 as int, l.y1 as int),
                self.wf(),
                self.clear_summary(last_non_solid),
                self.trace_from(*clipper, l, l.x1 / TILE_SIZE, l.y1 / TILE_SIZE, 0, 100) == LineHit::Clear(last_non_solid),
            decreases loop_limit,
        {
            let ghost gi = i as int;
            let ghost gj = j as int;
            let ghost last0 = last_non_solid;
            let ghost fuel0 = loop_limit as nat;
            prev_i = i;
            prev_j = j;
            loop_limit -= 1;
            proof {
                assert(i * TILE_SIZE <= i32::MAX - TILE_SIZE) by (nonlinear_arith)
                    requires 0 <= i < tw, tw * TILE_SIZE <= i32::MAX;
                assert(j * TILE_SIZE <= i32::MAX - TILE_SIZE) by (nonlinear_arith)
                    requires 0 <= j < th, th * TILE_SIZE <= i32::MAX;
                assert(0 <= j * tw + i < tw * th) by (nonlinear_arith)
                    requires 0 <= i < tw, 0 <= j < th;
            }
            let tile_rect = Rect::new(i * TILE_SIZE, j * TILE_SIZE, TILE_SIZE, TILE_SIZE);
            proof {
                assert(tile_rect == Rect { x: (gi * TILE_SIZE) as i32, y: (gj * TILE_SIZE) as i32, w: TILE_SIZE, h: TILE_SIZE });
            }
            let isect = match clipper.clip(l, tile_rect) {
                Some(isect) => isect,
                None => {
                    proof {
                        assert(self.tile_segment(*clipper, l, gi, gj) is None);
                    }
                    break;
                },
            };
            let ox = tile_rect.x();
            let oy = tile_rect.y();
            // the clipped segment must lie inside this tile
            if isect.x1 < ox || isect.x1 > ox + (TILE_SIZE - 1) || isect.y1 < oy || isect.y1 > oy + (TILE_SIZE - 1)
                || isect.x2 < ox || isect.x2 > ox + (TILE_SIZE - 1) || isect.y2 < oy || isect.y2 > oy + (TILE_SIZE - 1) {
                proof {
                    assert(self.tile_segment(*clipper, l, gi, gj) is None);
                }
                break;
            }
            proof {
                assert(self.tile_segment(*clipper, l, gi, gj) == Some(isect));
                assert(self.spec_tile(gi, gj) == self.tiles@[j * tw + i]);
                if fuel0 == 100 {
                    assert(isect.x1 == l.x1 && isect.y1 == l.y1);
                    let local = Line {
                        x1: (isect.x1 - gi * TILE_SIZE) as i32,
                        y1: (isect.y1 - gj * TILE_SIZE) as i32,
                        x2: (isect.x2 - gi * TILE_SIZE) as i32,
                        y2: (isect.y2 - gj * TILE_SIZE) as i32,
                    };
                    law_bresenham_path_shape(local);
                    let here = Self::segment_pixels(gi, gj, isect);
                    assert(here[0] == (l.x1 as int, l.y1 as int));
                    let tp = self.traced_pixels(*clipper, l, gi, gj, 100);
                    assert(tp.len() >= here.len() && tp[0] == here[0]) by {
                        if tp != here {
                            let (ni, nj) = self.next_tile(l, gi, gj, isect);
                            assert(tp == here + self.traced_pixels(*clipper, l, ni, nj, 99));
                        }
                    }
                }
            }
            let tile = &self.tiles[(j * tw + i) as usize];
            if tile.content_hint == TileContentHint::FreeSpace {
                last_non_solid = 0;
            } else if tile.content_hint == TileContentHint::Water {
                last_non_solid = TER_BIT_WATER;
            } else {
                let local = isect.offset(-ox, -oy);
                proof {
                    assert(self.tiles@[j * tw + i].wf());
                    assert(local == Line {
                        x1: (isect.x1 - gi * TILE_SIZE) as i32,
                        y1: (isect.y1 - gj * TILE_SIZE) as i32,
                        x2: (isect.x2 - gi * TILE_SIZE) as i32,
                        y2: (isect.y2 - gj * TILE_SIZE) as i32,
                    });
                }
                match tile.terrain_line(local) {
                    LineHit::Solid { terrain, x, y } => {
                        proof {
                            law_line_hit_in_tile(tile.terrain@, local);
                            self.lemma_tile_pixel(i as int, j as int, y as int, x as int);
                            assert(self.segment_hit(gi, gj, isect) == LineHit::Solid { terrain, x: (x + ox) as i32, y: (y + oy) as i32 });
                        }
                        return LineHit::Solid { terrain, x: x + ox, y: y + oy };
                    },
                    LineHit::Clear(t) => {
                        proof {
                            law_line_hit_in_tile(tile.terrain@, local);
                            self.lemma_tile_pixel(i as int, j as int, local.y2 as int, local.x2 as int);
                            assert(self.in_bounds(ox + local.x2, oy + local.y2)
                                && self.spec_terrain(ox + local.x2, oy + local.y2) == t);
                        }
                        last_non_solid = t;
                    },
                }
            }
            proof {
                assert(self.segment_hit(gi, gj, isect) == LineHit::Clear(last_non_solid));
            }
            if i == last_i && j == last_j {
                break;
            }
            if isect.x2 == tile_rect.x() && i > 0 && l.x1 > l.x2 {
                i -= 1;
            } else if isect.x2 == tile_rect.right() && i < tw - 1 && l.x1 < l.x2 {
                i += 1;
            }
            if isect.y2 == tile_rect.y() && j > 0 && l.y1 > l.y2 {
                j -= 1;
            } else if isect.y2 == tile_rect.bottom() && j < th - 1 && l.y1 < l.y2 {
                j += 1;
            }
            proof {
                assert(self.next_tile(l, gi, gj, isect) == (i as int, j as int));
            }
        }
        LineHit::Clear(last_non_solid)
    }


    /// Is the pixel of a regenerating terrain entry currently not solid?
    pub open spec fn regen_missing(&self, r: RegeneratingTerrain) -> bool {
        solid_type(self.spec_terrain(regen_pixel(r).0, regen_pixel(r).1)) == 0
    }

    /// Perform a terrain regeneration step.
    ///
    /// The first entry of `regen` whose pixel is not solid grows back, together with
    /// (by chance) other missing pixels of the following entries on the same tile row.
    /// Returns whether any pixel grew back, and the tiles whose artwork changed.
    pub fn regenerate_terrain<R: RegenChance>(&mut self, regen: &Vec<RegeneratingTerrain>, chance: &mut R) -> (res: (
        bool,
        Vec<(i32, i32)>,
    ))
        requires
            old(self).wf(),
            forall|k: int|
                0 <= k < regen.len() ==> 0 <= (#[trigger] regen@[k]).tile.0 < old(self).spec_tiles_wide() && 0 <= regen@[k].tile.1
                    < old(self).spec_tiles_high() && regen@[k].offset < TILE_LENGTH,
        ensures
            final(self).wf(),
            final(self).spec_tiles_wide() == old(self).spec_tiles_wide(),
            final(self).spec_tiles_high() == old(self).spec_tiles_high(),
            forall|i: int, j: int|
                0 <= i < old(self).spec_tiles_wide() && 0 <= j < old(self).spec_tiles_high() ==> (#[trigger] final(self).spec_tile(i, j)).content_hint
                    == old(self).spec_tile(i, j).content_hint,
            res.0 == exists|k: int| 0 <= k < regen.len() && #[trigger] old(self).regen_missing(regen@[k]),
            regen_edits_ok(regen@, *old(self), *final(self), res.1@),
            forall|k: int|
                0 <= k < regen.len() && #[trigger] old(self).regen_missing(regen@[k]) && (forall|j: int|
                    0 <= j < k ==> !old(self).regen_missing(regen@[j])) ==> regrown_from(
                    regen@,
                    *old(self),
                    *final(self),
                    res.1@,
                    regen_pixel(regen@[k]).0,
                    regen_pixel(regen@[k]).1,
                ),
    {
        let ghost pre = *self;
        let n = regen.len();
        // find the first missing pixel
        let mut first: usize = 0;
        while first < n
            invariant
                n == regen.len(),
                first <= n,
                self.wf(),
                *self == pre,
                forall|k: int|
                    0 <= k < regen.len() ==> 0 <= (#[trigger] regen@[k]).tile.0 < pre.spec_tiles_wide() && 0 <= regen@[k].tile.1
                        < pre.spec_tiles_high() && regen@[k].offset < TILE_LENGTH,
                forall|k: int| 0 <= k < first ==> !#[trigger] pre.regen_missing(regen@[k]),
            ensures
                first == n || (first < n && pre.regen_missing(regen@[first as int])),
                forall|k: int| 0 <= k < first ==> !#[trigger] pre.regen_missing(regen@[k]),
            decreases n - first,
        {
            if !self.regen_entry_solid(&regen[first]) {
                break;
            }
            first += 1;
        }
        let mut dirty: Vec<(i32, i32)> = Vec::new();
        if first == n {
            proof {
                assert(*self == pre);
                assert(regen_edits_ok(regen@, pre, *self, dirty@));
            }
            return (false, dirty);
        }
        // collect the pixels of the same row that grow back
        let mut changes: Vec<usize> = Vec::new();
        changes.push(first);
        let row = regen[first].offset / 64;
        proof {
            assert(in_first_run(regen@, pre, first as int)) by {
                assert(pre.regen_missing(regen@[first as int]));
            }
        }
        let mut k: usize = first + 1;
        while k < n
            invariant
                n == regen.len(),
                first < k <= n,
                self.wf(),
                *self == pre,
                forall|e: int|
                    0 <= e < regen.len() ==> 0 <= (#[trigger] regen@[e]).tile.0 < pre.spec_tiles_wide() && 0 <= regen@[e].tile.1
                        < pre.spec_tiles_high() && regen@[e].offset < TILE_LENGTH,
                changes.len() >= 1,
                changes@[0] == first,
                pre.regen_missing(regen@[first as int]),
                forall|c: int| 0 <= c < changes.len() ==> (#[trigger] changes@[c]) < n && pre.regen_missing(regen@[changes@[c] as int]),
                row == regen@[first as int].offset / 64,
                forall|j: int| 0 <= j < first ==> !pre.regen_missing(regen@[j]),
                forall|j: int| first <= j < k ==> regen@[j].offset / 64 == row,
                forall|c: int| 0 <= c < changes.len() ==> in_first_run(regen@, pre, #[trigger] changes@[c] as int),
            decreases n - k,
        {
            if regen[k].offset / 64 != row {
                break;
            }
            if !self.regen_entry_solid(&regen[k]) && chance.regrows(is_basesupport(regen[k].terrain)) {
                proof {
                    assert(in_first_run(regen@, pre, k as int)) by {
                        assert(pre.regen_missing(regen@[first as int]));
                    }
                }
                changes.push(k);
            }
            k += 1;
        }
        // apply them
        let ghost fp = regen_pixel(regen@[first as int]);
        let mut c: usize = 0;
        while c < changes.len()
            invariant
                n == regen.len(),
                0 <= c <= changes.len(),
                first < n,
                changes@[0] == first,
                changes.len() >= 1,
                fp == regen_pixel(regen@[first as int]),
                pre.regen_missing(regen@[first as int]),
                forall|cc: int| 0 <= cc < changes.len() ==> in_first_run(regen@, pre, #[trigger] changes@[cc] as int),
                c >= 1 ==> regrown_from(regen@, pre, *self, dirty@, fp.0, fp.1),
                forall|e: int|
                    0 <= e < regen.len() ==> 0 <= (#[trigger] regen@[e]).tile.0 < pre.spec_tiles_wide() && 0 <= regen@[e].tile.1
                        < pre.spec_tiles_high() && regen@[e].offset < TILE_LENGTH,
                forall|cc: int| 0 <= cc < changes.len() ==> (#[trigger] changes@[cc]) < n && pre.regen_missing(regen@[changes@[cc] as int]),
                self.wf(),
                pre.wf(),
                self.spec_tiles_wide() == pre.spec_tiles_wide(),
                self.spec_tiles_high() == pre.spec_tiles_high(),
                forall|i: int, j: int|
                    0 <= i < pre.spec_tiles_wide() && 0 <= j < pre.spec_tiles_high() ==> (#[trigger] self.spec_tile(i, j)).content_hint
                        == pre.spec_tile(i, j).content_hint,
                forall|x: int, y: int|
                    #![trigger self.spec_terrain(x, y)]
                    pre.in_bounds(x, y) && (self.spec_terrain(x, y) != pre.spec_terrain(x, y) || self.spec_artwork(x, y)
                        != pre.spec_artwork(x, y)) ==> regrown_from(regen@, pre, *self, dirty@, x, y),
            decreases changes.len() - c,
        {
            let e = regen[changes[c]];
            let ghost before = *self;
            let ghost dbefore = dirty@;
            let x = e.tile.0 * TILE_SIZE + (e.offset % 64) as i32;
            let y = e.tile.1 * TILE_SIZE + (e.offset / 64) as i32;
            proof {
                assert(pre.regen_missing(regen@[changes@[c as int] as int]));
                assert(e.tile.0 * TILE_SIZE <= i32::MAX - TILE_SIZE) by (nonlinear_arith)
                    requires 0 <= e.tile.0 < self.tiles_wide, self.tiles_wide * TILE_SIZE <= i32::MAX;
                assert(e.tile.1 * TILE_SIZE <= i32::MAX - TILE_SIZE) by (nonlinear_arith)
                    requires 0 <= e.tile.1 < self.tiles_high, self.tiles_high * TILE_SIZE <= i32::MAX;
                assert((x as int, y as int) == regen_pixel(e));
            }
            self.set_pixel_lc(x, y, e.terrain, e.color);
            dirty.push(e.tile);
            proof {
                let kk = changes@[c as int] as int;
                assert(regen@[kk] == e);
                assert(dirty@.contains(e.tile)) by {
                    assert(dirty@[dirty@.len() - 1] == e.tile);
                }
                assert forall|x2: int, y2: int|
                    pre.in_bounds(x2, y2) && (#[trigger] self.spec_terrain(x2, y2) != pre.spec_terrain(x2, y2) || self.spec_artwork(x2, y2)
                        != pre.spec_artwork(x2, y2)) implies regrown_from(regen@, pre, *self, dirty@, x2, y2) by {
                    if !other_pixel(x as int, y as int, x2, y2) {
                        assert(regen_pixel(regen@[kk]) == (x2, y2));
                    } else {
                        assert(self.spec_terrain(x2, y2) == before.spec_terrain(x2, y2));
                        assert(self.spec_artwork(x2, y2) == before.spec_artwork(x2, y2));
                        assert(regrown_from(regen@, pre, before, dbefore, x2, y2));
                        let w = choose|w: int|
                            0 <= w < regen.len() && #[trigger] regen_pixel(regen@[w]) == (x2, y2) && pre.regen_missing(regen@[w])
                                && before.spec_terrain(x2, y2) == regen@[w].terrain && before.spec_artwork(x2, y2) == regen@[w].color
                                && dbefore.contains(regen@[w].tile) && in_first_run(regen@, pre, w);
                        let d = choose|d: int| 0 <= d < dbefore.len() && dbefore[d] == regen@[w].tile;
                        assert(dirty@[d] == regen@[w].tile);
                    }
                }
                if !other_pixel(x as int, y as int, fp.0, fp.1) {
                    assert(regen_pixel(regen@[kk]) == fp);
                    assert(regrown_from(regen@, pre, *self, dirty@, fp.0, fp.1));
                } else {
                    assert(c >= 1);
                    assert(self.spec_terrain(fp.0, fp.1) == before.spec_terrain(fp.0, fp.1));
                    assert(self.spec_artwork(fp.0, fp.1) == before.spec_artwork(fp.0, fp.1));
                    let w = choose|w: int|
                        0 <= w < regen.len() && #[trigger] regen_pixel(regen@[w]) == fp && pre.regen_missing(regen@[w])
                            && before.spec_terrain(fp.0, fp.1) == regen@[w].terrain && before.spec_artwork(fp.0, fp.1) == regen@[w].color
                            && dbefore.contains(regen@[w].tile) && in_first_run(regen@, pre, w);
                    let d = choose|d: int| 0 <= d < dbefore.len() && dbefore[d] == regen@[w].tile;
                    assert(dirty@[d] == regen@[w].tile);
                    assert(regrown_from(regen@, pre, *self, dirty@, fp.0, fp.1));
                }
            }
            c += 1;
        }
        let ghost dv = dirty@;
        let result = (true, dirty);
        proof {
            assert(result.1@ == dv);
            assert(regen_edits_ok(regen@, pre, *self, result.1@));
            assert forall|k: int|
                0 <= k < regen.len() && #[trigger] pre.regen_missing(regen@[k]) && (forall|j: int|
                    0 <= j < k ==> !pre.regen_missing(regen@[j])) implies regrown_from(
                regen@,
                pre,
                *self,
                result.1@,
                regen_pixel(regen@[k]).0,
                regen_pixel(regen@[k]).1,
            ) by {
                if k < first {
                } else if k > first {
                    assert(!pre.regen_missing(regen@[first as int]));
                }
            }
        }
        result
    }

    /// Is the pixel of a regenerating terrain entry solid?
    fn regen_entry_solid(&self, r: &RegeneratingTerrain) -> (b: bool)
        requires
            self.wf(),
            0 <= r.tile.0 < self.spec_tiles_wide(),
            0 <= r.tile.1 < self.spec_tiles_high(),
            r.offset < TILE_LENGTH,
        ensures
            b == !self.regen_missing(*r),
    {
        proof {
            assert(r.tile.0 * TILE_SIZE <= i32::MAX - TILE_SIZE) by (nonlinear_arith)
                requires 0 <= r.tile.0 < self.tiles_wide, self.tiles_wide * TILE_SIZE <= i32::MAX;
            assert(r.tile.1 * TILE_SIZE <= i32::MAX - TILE_SIZE) by (nonlinear_arith)
                requires 0 <= r.tile.1 < self.tiles_high, self.tiles_high * TILE_SIZE <= i32::MAX;
        }
        let x = r.tile.0 * TILE_SIZE + (r.offset % 64) as i32;
        let y = r.tile.1 * TILE_SIZE + (r.offset / 64) as i32;
        proof {
            self.lemma_tile_pixel(r.tile.0 as int, r.tile.1 as int, (r.offset / 64) as int, (r.offset % 64) as int);
        }
        is_solid(self.terrain_at_lc(x, y))
    }

    pub fn tiles_wide(&self) -> (r: i32)
        ensures
            r == self.spec_tiles_wide(),
    {
        self.tiles_wide
    }

    pub fn tiles_high(&self) -> (r: i32)
        ensures
            r == self.spec_tiles_high(),
    {
        self.tiles_high
    }

    /// Width in level pixels
    pub fn width(&self) -> (r: i32)
        requires
            self.wf(),
        ensures
            r == self.spec_width(),
    {
        self.tiles_wide * TILE_SIZE
    }

    /// Height in level pixels
    pub fn height(&self) -> (r: i32)
        requires
            self.wf(),
        ensures
            r == self.spec_height(),
    {
        self.tiles_high * TILE_SIZE
    }

    /// Terrain type at level pixel (x, y).
    /// Outside the level this is the special level boundary type.
    pub fn terrain_at_lc(&self, x: i32, y: i32) -> (r: Terrain)
        requires
            self.wf(),
        ensures
            r == self.spec_terrain_at(x as int, y as int),
    {
        if x < 0 || y < 0 || x >= self.tiles_wide * TILE_SIZE || y >= self.tiles_high * TILE_SIZE {
            return TER_LEVELBOUND;
        }
        proof {
            lemma_pixel_in_grid(self.tiles_wide as int, self.tiles_high as int, x as int, y as int);
        }
        let t = ((y / TILE_SIZE) * self.tiles_wide + x / TILE_SIZE) as usize;
        let o = ((y % TILE_SIZE) * TILE_SIZE + x % TILE_SIZE) as usize;
        self.tiles[t].terrain[o]
    }

    /// Artwork pixel at level pixel (x, y); 0 outside the level
    pub fn pixel_at_lc(&self, x: i32, y: i32) -> (r: u32)
        requires
            self.wf(),
        ensures
            r == if self.in_bounds(x as int, y as int) {
                self.spec_artwork(x as int, y as int)
            } else {
                0
            },
    {
        if x < 0 || y < 0 || x >= self.tiles_wide * TILE_SIZE || y >= self.tiles_high * TILE_SIZE {
            return 0;
        }
        proof {
            lemma_pixel_in_grid(self.tiles_wide as int, self.tiles_high as int, x as int, y as int);
        }
        let t = ((y / TILE_SIZE) * self.tiles_wide + x / TILE_SIZE) as usize;
        let o = ((y % TILE_SIZE) * TILE_SIZE + x % TILE_SIZE) as usize;
        self.tiles[t].artwork[o]
    }

    /// The tile at tile coordinates (i, j)
    pub fn tile(&self, i: i32, j: i32) -> (r: &TerrainTile)
        requires
            self.wf(),
            0 <= i < self.spec_tiles_wide(),
            0 <= j < self.spec_tiles_high(),
        ensures
            *r == self.spec_tile(i as int, j as int),
            r.wf(),
    {
        proof {
            assert(0 <= j * self.tiles_wide + i < self.tiles_wide * self.tiles_high) by (nonlinear_arith)
                requires
                    0 <= i < self.tiles_wide,
                    0 <= j < self.tiles_high;
        }
        &self.tiles[(j * self.tiles_wide + i) as usize]
    }

    /// The range of tiles (first column, first row, last column, last row)
    /// touched by a rectangle in level pixel coordinates, clamped to the level.
    pub fn tile_range(&self, rect: Rect) -> (r: (i32, i32, i32, i32))
        requires
            self.wf(),
            self.spec_tiles_wide() >= 1,
            self.spec_tiles_high() >= 1,
            i32::MIN + 1 <= rect.x + rect.w <= i32::MAX,
            i32::MIN + 1 <= rect.y + rect.h <= i32::MAX,
        ensures
            r.0 == clamp_int(trunc_div(rect.x as int, TILE_SIZE as int), 0, self.spec_tiles_wide() - 1),
            r.1 == clamp_int(trunc_div(rect.y as int, TILE_SIZE as int), 0, self.spec_tiles_high() - 1),
            r.2 == clamp_int(trunc_div(rect.x + rect.w - 1, TILE_SIZE as int), 0, self.spec_tiles_wide() - 1),
            r.3 == clamp_int(trunc_div(rect.y + rect.h - 1, TILE_SIZE as int), 0, self.spec_tiles_high() - 1),
    {
        let w = self.tiles_wide - 1;
        let h = self.tiles_high - 1;
        let tx0 = clamp_i32(rect.x() / TILE_SIZE, 0, w);
        let tx1 = clamp_i32(rect.right() / TILE_SIZE, 0, w);
        let ty0 = clamp_i32(rect.y() / TILE_SIZE, 0, h);
        let ty1 = clamp_i32(rect.bottom() / TILE_SIZE, 0, h);
        (tx0, ty0, tx1, ty1)
    }
}

/// Terrain type of level pixel (x, y) when loading: the raw colour index mapped through the palette
pub open spec fn loaded_terrain(w: int, terrain_px: Seq<u8>, palette: Seq<Terrain>, x: int, y: int) -> Terrain {
    palette[terrain_px[y * w + x] as int]
}

/// Artwork of level pixel (x, y) when loading: transparent where the raw
/// terrain colour index is the transparency key
pub open spec fn loaded_artwork(
    w: int,
    terrain_px: Seq<u8>,
    artwork_px: Seq<u32>,
    transparent: Option<u8>,
    x: int,
    y: int,
) -> u32 {
    if transparent == Some(terrain_px[y * w + x]) {
        0
    } else {
        artwork_px[y * w + x]
    }
}

/// Does `tile` hold the pixels of tile (i, j) of a level `w` pixels wide?
pub open spec fn tile_loaded(
    tile: TerrainTile,
    w: int,
    i: int,
    j: int,
    terrain_px: Seq<u8>,
    artwork_px: Seq<u32>,
    transparent: Option<u8>,
    palette: Seq<Terrain>,
) -> bool {
    &&& tile.wf()
    &&& tile.content_hint == spec_content_hint(tile.terrain@)
    &&& forall|k: int, m: int|
        0 <= k < TILE_SIZE && 0 <= m < TILE_SIZE ==> {
            &&& #[trigger] tile.terrain@[k * TILE_SIZE + m] == loaded_terrain(
                w,
                terrain_px,
                palette,
                i * TILE_SIZE + m,
                j * TILE_SIZE + k,
            )
            &&& tile.artwork@[k * TILE_SIZE + m] == loaded_artwork(
                w,
                terrain_px,
                artwork_px,
                transparent,
                i * TILE_SIZE + m,
                j * TILE_SIZE + k,
            )
        }
}

proof fn lemma_raw_index(w: int, h: int, x: int, y: int)
    requires
        0 <= x < w,
        0 <= y < h,
    ensures
        0 <= y * w + x < w * h,
{
    assert(0 <= y * w + x < w * h) by (nonlinear_arith)
        requires
            0 <= x < w,
            0 <= y < h;
}

proof fn lemma_div_mod_parts(q: int, d: int, r: int)
    requires
        d > 0,
        0 <= r < d,
    ensures
        (q * d + r) / d == q,
        (q * d + r) % d == r,
{
    vstd::arithmetic::div_mod::lemma_fundamental_div_mod_converse(q * d + r, d, q, r);
}

/// Copy the pixels of tile (i, j) out of whole-level pixel arrays
#[verifier::spinoff_prover]
fn load_tile(
    w: usize,
    h: usize,
    i: usize,
    j: usize,
    terrain_px: &Vec<u8>,
    artwork_px: &Vec<u32>,
    transparent: Option<u8>,
    palette: &Vec<Terrain>,
) -> (tile: TerrainTile)
    requires
        palette.len() == PALETTE_SIZE,
        terrain_px.len() == w * h,
        artwork_px.len() == w * h,
        (i + 1) * TILE_SIZE <= w,
        (j + 1) * TILE_SIZE <= h,
    ensures
        tile_loaded(tile, w as int, i as int, j as int, terrain_px@, artwork_px@, transparent, palette@),
{
    let mut ter: Vec<Terrain> = Vec::new();
    let mut art: Vec<u32> = Vec::new();
    let ts: usize = 64;
    let mut k: usize = 0;
    while k < ts
        invariant
            ts == TILE_SIZE,
            k <= ts,
            palette.len() == PALETTE_SIZE,
            terrain_px.len() == w * h,
            artwork_px.len() == w * h,
            (i + 1) * TILE_SIZE <= w,
            (j + 1) * TILE_SIZE <= h,
            ter.len() == k * ts,
            art.len() == k * ts,
            forall|kk: int, m: int|
                0 <= kk < k && 0 <= m < TILE_SIZE ==> {
                    &&& #[trigger] ter@[kk * TILE_SIZE + m] == terrain_px@[(j * TILE_SIZE + kk) * w + i * TILE_SIZE + m]
                    &&& art@[kk * TILE_SIZE + m] == loaded_artwork(
                        w as int,
                        terrain_px@,
                        artwork_px@,
                        transparent,
                        i * TILE_SIZE + m,
                        j * TILE_SIZE + kk,
                    )
                },
        decreases ts - k,
    {
        let y: usize = j * ts + k;
        let mut m: usize = 0;
        while m < ts
            invariant
                ts == TILE_SIZE,
                k < ts,
                m <= ts,
                y == j * TILE_SIZE + k,
                y < h,
                palette.len() == PALETTE_SIZE,
                terrain_px.len() == w * h,
                artwork_px.len() == w * h,
                (i + 1) * TILE_SIZE <= w,
                (j + 1) * TILE_SIZE <= h,
                ter.len() == k * ts + m,
                art.len() == k * ts + m,
                forall|kk: int, mm: int|
                    0 <= kk < k && 0 <= mm < TILE_SIZE ==> {
                        &&& #[trigger] ter@[kk * TILE_SIZE + mm] == terrain_px@[(j * TILE_SIZE + kk) * w + i * TILE_SIZE + mm]
                        &&& art@[kk * TILE_SIZE + mm] == loaded_artwork(
                            w as int,
                            terrain_px@,
                            artwork_px@,
                            transparent,
                            i * TILE_SIZE + mm,
                            j * TILE_SIZE + kk,
                        )
                    },
                forall|mm: int|
                    0 <= mm < m ==> {
                        &&& #[trigger] ter@[k * TILE_SIZE + mm] == terrain_px@[(j * TILE_SIZE + k) * w + i * TILE_SIZE + mm]
                        &&& art@[k * TILE_SIZE + mm] == loaded_artwork(
                            w as int,
                            terrain_px@,
                            artwork_px@,
                            transparent,
                            i * TILE_SIZE + mm,
                            j * TILE_SIZE + k,
                        )
                    },
            decreases ts - m,
        {
            let x: usize = i * ts + m;
            proof {
                lemma_raw_index(w as int, h as int, x as int, y as int);
            }
            let src: usize = y * w + x;
            let raw = terrain_px[src];
            let a = match transparent {
                Some(t) => if t == raw { 0u32 } else { artwork_px[src] },
                None => artwork_px[src],
            };
            ter.push(raw);
            art.push(a);
            m += 1;
        }
        assert forall|kk: int, mm: int| 0 <= kk < k + 1 && 0 <= mm < TILE_SIZE implies {
            &&& #[trigger] ter@[kk * TILE_SIZE + mm] == terrain_px@[(j * TILE_SIZE + kk) * w + i * TILE_SIZE + mm]
            &&& art@[kk * TILE_SIZE + mm] == loaded_artwork(
                w as int,
                terrain_px@,
                artwork_px@,
                transparent,
                i * TILE_SIZE + mm,
                j * TILE_SIZE + kk,
            )
        } by {
            if kk == k {
                assert(ter@[k * TILE_SIZE + mm] == terrain_px@[(j * TILE_SIZE + k) * w + i * TILE_SIZE + mm]);
            }
        }
        k += 1;
    }
    let ghost raw_ter = ter@;
    map_palette(palette, &mut ter);
    let mut tile = TerrainTile::new(ter, art);
    tile.reset_content_hint();
    proof {
        assert forall|kk: int, mm: int| 0 <= kk < TILE_SIZE && 0 <= mm < TILE_SIZE implies {
            &&& #[trigger] tile.terrain@[kk * TILE_SIZE + mm] == loaded_terrain(
                w as int,
                terrain_px@,
                palette@,
                i * TILE_SIZE + mm,
                j * TILE_SIZE + kk,
            )
            &&& tile.artwork@[kk * TILE_SIZE + mm] == loaded_artwork(
                w as int,
                terrain_px@,
                artwork_px@,
                transparent,
                i * TILE_SIZE + mm,
                j * TILE_SIZE + kk,
            )
        } by {
            assert(raw_ter[kk * TILE_SIZE + mm] == terrain_px@[(j * TILE_SIZE + kk) * w + i * TILE_SIZE + mm]);
        }
    }
    tile
}

/// A terrain pixel removed by a hole, with its terrain type and artwork before removal
#[derive(Clone, Copy, Debug, PartialEq, Eq, Structural)]
pub struct DestroyedPixel {
    pub x: i32,
    pub y: i32,
    pub terrain: Terrain,
    pub artwork: u32,
}

/// Is level pixel (x, y) inside the hole of radius r centred on (cx, cy)?
/// The hole covers the pixels of the 2r by 2r square whose top left corner is
/// (cx - r, cy - r) that are at most r away from the centre.
pub open spec fn in_hole(cx: int, cy: int, r: int, x: int, y: int) -> bool {
    &&& cx - r <= x < cx + r
    &&& cy - r <= y < cy + r
    &&& (x - cx) * (x - cx) + (y - cy) * (y - cy) <= r * r
}

/// What remains of a terrain pixel when it is blown away: the solid type and the
/// destructible bit are cleared, the water and dynamic bits are kept
pub open spec fn carved_terrain(t: Terrain) -> Terrain {
    t & !(TER_MASK_SOLID | TER_BIT_DESTRUCTIBLE)
}

/// The artwork left behind by a blown away pixel
pub open spec fn carved_artwork(t: Terrain, water_color: u32) -> u32 {
    if water_bit(t) {
        water_color
    } else {
        0
    }
}

/// Is tile-local pixel (m, k) of `tile`, whose top left corner is at level pixel
/// (ox, oy), blown away by the hole?
pub open spec fn tile_pixel_carved(tile: TerrainTile, ox: int, oy: int, cx: int, cy: int, r: int, k: int, m: int) -> bool {
    &&& tile.content_hint == TileContentHint::Destructible
    &&& in_hole(cx, cy, r, ox + m, oy + k)
    &&& destructible_bit(tile.terrain@[k * TILE_SIZE + m])
}

/// `new` is `old` with the hole carved into it
pub open spec fn tile_carve_ok(
    old: TerrainTile,
    new: TerrainTile,
    ox: int,
    oy: int,
    cx: int,
    cy: int,
    r: int,
    water_color: u32,
) -> bool {
    &&& new.wf()
    &&& new.content_hint == old.content_hint
    &&& forall|k: int, m: int|
        0 <= k < TILE_SIZE && 0 <= m < TILE_SIZE ==> {
            &&& #[trigger] new.terrain@[k * TILE_SIZE + m] == if tile_pixel_carved(old, ox, oy, cx, cy, r, k, m) {
                carved_terrain(old.terrain@[k * TILE_SIZE + m])
            } else {
                old.terrain@[k * TILE_SIZE + m]
            }
            &&& new.artwork@[k * TILE_SIZE + m] == if tile_pixel_carved(old, ox, oy, cx, cy, r, k, m) {
                carved_artwork(old.terrain@[k * TILE_SIZE + m], water_color)
            } else {
                old.artwork@[k * TILE_SIZE + m]
            }
        }
}

/// `e` records a pixel of `tile` blown away by the hole
pub open spec fn records_tile_pixel(tile: TerrainTile, ox: int, oy: int, cx: int, cy: int, r: int, e: DestroyedPixel) -> bool {
    let m = e.x - ox;
    let k = e.y - oy;
    &&& 0 <= m < TILE_SIZE
    &&& 0 <= k < TILE_SIZE
    &&& tile_pixel_carved(tile, ox, oy, cx, cy, r, k, m)
    &&& e.terrain == tile.terrain@[k * TILE_SIZE + m]
    &&& e.artwork == tile.artwork@[k * TILE_SIZE + m]
}

proof fn lemma_carved_pixel(t: Terrain)
    ensures
        !destructible_bit(carved_terrain(t)),
        water_bit(carved_terrain(t)) == water_bit(t),
        carved_terrain(t) % 32 == 0,
        carved_terrain(t) == t & 0xa0u8,
{
    assert(!(TER_MASK_SOLID | TER_BIT_DESTRUCTIBLE) == 0xa0u8) by (bit_vector);
    assert(((t & 0xa0u8) / 64) % 2 == 0) by (bit_vector);
    assert((t & 0xa0u8 >= 128) == (t >= 128)) by (bit_vector);
    assert((t & 0xa0u8) % 32 == 0) by (bit_vector);
}

/// Carve the hole into one tile whose content hint is Destructible.
/// Only the tile-local columns lx0..=lx1 and rows ly0..=ly1 can lie in the hole's
/// square; the pixels blown away are appended to `out` in row-major order.
#[verifier::spinoff_prover]
#[verifier::rlimit(30)]
fn carve_tile(
    tile: &mut TerrainTile,
    ox: i32,
    oy: i32,
    lx0: i32,
    ly0: i32,
    lx1: i32,
    ly1: i32,
    cx: i32,
    cy: i32,
    r: i32,
    water_color: u32,
    out: &mut Vec<DestroyedPixel>,
) -> (dirty: bool)
    requires
        old(tile).wf(),
        old(tile).content_hint == TileContentHint::Destructible,
        0 <= r <= 46340,
        0 <= ox <= i32::MAX - TILE_SIZE,
        0 <= oy <= i32::MAX - TILE_SIZE,
        0 <= lx0,
        lx1 < TILE_SIZE,
        0 <= ly0,
        ly1 < TILE_SIZE,
        lx0 == max_int(cx - r - ox, 0),
        lx1 == min_int(cx + r - 1 - ox, TILE_SIZE - 1),
        ly0 == max_int(cy - r - oy, 0),
        ly1 == min_int(cy + r - 1 - oy, TILE_SIZE - 1),
    ensures
        tile_carve_ok(*old(tile), *final(tile), ox as int, oy as int, cx as int, cy as int, r as int, water_color),
        final(out)@.len() >= old(out)@.len(),
        final(out)@.subrange(0, old(out)@.len() as int) == old(out)@,
        forall|n: int|
            old(out)@.len() <= n < final(out)@.len() ==> records_tile_pixel(
                *old(tile),
                ox as int,
                oy as int,
                cx as int,
                cy as int,
                r as int,
                #[trigger] final(out)@[n],
            ),
        forall|a: int, b: int|
            #![trigger final(out)@[a], final(out)@[b]]
            old(out)@.len() <= a < b < final(out)@.len() ==> (final(out)@[a].y - oy) * TILE_SIZE + (final(out)@[a].x - ox)
                < (final(out)@[b].y - oy) * TILE_SIZE + (final(out)@[b].x - ox),
        forall|k: int, m: int|
            0 <= k < TILE_SIZE && 0 <= m < TILE_SIZE && #[trigger] tile_pixel_carved(*old(tile), ox as int, oy as int, cx as int, cy as int, r as int, k, m)
                ==> exists|n: int|
                old(out)@.len() <= n < final(out)@.len() && final(out)@[n].x == ox + m && final(out)@[n].y == oy + k,
        dirty == (final(out)@.len() > old(out)@.len()),
{
    let ghost t0 = *tile;
    let ghost start = out@.len();
    let start_len = out.len();
    let mut k: i32 = ly0;
    if ly0 > ly1 || lx0 > lx1 {
        proof {
            assert forall|k: int, m: int|
                0 <= k < TILE_SIZE && 0 <= m < TILE_SIZE implies !tile_pixel_carved(t0, ox as int, oy as int, cx as int, cy as int, r as int, k, m) by {
            }
        }
        return false;
    }
    while k <= ly1
        invariant
            ly0 <= k <= ly1 + 1,
            0 <= lx0 <= lx1 < TILE_SIZE,
            0 <= ly0 <= ly1 < TILE_SIZE,
            0 <= r <= 46340,
            0 <= ox <= i32::MAX - TILE_SIZE,
            0 <= oy <= i32::MAX - TILE_SIZE,
            lx0 == max_int(cx - r - ox, 0),
        lx1 == min_int(cx + r - 1 - ox, TILE_SIZE - 1),
            ly0 == max_int(cy - r - oy, 0),
        ly1 == min_int(cy + r - 1 - oy, TILE_SIZE - 1),
            tile.wf(),
            t0.wf(),
            tile.content_hint == t0.content_hint,
            t0.content_hint == TileContentHint::Destructible,
            start <= out@.len(),
            out@.subrange(0, start as int) == old(out)@,
            start == old(out)@.len(),
            // pixels of finished rows are carved, the others untouched
            forall|kk: int, m: int|
                0 <= kk < TILE_SIZE && 0 <= m < TILE_SIZE ==> {
                    &&& #[trigger] tile.terrain@[kk * TILE_SIZE + m] == if kk < k && tile_pixel_carved(t0, ox as int, oy as int, cx as int, cy as int, r as int, kk, m) {
                        carved_terrain(t0.terrain@[kk * TILE_SIZE + m])
                    } else {
                        t0.terrain@[kk * TILE_SIZE + m]
                    }
                    &&& tile.artwork@[kk * TILE_SIZE + m] == if kk < k && tile_pixel_carved(t0, ox as int, oy as int, cx as int, cy as int, r as int, kk, m) {
                        carved_artwork(t0.terrain@[kk * TILE_SIZE + m], water_color)
                    } else {
                        t0.artwork@[kk * TILE_SIZE + m]
                    }
                },
            forall|n: int|
                start <= n < out@.len() ==> records_tile_pixel(t0, ox as int, oy as int, cx as int, cy as int, r as int, #[trigger] out@[n])
                    && out@[n].y - oy < k,
            forall|a: int, b: int|
                #![trigger out@[a], out@[b]]
                    start <= a < b < out@.len() ==> (out@[a].y - oy) * TILE_SIZE + (out@[a].x - ox)
                        < (out@[b].y - oy) * TILE_SIZE + (out@[b].x - ox),
            forall|kk: int, m: int|
                0 <= kk < k && 0 <= m < TILE_SIZE && #[trigger] tile_pixel_carved(t0, ox as int, oy as int, cx as int, cy as int, r as int, kk, m)
                    ==> exists|n: int| start <= n < out@.len() && out@[n].x == ox + m && out@[n].y == oy + kk,
        decreases ly1 + 1 - k,
    {
        let dy: i32 = oy + k - cy;
        let mut m: i32 = lx0;
        while m <= lx1
            invariant
                ly0 <= k <= ly1,
                lx0 <= m <= lx1 + 1,
                0 <= lx0 <= lx1 < TILE_SIZE,
                0 <= ly0 <= ly1 < TILE_SIZE,
                0 <= r <= 46340,
                0 <= ox <= i32::MAX - TILE_SIZE,
                0 <= oy <= i32::MAX - TILE_SIZE,
                dy == oy + k - cy,
                -r <= dy < r,
                lx0 == max_int(cx - r - ox, 0),
        lx1 == min_int(cx + r - 1 - ox, TILE_SIZE - 1),
                ly0 == max_int(cy - r - oy, 0),
        ly1 == min_int(cy + r - 1 - oy, TILE_SIZE - 1),
                tile.wf(),
                t0.wf(),
                tile.content_hint == t0.content_hint,
                t0.content_hint == TileContentHint::Destructible,
                start <= out@.len(),
                out@.subrange(0, start as int) == old(out)@,
                start == old(out)@.len(),
                forall|kk: int, mm: int|
                    0 <= kk < TILE_SIZE && 0 <= mm < TILE_SIZE ==> {
                        &&& #[trigger] tile.terrain@[kk * TILE_SIZE + mm] == if (kk < k || (kk == k && mm < m)) && tile_pixel_carved(t0, ox as int, oy as int, cx as int, cy as int, r as int, kk, mm) {
                            carved_terrain(t0.terrain@[kk * TILE_SIZE + mm])
                        } else {
                            t0.terrain@[kk * TILE_SIZE + mm]
                        }
                        &&& tile.artwork@[kk * TILE_SIZE + mm] == if (kk < k || (kk == k && mm < m)) && tile_pixel_carved(t0, ox as int, oy as int, cx as int, cy as int, r as int, kk, mm) {
                            carved_artwork(t0.terrain@[kk * TILE_SIZE + mm], water_color)
                        } else {
                            t0.artwork@[kk * TILE_SIZE + mm]
                        }
                    },
                forall|n: int|
                    start <= n < out@.len() ==> records_tile_pixel(t0, ox as int, oy as int, cx as int, cy as int, r as int, #[trigger] out@[n])
                        && (out@[n].y - oy) * TILE_SIZE + (out@[n].x - ox) < k * TILE_SIZE + m,
                forall|a: int, b: int|
                    #![trigger out@[a], out@[b]]
                        start <= a < b < out@.len() ==> (out@[a].y - oy) * TILE_SIZE + (out@[a].x - ox)
                            < (out@[b].y - oy) * TILE_SIZE + (out@[b].x - ox),
                forall|kk: int, mm: int|
                    0 <= kk < TILE_SIZE && 0 <= mm < TILE_SIZE && (kk < k || (kk == k && mm < m)) && #[trigger] tile_pixel_carved(t0, ox as int, oy as int, cx as int, cy as int, r as int, kk, mm)
                        ==> exists|n: int| start <= n < out@.len() && out@[n].x == ox + mm && out@[n].y == oy + kk,
            decreases lx1 + 1 - m,
        {
            let dx: i32 = ox + m - cx;
            proof {
                assert(-r <= dx < r);
                assert(dy * dy <= r * r) by (nonlinear_arith)
                    requires -r <= dy < r, r >= 0;
                assert(dx * dx <= r * r) by (nonlinear_arith)
                    requires -r <= dx < r, r >= 0;
                assert(r * r <= 46340 * 46340) by (nonlinear_arith)
                    requires 0 <= r <= 46340;
                assert(dy * dy >= 0 && dx * dx >= 0) by (nonlinear_arith);
            }
            let dd: i64 = dy as i64 * dy as i64 + dx as i64 * dx as i64;
            let rr: i64 = r as i64 * r as i64;
            let o: usize = (k * TILE_SIZE + m) as usize;
            let ter = tile.terrain[o];
            proof {
                assert(tile.terrain@[k * TILE_SIZE + m] == t0.terrain@[k * TILE_SIZE + m]);
            }
            let ghost prev_tile = *tile;
            let ghost prev_out = out@;
            if dd <= rr && is_destructible(ter) {
                let art = tile.artwork[o];
                proof {
                    assert(tile.artwork@[k * TILE_SIZE + m] == t0.artwork@[k * TILE_SIZE + m]);
                    assert(tile_pixel_carved(t0, ox as int, oy as int, cx as int, cy as int, r as int, k as int, m as int));
                }
                out.push(DestroyedPixel { x: ox + m, y: oy + k, terrain: ter, artwork: art });
                if is_underwater(ter) {
                    tile.artwork.set(o, water_color);
                } else {
                    tile.artwork.set(o, 0);
                }
                tile.terrain.set(o, ter & !(TER_MASK_SOLID | TER_BIT_DESTRUCTIBLE));
                proof {
                    let n = out@.len() - 1;
                    assert(out@[n].x == ox + m && out@[n].y == oy + k);
                    assert(out@.subrange(0, start as int) =~= old(out)@) by {
                        assert(prev_out.subrange(0, start as int) == old(out)@);
                    }
                    lemma_carved_pixel(ter);
                    assert forall|kk: int, mm: int|
                        0 <= kk < TILE_SIZE && 0 <= mm < TILE_SIZE && (kk < k || (kk == k && mm < m + 1)) && #[trigger] tile_pixel_carved(t0, ox as int, oy as int, cx as int, cy as int, r as int, kk, mm)
                        implies exists|n: int| start <= n < out@.len() && out@[n].x == ox + mm && out@[n].y == oy + kk by {
                        if kk == k && mm == m {
                            assert(out@[n].x == ox + mm && out@[n].y == oy + kk);
                        } else {
                            let w = choose|w: int| start <= w < prev_out.len() && prev_out[w].x == ox + mm && prev_out[w].y == oy + kk;
                            assert(out@[w] == prev_out[w]);
                        }
                    }
                }
            } else {
                proof {
                    assert(!tile_pixel_carved(t0, ox as int, oy as int, cx as int, cy as int, r as int, k as int, m as int));
                }
            }
            proof {
                assert forall|kk: int, mm: int| 0 <= kk < TILE_SIZE && 0 <= mm < TILE_SIZE implies {
                    &&& #[trigger] tile.terrain@[kk * TILE_SIZE + mm] == if (kk < k || (kk == k && mm < m + 1)) && tile_pixel_carved(t0, ox as int, oy as int, cx as int, cy as int, r as int, kk, mm) {
                        carved_terrain(t0.terrain@[kk * TILE_SIZE + mm])
                    } else {
                        t0.terrain@[kk * TILE_SIZE + mm]
                    }
                    &&& tile.artwork@[kk * TILE_SIZE + mm] == if (kk < k || (kk == k && mm < m + 1)) && tile_pixel_carved(t0, ox as int, oy as int, cx as int, cy as int, r as int, kk, mm) {
                        carved_artwork(t0.terrain@[kk * TILE_SIZE + mm], water_color)
                    } else {
                        t0.artwork@[kk * TILE_SIZE + mm]
                    }
                } by {
                    if kk != k || mm != m {
                        assert(kk * TILE_SIZE + mm != k * TILE_SIZE + m);
                        assert(tile.terrain@[kk * TILE_SIZE + mm] == prev_tile.terrain@[kk * TILE_SIZE + mm]);
                        assert(tile.artwork@[kk * TILE_SIZE + mm] == prev_tile.artwork@[kk * TILE_SIZE + mm]);
                    }
                }
            }
            m += 1;
        }
        k += 1;
    }
    out.len() > start_len
}

/// Sort key of a level pixel: tiles in index order, row-major inside a tile
pub open spec fn pixel_key(tw: int, x: int, y: int) -> int {
    tile_index_of(tw, x, y) * TILE_LENGTH + offset_in_tile(x, y)
}

/// The tile coordinates of level pixel (x, y)
pub open spec fn tile_of(x: int, y: int) -> (int, int) {
    (x / TILE_SIZE as int, y / TILE_SIZE as int)
}

/// A pixel column in [a, b] of a level `n` tiles wide lies in a tile column of the
/// clamped range that a rectangle spanning [a, b] touches
proof fn lemma_span_tiles(n: int, a: int, b: int, x: int)
    requires
        n >= 1,
        0 <= x < n * TILE_SIZE,
        a <= x <= b,
    ensures
        clamp_int(trunc_div(a, TILE_SIZE as int), 0, n - 1) <= x / TILE_SIZE as int <= clamp_int(
            trunc_div(b, TILE_SIZE as int),
            0,
            n - 1,
        ),
{
    assert(x / 64 < n);
    if a >= 0 {
        vstd::arithmetic::div_mod::lemma_div_is_ordered(a, x, 64);
    }
    vstd::arithmetic::div_mod::lemma_div_is_ordered(x, b, 64);
}


/// Has the tile walk of a hole already passed tile (ti, tj)?
/// Tiles of the range [tx0, tx1] x [ty0, ..] are visited row by row; (i, j) is the next one.
pub open spec fn hole_visited(tx0: int, tx1: int, ty0: int, i: int, j: int, ti: int, tj: int) -> bool {
    &&& ty0 <= tj
    &&& tx0 <= ti <= tx1
    &&& (tj < j || (tj == j && ti < i))
}


/// Each recorded pixel is a pixel of the hole in a visited tile, recorded with its
/// original terrain and artwork, and comes before the tile at (i, j)
#[verifier::opaque]
spec fn hole_records_ok(
    old: LevelTerrain,
    out: Seq<DestroyedPixel>,
    cx: int,
    cy: int,
    r: int,
    tx0: int,
    tx1: int,
    ty0: int,
    i: int,
    j: int,
) -> bool {
    let tw = old.tiles_wide as int;
    forall|n: int|
        0 <= n < out.len() ==> {
            let e = #[trigger] out[n];
            &&& old.carves(cx, cy, r, e.x as int, e.y as int)
            &&& e.terrain == old.spec_terrain(e.x as int, e.y as int)
            &&& e.artwork == old.spec_artwork(e.x as int, e.y as int)
            &&& hole_visited(tx0, tx1, ty0, i, j, tile_of(e.x as int, e.y as int).0, tile_of(e.x as int, e.y as int).1)
            &&& pixel_key(tw, e.x as int, e.y as int) < (j * tw + i) * TILE_LENGTH
        }
}

/// The recorded pixels are in increasing key order
#[verifier::opaque]
spec fn hole_records_sorted(tw: int, out: Seq<DestroyedPixel>) -> bool {
    forall|a: int, b: int|
        #![trigger out[a], out[b]]
        0 <= a < b < out.len() ==> pixel_key(tw, out[a].x as int, out[a].y as int) < pixel_key(
            tw,
            out[b].x as int,
            out[b].y as int,
        )
}

/// Every pixel of the hole in a visited tile is recorded
#[verifier::opaque]
spec fn hole_cover_ok(
    old: LevelTerrain,
    out: Seq<DestroyedPixel>,
    cx: int,
    cy: int,
    r: int,
    tx0: int,
    tx1: int,
    ty0: int,
    i: int,
    j: int,
) -> bool {
    forall|x: int, y: int|
        #[trigger] old.carves(cx, cy, r, x, y) && hole_visited(tx0, tx1, ty0, i, j, tile_of(x, y).0, tile_of(x, y).1)
            ==> pixel_recorded(out, x, y)
}

/// Is level pixel (x, y) among the recorded pixels?
pub open spec fn pixel_recorded(out: Seq<DestroyedPixel>, x: int, y: int) -> bool {
    exists|n: int| 0 <= n < out.len() && out[n].x == x && out[n].y == y
}

/// Does recorded pixel n lie in dirty tile d?
pub open spec fn in_dirty_tile(out: Seq<DestroyedPixel>, dirty: Seq<(i32, i32)>, n: int, d: int) -> bool {
    tile_of(out[n].x as int, out[n].y as int) == (dirty[d].0 as int, dirty[d].1 as int)
}

/// Does some recorded pixel lie in dirty tile d?
pub open spec fn dirty_tile_recorded(out: Seq<DestroyedPixel>, dirty: Seq<(i32, i32)>, d: int) -> bool {
    exists|n: int| 0 <= n < out.len() && #[trigger] in_dirty_tile(out, dirty, n, d)
}

/// Is the tile of recorded pixel n among the dirty tiles?
pub open spec fn record_tile_dirty(out: Seq<DestroyedPixel>, dirty: Seq<(i32, i32)>, n: int) -> bool {
    exists|d: int| 0 <= d < dirty.len() && #[trigger] in_dirty_tile(out, dirty, n, d)
}

/// The dirty tiles are exactly the tiles of the recorded pixels, in increasing
/// index order and before tile index `cur`
#[verifier::opaque]
spec fn hole_dirty_ok(tw: int, out: Seq<DestroyedPixel>, dirty: Seq<(i32, i32)>, cur: int) -> bool {
    &&& forall|d: int| 0 <= d < dirty.len() ==> #[trigger] dirty_tile_recorded(out, dirty, d)
    &&& forall|d: int| 0 <= d < dirty.len() ==> (#[trigger] dirty[d]).1 * tw + dirty[d].0 < cur
    &&& forall|n: int| 0 <= n < out.len() ==> #[trigger] record_tile_dirty(out, dirty, n)
    &&& forall|a: int, b: int|
        #![trigger dirty[a], dirty[b]]
        0 <= a < b < dirty.len() ==> dirty[a].1 * tw + dirty[a].0 < dirty[b].1 * tw + dirty[b].0
}

/// A terrain pixel that grows back after being destroyed: its tile, its offset in
/// the tile, and the terrain and artwork it regrows with
#[derive(Clone, Copy, Debug)]
pub struct RegeneratingTerrain {
    pub tile: (i32, i32),
    pub offset: usize,
    pub terrain: Terrain,
    pub color: u32,
}

/// The level pixel a regenerating terrain pixel stands at
pub open spec fn regen_pixel(r: RegeneratingTerrain) -> (int, int) {
    (r.tile.0 * TILE_SIZE + (r.offset as int) % (TILE_SIZE as int), r.tile.1 * TILE_SIZE + (r.offset as int) / (TILE_SIZE as int))
}

/// Entry k of `regen` is the first one whose pixel is missing in `pre`, or
/// follows it on the same tile row with only entries of that row in between
pub open spec fn in_first_run(regen: Seq<RegeneratingTerrain>, pre: LevelTerrain, k: int) -> bool {
    exists|f: int|
        0 <= f <= k && #[trigger] pre.regen_missing(regen[f]) && (forall|j: int| 0 <= j < f ==> !pre.regen_missing(regen[j]))
            && (forall|j: int| f <= j <= k ==> regen[j].offset / (TILE_SIZE as usize) == regen[f].offset / (TILE_SIZE as usize))
}

/// Pixel (x, y) of `post` holds what a missing regenerating pixel of `pre` listed in
/// `regen` grows back to, the entry is in the run that regenerates (see
/// [`in_first_run`]), and its tile is listed in `dirty`
pub open spec fn regrown_from(
    regen: Seq<RegeneratingTerrain>,
    pre: LevelTerrain,
    post: LevelTerrain,
    dirty: Seq<(i32, i32)>,
    x: int,
    y: int,
) -> bool {
    exists|k: int|
        0 <= k < regen.len() && #[trigger] regen_pixel(regen[k]) == (x, y) && pre.regen_missing(regen[k])
            && post.spec_terrain(x, y) == regen[k].terrain && post.spec_artwork(x, y) == regen[k].color
            && dirty.contains(regen[k].tile) && in_first_run(regen, pre, k)
}

/// Every pixel of `post` that differs from `pre` holds what a missing regenerating
/// pixel listed in `regen` grows back to, and its tile is listed in `dirty`
pub open spec fn regen_edits_ok(
    regen: Seq<RegeneratingTerrain>,
    pre: LevelTerrain,
    post: LevelTerrain,
    dirty: Seq<(i32, i32)>,
) -> bool {
    forall|x: int, y: int|
        #![trigger post.spec_terrain(x, y)]
        pre.in_bounds(x, y) && (post.spec_terrain(x, y) != pre.spec_terrain(x, y) || post.spec_artwork(x, y)
            != pre.spec_artwork(x, y)) ==> regrown_from(regen, pre, post, dirty, x, y)
}

/// Chance decisions of terrain regeneration
pub trait RegenChance {
    /// Does a pixel in the row being regenerated grow back now? Base support
    /// terrain grows back more eagerly.
    fn regrows(&mut self, basesupport: bool) -> bool;
}

/// Is pixel (x, y) inside rectangle r?
pub open spec fn in_rect(r: Rect, x: int, y: int) -> bool {
    r.x <= x < r.x + r.w && r.y <= y < r.y + r.h
}

/// Clipping a line segment to a rectangle
pub trait LineClip {
    /// The part of `line` inside `rect` that this clipper gives, if any
    spec fn clipped(&self, line: Line, rect: Rect) -> Option<Line>;

    /// The part of `line` inside `rect`, if any: both ends of the part lie in the
    /// rectangle, and an end of the line that lies in the rectangle is kept (so a
    /// line inside the rectangle comes back whole)
    fn clip(&self, line: Line, rect: Rect) -> (r: Option<Line>)
        ensures
            r == self.clipped(line, rect),
            r matches Some(s) ==> in_rect(rect, s.x1 as int, s.y1 as int) && in_rect(rect, s.x2 as int, s.y2 as int),
            in_rect(rect, line.x1 as int, line.y1 as int) ==> (r matches Some(s) && s.x1 == line.x1 && s.y1 == line.y1),
            in_rect(rect, line.x2 as int, line.y2 as int) ==> (r matches Some(s) && s.x2 == line.x2 && s.y2 == line.y2),
    ;
}

/// Colour mixing for artwork pixels (ARGB8888). Mixing works on floating point
/// colour channels, so it is supplied by the caller.
pub trait PixelBlend {
    /// `src` drawn over `dst` with its alpha
    fn blend(&self, dst: u32, src: u32) -> u32;

    /// `color` seen through water of colour `water` at half opacity
    fn blend_water(&self, color: u32, water: u32) -> u32;
}

/// The terrain left at a pixel replaced by `solid` (a solid type, possibly with the
/// dynamic bit) or emptied (`solid` zero). The water bit is kept.
pub open spec fn replaced_terrain(t: Terrain, solid: Terrain) -> Terrain {
    if solid == 0 {
        t & !(TER_BIT_DESTRUCTIBLE | TER_MASK_SOLID | TER_BIT_DYNAMIC)
    } else {
        (t & !TER_MASK_SOLID) | TER_BIT_DESTRUCTIBLE | solid
    }
}

/// The terrain left at an open pixel filled with terrain `ter`: underwater pixels stay underwater
pub open spec fn added_terrain(t: Terrain, ter: Terrain) -> Terrain {
    if water_bit(t) {
        ter | TER_BIT_WATER
    } else {
        ter
    }
}

/// Level pixel positions (x, y) and (x2, y2) are different pixels
pub open spec fn other_pixel(x: int, y: int, x2: int, y2: int) -> bool {
    x != x2 || y != y2
}

/// Replacing a pixel never changes whether it is underwater; a pixel replaced by a
/// solid becomes destructible terrain of that solid type, an emptied pixel holds no
/// solid and is no longer destructible
pub proof fn law_replaced_keeps_water(t: Terrain, solid: Terrain)
    requires
        solid & !(TER_MASK_SOLID | TER_BIT_DYNAMIC) == 0,
    ensures
        water_bit(replaced_terrain(t, solid)) == water_bit(t),
        solid != 0 ==> destructible_bit(replaced_terrain(t, solid)),
        solid == 0 ==> solid_type(replaced_terrain(t, solid)) == 0 && !destructible_bit(replaced_terrain(t, solid)),
        solid != 0 ==> solid_type(replaced_terrain(t, solid)) == solid % 32,
{
    assert(!(TER_BIT_DESTRUCTIBLE | TER_MASK_SOLID | TER_BIT_DYNAMIC) == 0x80u8) by (bit_vector);
    assert(!TER_MASK_SOLID == 0xe0u8) by (bit_vector);
    assert(!(TER_MASK_SOLID | TER_BIT_DYNAMIC) == 0xc0u8) by (bit_vector);
    assert((t & 0x80u8 >= 128) == (t >= 128)) by (bit_vector);
    assert((t & 0x80u8) % 32 == 0 && ((t & 0x80u8) / 64) % 2 == 0) by (bit_vector);
    assert(solid & 0xc0u8 == 0 ==> ((((t & 0xe0u8) | 0x40u8 | solid) >= 128) == (t >= 128))) by (bit_vector);
    assert(solid & 0xc0u8 == 0 ==> ((((t & 0xe0u8) | 0x40u8 | solid) / 64) % 2 == 1)) by (bit_vector);
    assert(solid & 0xc0u8 == 0 ==> (((t & 0xe0u8) | 0x40u8 | solid) % 32 == solid % 32)) by (bit_vector);
}

/// A filled pixel keeps its water bit
pub proof fn law_added_terrain_keeps_water(t: Terrain, ter: Terrain)
    requires
        !water_bit(ter),
    ensures
        water_bit(added_terrain(t, ter)) == water_bit(t),
        solid_type(added_terrain(t, ter)) == solid_type(ter),
{
    assert((ter | 0x80u8) >= 128) by (bit_vector);
    assert((ter | 0x80u8) % 32 == ter % 32) by (bit_vector);
    assert(TER_BIT_WATER == 0x80u8);
}

/// `new` is `old` with a hole of radius r centred on (cx, cy) made in it: same
/// shape and content hints, the pixels of the hole blown away, the others unchanged
pub open spec fn hole_made(old: LevelTerrain, new: LevelTerrain, cx: int, cy: int, r: int, water_color: u32) -> bool {
    &&& new.wf()
    &&& new.spec_tiles_wide() == old.spec_tiles_wide()
    &&& new.spec_tiles_high() == old.spec_tiles_high()
    &&& forall|i: int, j: int|
        0 <= i < old.spec_tiles_wide() && 0 <= j < old.spec_tiles_high() ==> (#[trigger] new.spec_tile(i, j)).content_hint
            == old.spec_tile(i, j).content_hint
    &&& forall|x: int, y: int|
        #![trigger new.spec_terrain(x, y)]
        #![trigger new.spec_artwork(x, y)]
        old.in_bounds(x, y) ==> {
            &&& new.spec_terrain(x, y) == if old.carves(cx, cy, r, x, y) {
                carved_terrain(old.spec_terrain(x, y))
            } else {
                old.spec_terrain(x, y)
            }
            &&& new.spec_artwork(x, y) == if old.carves(cx, cy, r, x, y) {
                carved_artwork(old.spec_terrain(x, y), water_color)
            } else {
                old.spec_artwork(x, y)
            }
        }
}

/// A blown away pixel holds no solid, is no longer destructible and stays
/// underwater if it was
pub proof fn law_carved_pixel_is_open(t: Terrain)
    ensures
        solid_type(carved_terrain(t)) == 0,
        !destructible_bit(carved_terrain(t)),
        water_bit(carved_terrain(t)) == water_bit(t),
{
    lemma_carved_pixel(t);
}

/// Making the same hole a second time removes nothing
pub proof fn law_second_hole_removes_nothing(
    old: LevelTerrain,
    new: LevelTerrain,
    cx: int,
    cy: int,
    r: int,
    water_color: u32,
    x: int,
    y: int,
)
    requires
        old.wf(),
        hole_made(old, new, cx, cy, r, water_color),
    ensures
        !new.carves(cx, cy, r, x, y),
{
    if new.in_bounds(x, y) {
        assert(old.in_bounds(x, y));
        new.lemma_pixel_tile(x, y);
        let ti = tile_of(x, y).0;
        let tj = tile_of(x, y).1;
        old.lemma_tile_pixel(ti, tj, y % TILE_SIZE as int, x % TILE_SIZE as int);
        new.lemma_tile_pixel(ti, tj, y % TILE_SIZE as int, x % TILE_SIZE as int);
        assert(new.spec_hint(x, y) == old.spec_hint(x, y));
        if old.carves(cx, cy, r, x, y) {
            lemma_carved_pixel(old.spec_terrain(x, y));
        }
    }
}

/// With fresh content hints, no destructible solid pixel is left inside a hole
/// once it is made
pub proof fn law_hole_leaves_no_destructible_solid(
    old: LevelTerrain,
    new: LevelTerrain,
    cx: int,
    cy: int,
    r: int,
    water_color: u32,
    x: int,
    y: int,
)
    requires
        old.wf(),
        old.hints_fresh(),
        hole_made(old, new, cx, cy, r, water_color),
        old.in_bounds(x, y),
        in_hole(cx, cy, r, x, y),
    ensures
        !(solid_type(new.spec_terrain(x, y)) != 0 && destructible_bit(new.spec_terrain(x, y))),
{
    old.lemma_pixel_tile(x, y);
    let ti = tile_of(x, y).0;
    let tj = tile_of(x, y).1;
    let k = y % TILE_SIZE as int;
    let m = x % TILE_SIZE as int;
    old.lemma_tile_pixel(ti, tj, k, m);
    let t = old.spec_terrain(x, y);
    if solid_type(t) != 0 && destructible_bit(t) {
        let ter = old.spec_tile(ti, tj).terrain@;
        assert(ter[k * TILE_SIZE + m] == t);
        assert(0 <= k * TILE_SIZE + m < TILE_LENGTH) by (nonlinear_arith)
            requires
                0 <= k < TILE_SIZE,
                0 <= m < TILE_SIZE,
        ;
        assert(0 <= tj * old.tiles_wide + ti < old.tiles@.len()) by (nonlinear_arith)
            requires
                0 <= ti < old.tiles_wide,
                0 <= tj < old.tiles_high,
                old.tiles@.len() == old.tiles_wide * old.tiles_high,
        ;
        assert(old.tiles@[tj * old.tiles_wide + ti].wf());
        assert(ter.len() == TILE_LENGTH);
        assert(destructible_bit(ter[k * TILE_SIZE + m]));
        assert(old.spec_tile(ti, tj).content_hint == spec_content_hint(ter));
        assert(spec_content_hint(ter) == TileContentHint::Destructible);
        assert(old.spec_hint(x, y) == old.spec_tile(ti, tj).content_hint);
        assert(old.carves(cx, cy, r, x, y));
        lemma_carved_pixel(t);
    } else if old.carves(cx, cy, r, x, y) {
        lemma_carved_pixel(t);
    }
}

/// Division rounding toward zero, as Rust's integer division does
pub open spec fn trunc_div(a: int, b: int) -> int {
    if a >= 0 {
        a / b
    } else {
        -((-a) / b)
    }
}

pub open spec fn clamp_int(v: int, lo: int, hi: int) -> int {
    if v < lo {
        lo
    } else if v > hi {
        hi
    } else {
        v
    }
}

fn clamp_i32(v: i32, lo: i32, hi: i32) -> (r: i32)
    requires
        lo <= hi,
    ensures
        r == clamp_int(v as int, lo as int, hi as int),
{
    if v < lo {
        lo
    } else if v > hi {
        hi
    } else {
        v
    }
}

} // verus!
