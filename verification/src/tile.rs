//! Terrain tiles: fixed size blocks of terrain and artwork pixels.

use crate::geometry::Line;
use crate::terrain::{Terrain, solid_type, water_bit, destructible_bit, is_solid, is_destructible, is_underwater};
use vstd::prelude::*;

verus! {

/// Width and height of a tile in level pixels
pub const TILE_SIZE: i32 = 64;

/// Number of pixels in a tile
pub const TILE_LENGTH: usize = 4096;

/// Knowing something about the content of the tile allows skipping certain checks.
///
///  - Any subtractive level effect need only apply to Destructible tiles.
///  - Collision checks can be skipped entirely for FreeSpace and Water tiles.
///  - FreeSpace, Water and Indestructible tiles may turn into Destructible tiles if
///    an additive level effect is applied.
#[derive(Clone, Copy, Debug, PartialEq, Eq, Structural)]
pub enum TileContentHint {
    /// may contain destructible terrain
    Destructible,
    /// contains only empty space
    FreeSpace,
    /// contains only water
    Water,
    /// may contain a mixture of space, water and/or indestructible solids
    Indestructible,
}

/// A square block of the level
pub struct TerrainTile {
    /// terrain types, used for collision checks (row major)
    pub terrain: Vec<Terrain>,
    /// ARGB8888 artwork pixels, used to update the artwork texture (row major)
    pub artwork: Vec<u32>,
    /// optimization hint
    pub content_hint: TileContentHint,
}

/// The outcome of tracing a line through terrain
#[derive(Clone, Copy, Debug, PartialEq, Eq, Structural)]
pub enum LineHit {
    /// The first solid point on the line, with its terrain type
    Solid { terrain: Terrain, x: i32, y: i32 },
    /// No solid point: the terrain type at the end of the line
    Clear(Terrain),
}

/// Offset of tile-local pixel (x, y)
pub open spec fn tile_offset(x: int, y: int) -> int {
    y * TILE_SIZE + x
}

/// Is (x, y) a pixel inside a tile?
pub open spec fn in_tile(x: int, y: int) -> bool {
    0 <= x < TILE_SIZE && 0 <= y < TILE_SIZE
}

/// The content hint a tile with the given terrain deserves
pub open spec fn spec_content_hint(ter: Seq<Terrain>) -> TileContentHint {
    if exists|i: int| 0 <= i < ter.len() && solid_type(ter[i]) != 0 && destructible_bit(#[trigger] ter[i]) {
        TileContentHint::Destructible
    } else if forall|i: int| 0 <= i < ter.len() ==> solid_type(#[trigger] ter[i]) == 0 && water_bit(ter[i]) {
        TileContentHint::Water
    } else if forall|i: int| 0 <= i < ter.len() ==> solid_type(#[trigger] ter[i]) == 0 && !water_bit(ter[i]) {
        TileContentHint::FreeSpace
    } else {
        TileContentHint::Indestructible
    }
}

/// A tile whose content hint is FreeSpace or Water holds no solid pixel, so
/// collision checks may skip it; one whose hint is not Destructible holds no
/// destructible solid pixel, so subtractive effects may skip it.
pub proof fn law_content_hint_skips(ter: Seq<Terrain>, i: int)
    requires
        0 <= i < ter.len(),
    ensures
        spec_content_hint(ter) == TileContentHint::FreeSpace ==> solid_type(ter[i]) == 0 && !water_bit(ter[i]),
        spec_content_hint(ter) == TileContentHint::Water ==> solid_type(ter[i]) == 0 && water_bit(ter[i]),
        spec_content_hint(ter) != TileContentHint::Destructible ==> !(solid_type(ter[i]) != 0 && destructible_bit(ter[i])),
{
}

pub open spec fn abs_int(v: int) -> int {
    if v < 0 {
        -v
    } else {
        v
    }
}

/// One step of Bresenham's line algorithm from position (x, y) with error term err.
/// None when the walk stops at this position.
pub open spec fn bres_step(l: Line, x: int, y: int, err: int) -> Option<(int, int, int)> {
    let dx = abs_int(l.x2 - l.x1);
    let dy = -abs_int(l.y2 - l.y1);
    let sx = if l.x1 < l.x2 {
        1int
    } else {
        -1int
    };
    let sy = if l.y1 < l.y2 {
        1int
    } else {
        -1int
    };
    let e2 = 2 * err;
    if e2 >= dy && x == l.x2 {
        None
    } else {
        let nx = if e2 >= dy {
            x + sx
        } else {
            x
        };
        let nerr = if e2 >= dy {
            err + dy
        } else {
            err
        };
        if e2 <= dx {
            if y == l.y2 {
                None
            } else {
                Some((nx, y + sy, nerr + dx))
            }
        } else {
            Some((nx, y, nerr))
        }
    }
}

/// The points visited by Bresenham's walk from the given state (at most `fuel` points)
pub open spec fn bres_path_from(l: Line, x: int, y: int, err: int, fuel: nat) -> Seq<(int, int)>
    decreases fuel,
{
    if fuel == 0 {
        Seq::empty()
    } else {
        match bres_step(l, x, y, err) {
            None => seq![(x, y)],
            Some((nx, ny, ne)) => seq![(x, y)] + bres_path_from(l, nx, ny, ne, (fuel - 1) as nat),
        }
    }
}

/// The pixels of a line in the order Bresenham's algorithm visits them
pub open spec fn bresenham_path(l: Line) -> Seq<(int, int)> {
    bres_path_from(
        l,
        l.x1 as int,
        l.y1 as int,
        abs_int(l.x2 - l.x1) - abs_int(l.y2 - l.y1),
        (2 * TILE_SIZE) as nat,
    )
}

/// The first solid point of the path, or the terrain at `end` if there is none
pub open spec fn hit_along(ter: Seq<Terrain>, path: Seq<(int, int)>, end: (int, int)) -> LineHit
    decreases path.len(),
{
    if path.len() == 0 {
        LineHit::Clear(ter[tile_offset(end.0, end.1)])
    } else if solid_type(ter[tile_offset(path[0].0, path[0].1)]) != 0 {
        LineHit::Solid {
            terrain: ter[tile_offset(path[0].0, path[0].1)],
            x: path[0].0 as i32,
            y: path[0].1 as i32,
        }
    } else {
        hit_along(ter, path.drop_first(), end)
    }
}

/// Following a path, a hit is the first solid point of the path, and no hit means
/// no point of the path is solid
pub proof fn law_hit_along_is_first(ter: Seq<Terrain>, path: Seq<(int, int)>, end: (int, int))
    ensures
        hit_along(ter, path, end) matches LineHit::Solid { terrain, x, y } ==> exists|k: int|
            0 <= k < path.len() && path[k].0 as i32 == x && path[k].1 as i32 == y && terrain == ter[tile_offset(path[k].0, path[k].1)]
                && solid_type(terrain) != 0 && forall|m: int|
                0 <= m < k ==> solid_type(ter[tile_offset(#[trigger] path[m].0, path[m].1)]) == 0,
        hit_along(ter, path, end) is Clear ==> forall|m: int|
            0 <= m < path.len() ==> solid_type(ter[tile_offset(#[trigger] path[m].0, path[m].1)]) == 0,
    decreases path.len(),
{
    if path.len() > 0 && solid_type(ter[tile_offset(path[0].0, path[0].1)]) != 0 {
        assert(forall|m: int| 0 <= m < 0 ==> solid_type(ter[tile_offset(#[trigger] path[m].0, path[m].1)]) == 0);
    } else if path.len() > 0 {
        let rest = path.drop_first();
        law_hit_along_is_first(ter, rest, end);
        if hit_along(ter, rest, end) is Solid {
            let k = choose|k: int|
                0 <= k < rest.len() && rest[k].0 as i32 == hit_along(ter, rest, end)->x && rest[k].1 as i32 == hit_along(ter, rest, end)->y
                    && hit_along(ter, rest, end)->terrain == ter[tile_offset(rest[k].0, rest[k].1)] && solid_type(
                    hit_along(ter, rest, end)->terrain,
                ) != 0 && forall|m: int| 0 <= m < k ==> solid_type(ter[tile_offset(#[trigger] rest[m].0, rest[m].1)]) == 0;
            assert(path[k + 1] == rest[k]);
            assert forall|m: int| 0 <= m < k + 1 implies solid_type(ter[tile_offset(#[trigger] path[m].0, path[m].1)]) == 0 by {
                if m > 0 {
                    assert(path[m] == rest[m - 1]);
                }
            }
        } else {
            assert forall|m: int| 0 <= m < path.len() implies solid_type(ter[tile_offset(#[trigger] path[m].0, path[m].1)]) == 0 by {
                if m > 0 {
                    assert(path[m] == rest[m - 1]);
                }
            }
        }
    }
}

/// What tracing line `l` through a tile's terrain finds
pub open spec fn spec_line_hit(ter: Seq<Terrain>, l: Line) -> LineHit {
    hit_along(ter, bresenham_path(l), (l.x2 as int, l.y2 as int))
}

/// Tracing from a walk state, one step at a time
spec fn hit_from_state(ter: Seq<Terrain>, l: Line, x: int, y: int, err: int, fuel: nat) -> LineHit
    decreases fuel,
{
    if fuel == 0 {
        LineHit::Clear(ter[tile_offset(l.x2 as int, l.y2 as int)])
    } else if solid_type(ter[tile_offset(x, y)]) != 0 {
        LineHit::Solid { terrain: ter[tile_offset(x, y)], x: x as i32, y: y as i32 }
    } else {
        match bres_step(l, x, y, err) {
            None => LineHit::Clear(ter[tile_offset(l.x2 as int, l.y2 as int)]),
            Some((nx, ny, ne)) => hit_from_state(ter, l, nx, ny, ne, (fuel - 1) as nat),
        }
    }
}

proof fn lemma_hit_from_state(ter: Seq<Terrain>, l: Line, x: int, y: int, err: int, fuel: nat)
    ensures
        hit_from_state(ter, l, x, y, err, fuel) == hit_along(
            ter,
            bres_path_from(l, x, y, err, fuel),
            (l.x2 as int, l.y2 as int),
        ),
    decreases fuel,
{
    if fuel > 0 {
        let p = bres_path_from(l, x, y, err, fuel);
        match bres_step(l, x, y, err) {
            None => {
                assert(p[0] == (x, y));
                assert(p.drop_first() =~= Seq::<(int, int)>::empty());
                assert(hit_along(ter, Seq::<(int, int)>::empty(), (l.x2 as int, l.y2 as int))
                    == LineHit::Clear(ter[tile_offset(l.x2 as int, l.y2 as int)]));
            },
            Some((nx, ny, ne)) => {
                lemma_hit_from_state(ter, l, nx, ny, ne, (fuel - 1) as nat);
                assert(p[0] == (x, y));
                assert(p.drop_first() =~= bres_path_from(l, nx, ny, ne, (fuel - 1) as nat));
            },
        }
    }
}

/// Is v between a and b (inclusive, in either order)?
pub open spec fn between(a: int, b: int, v: int) -> bool {
    (a <= v <= b) || (b <= v <= a)
}

/// The walk state invariant of Bresenham's algorithm
spec fn bres_inv(l: Line, x: int, y: int, err: int) -> bool {
    let ddx = abs_int(l.x2 - l.x1);
    let ddy = abs_int(l.y2 - l.y1);
    &&& between(l.x1 as int, l.x2 as int, x)
    &&& between(l.y1 as int, l.y2 as int, y)
    &&& err == ddx - ddy - abs_int(x - l.x1) * ddy + abs_int(y - l.y1) * ddx
}

/// Are two pixels 8-neighbours (adjacent horizontally, vertically or diagonally)?
pub open spec fn adjacent(a: (int, int), b: (int, int)) -> bool {
    a != b && abs_int(a.0 - b.0) <= 1 && abs_int(a.1 - b.1) <= 1
}

proof fn lemma_bres_path_from(l: Line, x: int, y: int, err: int, fuel: nat)
    requires
        bres_inv(l, x, y, err),
        fuel > abs_int(l.x2 - x) + abs_int(l.y2 - y),
    ensures
        ({
            let p = bres_path_from(l, x, y, err, fuel);
            &&& p.len() >= 1
            &&& p[0] == (x, y)
            &&& p.last() == (l.x2 as int, l.y2 as int)
            &&& forall|i: int| 0 <= i < p.len() - 1 ==> adjacent(#[trigger] p[i], p[i + 1])
            &&& forall|i: int|
                0 <= i < p.len() ==> between(l.x1 as int, l.x2 as int, (#[trigger] p[i]).0)
                    && between(l.y1 as int, l.y2 as int, p[i].1)
        }),
    decreases fuel,
{
    let ddx = abs_int(l.x2 - l.x1);
    let ddy = abs_int(l.y2 - l.y1);
    let ax = abs_int(x - l.x1);
    let ay = abs_int(y - l.y1);
    let p = bres_path_from(l, x, y, err, fuel);
    assert(ax <= ddx && ay <= ddy);
    assert((x == l.x2) == (ax == ddx));
    assert((y == l.y2) == (ay == ddy));
    let e2 = 2 * err;
    match bres_step(l, x, y, err) {
        None => {
            assert(p =~= seq![(x, y)]);
            if e2 >= -ddy && x == l.x2 {
                // stopping on the x axis means the y walk is done too
                if ay < ddy {
                    assert(err <= -ddy) by (nonlinear_arith)
                        requires
                            err == ddx - ddy - ddx * ddy + ay * ddx,
                            ay + 1 <= ddy,
                            ddx >= 0;
                    assert(false);
                }
            } else {
                assert(e2 <= ddx && y == l.y2);
                if e2 >= -ddy {
                    // the x walk cannot still be unfinished when the y walk stops
                    assert(x != l.x2);
                    assert(false) by (nonlinear_arith)
                        requires
                            err == ddx - ddy - ax * ddy + ddy * ddx,
                            2 * err <= ddx,
                            ax + 1 <= ddx,
                            ax >= 0,
                            ddy >= 0;
                } else if ax + 1 <= ddx {
                    assert(false) by (nonlinear_arith)
                        requires
                            err == ddx - ddy - ax * ddy + ddy * ddx,
                            2 * err < -ddy,
                            ax + 1 <= ddx,
                            ax >= 0,
                            ddy >= 0,
                            ddx >= 0;
                }
            }
        },
        Some((nx, ny, ne)) => {
            let mx: int = if e2 >= -ddy { 1 } else { 0 };
            let my: int = if e2 <= ddx { 1 } else { 0 };
            assert(mx + my >= 1);
            let nax = abs_int(nx - l.x1);
            let nay = abs_int(ny - l.y1);
            assert(nax == ax + mx);
            assert(nay == ay + my);
            assert(ne == ddx - ddy - nax * ddy + nay * ddx) by (nonlinear_arith)
                requires
                    err == ddx - ddy - ax * ddy + ay * ddx,
                    ne == err - mx * ddy + my * ddx,
                    nax == ax + mx,
                    nay == ay + my;
            assert(bres_inv(l, nx, ny, ne));
            lemma_bres_path_from(l, nx, ny, ne, (fuel - 1) as nat);
            let rest = bres_path_from(l, nx, ny, ne, (fuel - 1) as nat);
            assert(p =~= seq![(x, y)] + rest);
            assert(adjacent(p[0], p[1]));
            assert forall|i: int| 0 <= i < p.len() - 1 implies adjacent(#[trigger] p[i], p[i + 1]) by {
                if i > 0 {
                    assert(p[i] == rest[i - 1] && p[i + 1] == rest[i]);
                }
            }
            assert forall|i: int| 0 <= i < p.len() implies between(
                l.x1 as int,
                l.x2 as int,
                (#[trigger] p[i]).0,
            ) && between(l.y1 as int, l.y2 as int, p[i].1) by {
                if i > 0 {
                    assert(p[i] == rest[i - 1]);
                }
            }
        },
    }
}

/// Bresenham's walk over a line no longer than a tile starts at the first end point,
/// ends at the second, moves to an 8-neighbouring pixel at each step and never
/// leaves the line's bounding box.
pub proof fn law_bresenham_path_shape(l: Line)
    requires
        abs_int(l.x2 - l.x1) < TILE_SIZE,
        abs_int(l.y2 - l.y1) < TILE_SIZE,
    ensures
        ({
            let p = bresenham_path(l);
            &&& p.len() >= 1
            &&& p[0] == (l.x1 as int, l.y1 as int)
            &&& p.last() == (l.x2 as int, l.y2 as int)
            &&& forall|i: int| 0 <= i < p.len() - 1 ==> adjacent(#[trigger] p[i], p[i + 1])
            &&& forall|i: int|
                0 <= i < p.len() ==> between(l.x1 as int, l.x2 as int, (#[trigger] p[i]).0)
                    && between(l.y1 as int, l.y2 as int, p[i].1)
        }),
{
    let ddx = abs_int(l.x2 - l.x1);
    let ddy = abs_int(l.y2 - l.y1);
    assert(0 * ddy == 0 && 0 * ddx == 0);
    lemma_bres_path_from(l, l.x1 as int, l.y1 as int, ddx - ddy, (2 * TILE_SIZE) as nat);
}

proof fn lemma_hit_along_facts(ter: Seq<Terrain>, path: Seq<(int, int)>, end: (int, int))
    requires
        forall|i: int| 0 <= i < path.len() ==> in_tile((#[trigger] path[i]).0, path[i].1),
        in_tile(end.0, end.1),
    ensures
        hit_along(ter, path, end) matches LineHit::Solid { terrain, x, y } ==> in_tile(x as int, y as int)
            && terrain == ter[tile_offset(x as int, y as int)] && solid_type(terrain) != 0,
        hit_along(ter, path, end) matches LineHit::Clear(t) ==> t == ter[tile_offset(end.0, end.1)],
    decreases path.len(),
{
    if path.len() > 0 {
        let p0 = path[0];
        assert(in_tile(p0.0, p0.1));
        assert forall|i: int| 0 <= i < path.drop_first().len() implies in_tile((#[trigger] path.drop_first()[i]).0, path.drop_first()[i].1) by {
            assert(path.drop_first()[i] == path[i + 1]);
        }
        lemma_hit_along_facts(ter, path.drop_first(), end);
    }
}

/// What tracing finds inside a tile: a solid point of the line's tile, with its
/// terrain type, or the terrain type at the line's end
pub proof fn law_line_hit_in_tile(ter: Seq<Terrain>, l: Line)
    requires
        in_tile(l.x1 as int, l.y1 as int),
        in_tile(l.x2 as int, l.y2 as int),
    ensures
        spec_line_hit(ter, l) matches LineHit::Solid { terrain, x, y } ==> in_tile(x as int, y as int)
            && terrain == ter[tile_offset(x as int, y as int)] && solid_type(terrain) != 0,
        spec_line_hit(ter, l) matches LineHit::Clear(t) ==> t == ter[tile_offset(l.x2 as int, l.y2 as int)],
{
    law_bresenham_path_shape(l);
    let p = bresenham_path(l);
    assert forall|i: int| 0 <= i < p.len() implies in_tile((#[trigger] p[i]).0, p[i].1) by {
        assert(between(l.x1 as int, l.x2 as int, p[i].0));
        assert(between(l.y1 as int, l.y2 as int, p[i].1));
    }
    lemma_hit_along_facts(ter, p, (l.x2 as int, l.y2 as int));
}

impl TerrainTile {
    pub open spec fn wf(&self) -> bool {
        self.terrain.len() == TILE_LENGTH && self.artwork.len() == TILE_LENGTH
    }

    /// A tile with the given pixels. The content hint starts as Destructible.
    pub fn new(terrain: Vec<Terrain>, artwork: Vec<u32>) -> (r: Self)
        requires
            terrain.len() == TILE_LENGTH,
            artwork.len() == TILE_LENGTH,
        ensures
            r.wf(),
            r.terrain@ == terrain@,
            r.artwork@ == artwork@,
            r.content_hint == TileContentHint::Destructible,
    {
        TerrainTile { terrain, artwork, content_hint: TileContentHint::Destructible }
    }

    /// Recompute the content hint from the terrain pixels
    pub fn reset_content_hint(&mut self)
        ensures
            final(self).terrain@ == old(self).terrain@,
            final(self).artwork@ == old(self).artwork@,
            final(self).content_hint == spec_content_hint(old(self).terrain@),
    {
        let mut all_free_space = true;
        let mut all_water = true;
        let n = self.terrain.len();
        let mut i: usize = 0;
        while i < n
            invariant
                n == self.terrain.len(),
                self.terrain@ == old(self).terrain@,
                self.artwork@ == old(self).artwork@,
                i <= n,
                forall|j: int|
                    0 <= j < i ==> !(solid_type(self.terrain@[j]) != 0 && destructible_bit(
                        #[trigger] self.terrain@[j],
                    )),
                all_water == (forall|j: int|
                    0 <= j < i ==> solid_type(#[trigger] self.terrain@[j]) == 0 && water_bit(self.terrain@[j])),
                all_free_space == (forall|j: int|
                    0 <= j < i ==> solid_type(#[trigger] self.terrain@[j]) == 0 && !water_bit(self.terrain@[j])),
            decreases n - i,
        {
            let t = self.terrain[i];
            if is_solid(t) {
                all_free_space = false;
                all_water = false;
                if is_destructible(t) {
                    self.content_hint = TileContentHint::Destructible;
                    return;
                }
            } else if is_underwater(t) {
                all_free_space = false;
            } else {
                all_water = false;
            }
            i += 1;
        }

        self.content_hint = if all_water {
            TileContentHint::Water
        } else if all_free_space {
            TileContentHint::FreeSpace
        } else {
            TileContentHint::Indestructible
        };
    }

    /// Trace a line through this tile with Bresenham's algorithm.
    ///
    /// Returns the first solid point on the line or, if there is none,
    /// the terrain type at the end point.
    pub fn terrain_line(&self, line: Line) -> (r: LineHit)
        requires
            self.wf(),
            in_tile(line.x1 as int, line.y1 as int),
            in_tile(line.x2 as int, line.y2 as int),
        ensures
            r == spec_line_hit(self.terrain@, line),
    {
        let ghost ter = self.terrain@;
        let dx: i32 = if line.x2 >= line.x1 {
            line.x2 - line.x1
        } else {
            line.x1 - line.x2
        };
        let dy: i32 = if line.y2 >= line.y1 {
            line.y1 - line.y2
        } else {
            line.y2 - line.y1
        };
        let sx: i32 = if line.x1 < line.x2 {
            1
        } else {
            -1
        };
        let sy: i32 = if line.y1 < line.y2 {
            1
        } else {
            -1
        };

        let mut error: i32 = dx + dy;
        let mut x: i32 = line.x1;
        let mut y: i32 = line.y1;
        let ghost mut k: int = 0;
        proof {
            lemma_hit_from_state(ter, line, x as int, y as int, error as int, 128);
            assert(abs_int(x - line.x1) == 0 && abs_int(y - line.y1) == 0);
            assert(0 * dy == 0 && 0 * dx == 0);
        }
        loop
            invariant_except_break
                dx == abs_int(line.x2 - line.x1),
                dy == -abs_int(line.y2 - line.y1),
                sx == (if line.x1 < line.x2 { 1int } else { -1int }),
                sy == (if line.y1 < line.y2 { 1int } else { -1int }),
                between(line.x1 as int, line.x2 as int, x as int),
                between(line.y1 as int, line.y2 as int, y as int),
                error == dx + dy + abs_int(x - line.x1) * dy + abs_int(y - line.y1) * dx,
                0 <= k <= abs_int(x - line.x1) + abs_int(y - line.y1),
                hit_from_state(ter, line, x as int, y as int, error as int, (128 - k) as nat)
                    == spec_line_hit(ter, line),
            invariant
                self.wf(),
                ter == self.terrain@,
                in_tile(line.x1 as int, line.y1 as int),
                in_tile(line.x2 as int, line.y2 as int),
            ensures
                spec_line_hit(ter, line) == LineHit::Clear(ter[tile_offset(line.x2 as int, line.y2 as int)]),
            decreases abs_int(line.x2 - x) + abs_int(line.y2 - y),
        {
            let ghost gx = x as int;
            let ghost gy = y as int;
            let ghost gerr = error as int;
            let ghost fuel = (128 - k) as nat;
            assert(fuel > 0);
            proof {
                let ax = abs_int(x - line.x1);
                let ay = abs_int(y - line.y1);
                assert(0 <= ax <= 63 && 0 <= ay <= 63);
                assert(-63 <= dy <= 0 && 0 <= dx <= 63);
                assert(-3969 <= ax * dy <= 0) by (nonlinear_arith)
                    requires 0 <= ax <= 63, -63 <= dy <= 0;
                assert(0 <= ay * dx <= 3969) by (nonlinear_arith)
                    requires 0 <= ay <= 63, 0 <= dx <= 63;
            }
            let ter_here = self.terrain[(y * TILE_SIZE + x) as usize];
            if is_solid(ter_here) {
                return LineHit::Solid { terrain: ter_here, x, y };
            }
            let e2 = error * 2;
            let ghost gax = abs_int(x - line.x1);
            let ghost gay = abs_int(y - line.y1);
            if e2 >= dy {
                if x == line.x2 {
                    assert(bres_step(line, gx, gy, gerr) is None);
                    break;
                }
                error = error + dy;
                x += sx;
            }
            if e2 <= dx {
                if y == line.y2 {
                    assert(bres_step(line, gx, gy, gerr) is None);
                    break;
                }
                error = error + dx;
                y += sy;
            }
            proof {
                assert(bres_step(line, gx, gy, gerr) == Some((x as int, y as int, error as int)));
                let mx: int = if e2 >= dy { 1 } else { 0 };
                let my: int = if e2 <= dx { 1 } else { 0 };
                assert(abs_int(x - line.x1) == gax + mx);
                assert(abs_int(y - line.y1) == gay + my);
                assert(error == gerr + mx * dy + my * dx);
                assert(mx + my >= 1);
                let ax2 = abs_int(x - line.x1);
                let ay2 = abs_int(y - line.y1);
                assert(error == dx + dy + ax2 * dy + ay2 * dx) by (nonlinear_arith)
                    requires
                        gerr == dx + dy + gax * dy + gay * dx,
                        error == gerr + mx * dy + my * dx,
                        ax2 == gax + mx,
                        ay2 == gay + my;
                k = k + 1;
            }
        }

        LineHit::Clear(self.terrain[(line.y2 * TILE_SIZE + line.x2) as usize])
    }
}

} // verus!
