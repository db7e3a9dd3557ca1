use luola2::geometry::{Line, Rect};
use luola2::level::{
    LevelError, LevelTerrain, LineClip, PixelBlend, RegenChance, RegeneratingTerrain,
};
use luola2::terrain::{
    is_destructible, is_solid, is_underwater, TER_BIT_DESTRUCTIBLE, TER_BIT_WATER, TER_LEVELBOUND,
    TER_TYPE_ICE, TER_TYPE_GROUND, TER_TYPE_BASESUPPORT,
};
use luola2::tile::LineHit;

const SPACE: u8 = 0;
const WATER: u8 = 1;
const DIRT: u8 = 2;
const ROCK: u8 = 3;
const WET_DIRT: u8 = 4;

fn palette() -> Vec<u8> {
    let mut p = vec![0u8; 256];
    p[WATER as usize] = TER_BIT_WATER;
    p[DIRT as usize] = TER_BIT_DESTRUCTIBLE | TER_TYPE_GROUND;
    p[ROCK as usize] = TER_TYPE_GROUND;
    p[WET_DIRT as usize] = TER_BIT_WATER | TER_BIT_DESTRUCTIBLE | TER_TYPE_GROUND;
    p
}

/// A level of w x h pixels whose raw colour index at (x, y) is f(x, y) and whose
/// artwork pixel is 0xff000000 | (y << 8 | x)
fn level_from(w: i32, h: i32, f: impl Fn(i32, i32) -> u8) -> LevelTerrain {
    let mut ter = Vec::new();
    let mut art = Vec::new();
    for y in 0..h {
        for x in 0..w {
            ter.push(f(x, y));
            art.push(0xff00_0000 | ((y as u32) << 8) | x as u32);
        }
    }
    LevelTerrain::from_pixels(w, h, &ter, w, h, &art, None, &palette()).unwrap()
}

struct TestBlend;

impl PixelBlend for TestBlend {
    fn blend(&self, dst: u32, src: u32) -> u32 {
        dst ^ src
    }
    fn blend_water(&self, color: u32, _water: u32) -> u32 {
        color | 1
    }
}

#[test]
fn loading_maps_colour_indices_through_the_palette() {
    let level = level_from(128, 64, |x, y| if y > 40 { DIRT } else if x < 10 { WATER } else { SPACE });
    assert_eq!(level.tiles_wide(), 2);
    assert_eq!(level.tiles_high(), 1);
    assert_eq!(level.width(), 128);
    assert_eq!(level.height(), 64);
    assert_eq!(level.terrain_at_lc(5, 5), TER_BIT_WATER);
    assert_eq!(level.terrain_at_lc(20, 5), 0);
    assert_eq!(level.terrain_at_lc(100, 50), TER_BIT_DESTRUCTIBLE | TER_TYPE_GROUND);
    assert_eq!(level.pixel_at_lc(100, 50), 0xff00_0000 | (50 << 8) | 100);
}

#[test]
fn outside_the_level_is_the_boundary() {
    let level = level_from(64, 64, |_, _| SPACE);
    assert_eq!(level.terrain_at_lc(-1, 0), TER_LEVELBOUND);
    assert_eq!(level.terrain_at_lc(0, 64), TER_LEVELBOUND);
    assert_eq!(level.terrain_at_lc(64, 10), TER_LEVELBOUND);
    assert_eq!(level.pixel_at_lc(64, 10), 0);
}

#[test]
fn level_size_must_be_a_tile_multiple() {
    let ter = vec![0u8; 65 * 64];
    let art = vec![0u32; 65 * 64];
    let r = LevelTerrain::from_pixels(65, 64, &ter, 65, 64, &art, None, &palette());
    assert!(matches!(r, Err(LevelError::NotTileMultiple)));
}

#[test]
fn artwork_must_match_terrain_size() {
    let ter = vec![0u8; 64 * 64];
    let art = vec![0u32; 128 * 64];
    let r = LevelTerrain::from_pixels(64, 64, &ter, 128, 64, &art, None, &palette());
    assert!(matches!(r, Err(LevelError::ArtworkSizeMismatch)));
}

#[test]
fn transparency_key_clears_artwork() {
    let ter: Vec<u8> = (0..64 * 64).map(|i| if i % 2 == 0 { SPACE } else { DIRT }).collect();
    let art = vec![0xffff_ffffu32; 64 * 64];
    let level = LevelTerrain::from_pixels(64, 64, &ter, 64, 64, &art, Some(SPACE), &palette()).unwrap();
    assert_eq!(level.pixel_at_lc(0, 0), 0);
    assert_eq!(level.pixel_at_lc(1, 0), 0xffff_ffff);
}

#[test]
fn hole_removes_destructible_terrain_only() {
    // dirt left of x = 32, rock from there on
    let mut level = level_from(64, 64, |x, _| if x < 32 { DIRT } else { ROCK });
    let (destroyed, dirty) = level.make_hole(32, 32, 5, 0xff00_00ff);
    // pixels in the 10x10 square at most 5 away from the centre, with x < 32
    let mut expected = 0;
    for y in 27..37 {
        for x in 27..32 {
            let d = (x - 32) * (x - 32) + (y - 32) * (y - 32);
            if d <= 25 {
                expected += 1;
                assert_eq!(level.terrain_at_lc(x, y), 0, "({x},{y})");
                assert_eq!(level.pixel_at_lc(x, y), 0);
            }
        }
    }
    assert_eq!(destroyed.len(), expected);
    for p in &destroyed {
        assert_eq!(p.terrain, TER_BIT_DESTRUCTIBLE | TER_TYPE_GROUND);
        assert_eq!(p.artwork, 0xff00_0000 | ((p.y as u32) << 8) | p.x as u32);
    }
    assert_eq!(dirty, vec![(0, 0)]);
    // rock is untouched
    assert_eq!(level.terrain_at_lc(33, 32), TER_TYPE_GROUND);
    // a pixel just outside the radius keeps its terrain
    assert!(is_solid(level.terrain_at_lc(28, 28)));
}

#[test]
fn underwater_holes_fill_with_water() {
    let mut level = level_from(64, 64, |_, _| WET_DIRT);
    let (destroyed, _) = level.make_hole(10, 10, 2, 0x1234_5678);
    assert!(!destroyed.is_empty());
    assert_eq!(level.terrain_at_lc(10, 10), TER_BIT_WATER);
    assert_eq!(level.pixel_at_lc(10, 10), 0x1234_5678);
}

#[test]
fn second_identical_hole_removes_nothing() {
    let mut level = level_from(128, 128, |_, _| DIRT);
    let (first, dirty) = level.make_hole(64, 64, 10, 0);
    assert!(!first.is_empty());
    // the hole spans all four tiles
    assert_eq!(dirty.len(), 4);
    let (second, dirty2) = level.make_hole(64, 64, 10, 0);
    assert!(second.is_empty());
    assert!(dirty2.is_empty());
}

#[test]
fn zero_radius_and_far_away_holes_do_nothing() {
    let mut level = level_from(64, 64, |_, _| DIRT);
    assert!(level.make_hole(10, 10, 0, 0).0.is_empty());
    assert!(level.make_hole(1000, 1000, 5, 0).0.is_empty());
    assert!(level.make_hole(-100, 10, 5, 0).0.is_empty());
    assert!(level.make_hole(i32::MAX, i32::MIN, 0, 0).0.is_empty());
    assert!(level.make_hole(10, 10, -5, 0).0.is_empty());
    assert!(is_solid(level.terrain_at_lc(10, 10)));
}

#[test]
fn large_holes_clear_the_whole_level() {
    let mut level = level_from(128, 64, |_, _| DIRT);
    let (destroyed, dirty) = level.make_hole(64, 32, 40000, 0);
    assert_eq!(destroyed.len(), 128 * 64);
    assert_eq!(dirty.len(), 2);
    assert!(!is_solid(level.terrain_at_lc(0, 0)));
    assert!(!is_solid(level.terrain_at_lc(127, 63)));
}

#[test]
fn hints_gate_carving_until_reset() {
    let mut level = level_from(64, 64, |_, _| ROCK);
    // a rock tile is hinted indestructible: adding dirt does not make it carvable yet
    assert_eq!(level.replace_point_lc(5, 5, TER_TYPE_GROUND, 0xff00_ff00, 0, &TestBlend), Some((0, 0)));
    assert!(is_destructible(level.terrain_at_lc(5, 5)));
    assert!(level.make_hole(5, 5, 1, 0).0.is_empty());
    level.reset_hints(&vec![(0, 0)]);
    assert_eq!(level.make_hole(5, 5, 1, 0).0.len(), 1);
}

#[test]
fn replacing_keeps_the_water_bit() {
    let mut level = level_from(64, 64, |x, _| if x < 32 { WATER } else { SPACE });
    level.replace_point_lc(1, 1, TER_TYPE_ICE, 0xffaa_aaaa, 0, &TestBlend);
    assert_eq!(level.terrain_at_lc(1, 1), TER_BIT_WATER | TER_BIT_DESTRUCTIBLE | TER_TYPE_ICE);
    assert_eq!(level.pixel_at_lc(1, 1), 0xffaa_aaab);
    level.replace_point_lc(1, 1, 0, 0x5, 0x77, &TestBlend);
    assert_eq!(level.terrain_at_lc(1, 1), TER_BIT_WATER);
    assert_eq!(level.pixel_at_lc(1, 1), 0x77);
    level.replace_point_lc(40, 1, TER_TYPE_GROUND, 0xff00_0001, 0, &TestBlend);
    assert_eq!(level.pixel_at_lc(40, 1), 0xff00_0001);
    // a translucent colour is drawn over the old artwork
    let before = level.pixel_at_lc(41, 1);
    level.replace_point_lc(41, 1, TER_TYPE_GROUND, 0x8000_0001, 0, &TestBlend);
    assert_eq!(level.pixel_at_lc(41, 1), before ^ 0x8000_0001);
    assert_eq!(level.replace_point_lc(-1, 1, TER_TYPE_GROUND, 0, 0, &TestBlend), None);
}

#[test]
fn points_are_added_only_to_open_pixels() {
    let mut level = level_from(64, 64, |x, _| if x < 10 { ROCK } else if x < 20 { WATER } else { SPACE });
    assert_eq!(level.add_point_lc(5, 5, TER_TYPE_ICE, 1), None);
    assert_eq!(level.terrain_at_lc(5, 5), TER_TYPE_GROUND);
    assert_eq!(level.add_point_lc(15, 5, TER_TYPE_ICE, 2), Some((0, 0)));
    assert_eq!(level.terrain_at_lc(15, 5), TER_BIT_WATER | TER_TYPE_ICE);
    assert!(is_underwater(level.terrain_at_lc(15, 5)));
    assert_eq!(level.add_point_lc(30, 5, TER_TYPE_ICE, 3), Some((0, 0)));
    assert_eq!(level.terrain_at_lc(30, 5), TER_TYPE_ICE);
    assert_eq!(level.pixel_at_lc(30, 5), 3);
    assert_eq!(level.add_point_lc(64, 5, TER_TYPE_ICE, 3), None);
}

#[test]
fn colouring_keeps_terrain() {
    let mut level = level_from(64, 64, |_, _| DIRT);
    let before = level.pixel_at_lc(3, 4);
    assert_eq!(level.color_point_lc(3, 4, 0xf0, &TestBlend), Some((0, 0)));
    assert_eq!(level.pixel_at_lc(3, 4), before ^ 0xf0);
    assert_eq!(level.terrain_at_lc(3, 4), TER_BIT_DESTRUCTIBLE | TER_TYPE_GROUND);
    assert_eq!(level.color_point_lc(3, -4, 0xf0, &TestBlend), None);
}

struct Always(bool);

impl RegenChance for Always {
    fn regrows(&mut self, _basesupport: bool) -> bool {
        self.0
    }
}

#[test]
fn regeneration_regrows_the_first_missing_pixel_and_its_row() {
    let mut level = level_from(64, 64, |_, _| DIRT);
    level.make_hole(10, 10, 3, 0);
    let regen: Vec<RegeneratingTerrain> = (8..13)
        .map(|x| RegeneratingTerrain {
            tile: (0, 0),
            offset: (10 * 64 + x) as usize,
            terrain: TER_BIT_DESTRUCTIBLE | TER_TYPE_BASESUPPORT,
            color: 0xffff_0000,
        })
        .collect();
    let (grew, dirty) = level.regenerate_terrain(&regen, &mut Always(false));
    assert!(grew);
    assert_eq!(dirty, vec![(0, 0)]);
    assert_eq!(level.terrain_at_lc(8, 10), TER_BIT_DESTRUCTIBLE | TER_TYPE_BASESUPPORT);
    assert_eq!(level.pixel_at_lc(8, 10), 0xffff_0000);
    assert_eq!(level.terrain_at_lc(9, 10), 0);
    let (grew, _) = level.regenerate_terrain(&regen, &mut Always(true));
    assert!(grew);
    for x in 8..13 {
        assert!(is_solid(level.terrain_at_lc(x, 10)));
    }
    let (grew, dirty) = level.regenerate_terrain(&regen, &mut Always(true));
    assert!(!grew);
    assert!(dirty.is_empty());
}

/// Clips horizontal lines only, which is all these tests draw
struct HorizontalClip;

impl LineClip for HorizontalClip {
    fn clipped(&self, l: Line, r: Rect) -> Option<Line> {
        self.clip(l, r)
    }

    fn clip(&self, l: Line, r: Rect) -> Option<Line> {
        assert_eq!(l.y1, l.y2);
        if l.y1 < r.y() || l.y1 > r.bottom() {
            return None;
        }
        let (lo, hi) = (l.x1.min(l.x2), l.x1.max(l.x2));
        let lo = lo.max(r.x());
        let hi = hi.min(r.right());
        if lo > hi {
            return None;
        }
        if l.x1 <= l.x2 {
            Some(Line::new(lo, l.y1, hi, l.y2))
        } else {
            Some(Line::new(hi, l.y1, lo, l.y2))
        }
    }
}

#[test]
fn line_through_the_level_finds_the_first_solid() {
    // three tiles wide: open, open water, rock from x = 150
    let mut level = level_from(192, 64, |x, _| if x >= 150 { ROCK } else if x >= 64 { WATER } else { SPACE });
    level.reset_hints(&vec![(0, 0), (1, 0), (2, 0)]);
    assert_eq!(
        level.terrain_line_lc(Line::new(10, 20, 190, 20), &HorizontalClip),
        LineHit::Solid { terrain: TER_TYPE_GROUND, x: 150, y: 20 }
    );
    assert_eq!(level.terrain_line_lc(Line::new(10, 20, 100, 20), &HorizontalClip), LineHit::Clear(TER_BIT_WATER));
    assert_eq!(level.terrain_line_lc(Line::new(100, 20, 5, 20), &HorizontalClip), LineHit::Clear(0));
}

#[test]
fn holes_leave_no_destructible_solid_and_list_pixels_tile_by_tile() {
    let mut level = level_from(128, 128, |_, _| DIRT);
    let (destroyed, dirty) = level.make_hole(64, 64, 6, 0);
    for y in 58..70 {
        for x in 58..70 {
            let d = (x - 64) * (x - 64) + (y - 64) * (y - 64);
            if d <= 36 {
                let t = level.terrain_at_lc(x, y);
                assert!(!(is_solid(t) && is_destructible(t)), "({x},{y})");
            }
        }
    }
    // tiles in index order, rows inside a tile
    let key = |x: i32, y: i32| ((y / 64) * 2 + x / 64) * 4096 + (y % 64) * 64 + x % 64;
    for w in destroyed.windows(2) {
        assert!(key(w[0].x, w[0].y) < key(w[1].x, w[1].y));
    }
    assert_eq!((destroyed[0].x, destroyed[0].y), (61, 59));
    assert_eq!(dirty, vec![(0, 0), (1, 0), (0, 1), (1, 1)]);
}
