use luola2::dynstep::{
    add_dynterrain, cell_key, cell_pos, step_dynterrain, DynamicTerrainMap, DynterEnv,
    SAND_SOLIDIFY_FRAMES,
};
use luola2::dynter::{DynamicTerrainCell, DynamicTerrainKind};
use luola2::level::{LevelTerrain, PixelBlend};
use luola2::terrain::{
    is_underwater, TER_BIT_DESTRUCTIBLE, TER_BIT_DYNAMIC, TER_BIT_WATER, TER_TYPE_DAMAGE,
    TER_TYPE_GREYGOO, TER_TYPE_GROUND, TER_TYPE_HIGH_EXPLOSIVE, TER_TYPE_ICE,
};

struct Blend;

impl PixelBlend for Blend {
    fn blend(&self, _dst: u32, src: u32) -> u32 {
        src
    }
    fn blend_water(&self, color: u32, _water: u32) -> u32 {
        color
    }
}

/// Never spreads by chance, fixed colours
struct Calm;

impl DynterEnv for Calm {
    fn spread_chance(&mut self, _limit: i32) -> bool {
        false
    }
    fn icicle_chance(&mut self) -> bool {
        false
    }
    fn foam_color(&mut self, _limit: i32) -> u32 {
        0xf0
    }
    fn goo_color(&mut self, _counter: i32) -> u32 {
        0xf1
    }
    fn fire_color(&mut self, _counter: i32) -> u32 {
        0xf2
    }
    fn cinder_color(&mut self) -> u32 {
        0xf3
    }
}

/// Always spreads
struct Wild;

impl DynterEnv for Wild {
    fn spread_chance(&mut self, _limit: i32) -> bool {
        true
    }
    fn icicle_chance(&mut self) -> bool {
        true
    }
    fn foam_color(&mut self, _limit: i32) -> u32 {
        0xe0
    }
    fn goo_color(&mut self, _counter: i32) -> u32 {
        0xe1
    }
    fn fire_color(&mut self, _counter: i32) -> u32 {
        0xe2
    }
    fn cinder_color(&mut self) -> u32 {
        0xe3
    }
}

const DIRT: u8 = TER_BIT_DESTRUCTIBLE | TER_TYPE_GROUND;

fn level_from(f: impl Fn(i32, i32) -> u8) -> LevelTerrain {
    let mut palette = vec![0u8; 256];
    for i in 0..256 {
        palette[i] = i as u8;
    }
    let mut ter = Vec::new();
    for y in 0..64 {
        for x in 0..64 {
            ter.push(f(x, y));
        }
    }
    let art = vec![0x1111_1111u32; 64 * 64];
    LevelTerrain::from_pixels(64, 64, &ter, 64, 64, &art, None, &palette).unwrap()
}

fn single(x: i32, y: i32, c: DynamicTerrainCell) -> DynamicTerrainMap {
    let mut m = DynamicTerrainMap::new();
    m.insert(cell_key(x, y), c);
    m
}

fn cell_at(m: &DynamicTerrainMap, x: i32, y: i32) -> Option<DynamicTerrainCell> {
    m.get(&cell_key(x, y)).copied()
}

#[test]
fn cell_keys_round_trip() {
    for &(x, y) in &[(0, 0), (-1, 5), (i32::MIN, i32::MAX), (i32::MAX, i32::MIN), (123, -456)] {
        assert_eq!(cell_pos(cell_key(x, y)), (x, y));
    }
    assert_ne!(cell_key(1, 2), cell_key(2, 1));
}

#[test]
fn empty_map_changes_nothing() {
    let mut level = level_from(|_, _| 0);
    let (cells, dirty) = step_dynterrain(&mut level, &DynamicTerrainMap::new(), 0, 0, &mut Wild, &Blend);
    assert!(cells.is_empty());
    assert!(dirty.is_empty());
}

#[test]
fn foam_hardens_and_spreads_into_open_space() {
    let mut level = level_from(|_, _| 0);
    let cells = single(10, 10, DynamicTerrainCell::Foam { limit: 2 });
    let (calm, dirty) = step_dynterrain(&mut level, &cells, 0, 0, &mut Calm, &Blend);
    assert_eq!(level.terrain_at_lc(10, 10), DIRT);
    assert_eq!(level.pixel_at_lc(10, 10), 0xf0);
    assert_eq!(dirty, vec![(0, 0)]);
    assert!(calm.is_empty());

    let mut level = level_from(|_, _| 0);
    let (wild, _) = step_dynterrain(&mut level, &cells, 0, 0, &mut Wild, &Blend);
    assert_eq!(wild.len(), 12);
    assert_eq!(cell_at(&wild, 10, 9), Some(DynamicTerrainCell::Foam { limit: 1 }));
    assert_eq!(cell_at(&wild, 12, 11), Some(DynamicTerrainCell::Foam { limit: 1 }));
}

#[test]
fn grey_goo_counts_down_then_eats_and_spreads() {
    let mut level = level_from(|_, _| DIRT);
    let cells = single(20, 20, DynamicTerrainCell::GreyGoo { counter: 1, limit: 3 });
    let (next, _) = step_dynterrain(&mut level, &cells, 0, 0, &mut Calm, &Blend);
    assert_eq!(level.terrain_at_lc(20, 20), TER_BIT_DESTRUCTIBLE | TER_TYPE_GREYGOO);
    assert_eq!(level.pixel_at_lc(20, 20), 0xf1);
    assert_eq!(cell_at(&next, 20, 20), Some(DynamicTerrainCell::GreyGoo { counter: 0, limit: 3 }));

    let (after, _) = step_dynterrain(&mut level, &next, 0, 0, &mut Calm, &Blend);
    assert_eq!(level.terrain_at_lc(20, 20), 0);
    assert_eq!(after.len(), 4);
    for (x, y) in [(20, 19), (21, 20), (20, 21), (19, 20)] {
        match cell_at(&after, x, y) {
            Some(DynamicTerrainCell::GreyGoo { counter, limit }) => {
                assert!((20..40).contains(&counter));
                assert_eq!(limit, 2);
            }
            other => panic!("unexpected cell {other:?}"),
        }
    }
}

#[test]
fn nitro_soaks_ground_into_high_explosive() {
    let mut level = level_from(|_, _| DIRT);
    let cells = single(30, 30, DynamicTerrainCell::Nitro { counter: 0, limit: 1 });
    let (next, _) = step_dynterrain(&mut level, &cells, 0, 0, &mut Calm, &Blend);
    assert_eq!(level.terrain_at_lc(30, 30), TER_BIT_DESTRUCTIBLE | TER_TYPE_HIGH_EXPLOSIVE);
    assert_eq!(level.pixel_at_lc(30, 30), 0xffff_0000);
    assert_eq!(next.len(), 12);
    for c in next.values() {
        match c {
            DynamicTerrainCell::Nitro { counter, limit } => {
                assert!((1..6).contains(counter));
                assert_eq!(*limit, 0);
            }
            other => panic!("unexpected cell {other:?}"),
        }
    }
}

#[test]
fn fire_burns_out_to_cinder_or_nothing() {
    let mut level = level_from(|_, _| DIRT);
    let cells = single(5, 5, DynamicTerrainCell::Fire { counter: 2, cinder: true });
    let (next, _) = step_dynterrain(&mut level, &cells, 0, 0, &mut Calm, &Blend);
    assert_eq!(level.terrain_at_lc(5, 5), TER_BIT_DESTRUCTIBLE | TER_TYPE_DAMAGE);
    assert_eq!(cell_at(&next, 5, 5), Some(DynamicTerrainCell::Fire { counter: 1, cinder: true }));
    let cells = single(5, 5, DynamicTerrainCell::Fire { counter: 0, cinder: true });
    let (next, _) = step_dynterrain(&mut level, &cells, 0, 0, &mut Calm, &Blend);
    assert!(next.is_empty());
    assert_eq!(level.terrain_at_lc(5, 5), DIRT);
    assert_eq!(level.pixel_at_lc(5, 5), 0xf3);
    let cells = single(6, 6, DynamicTerrainCell::Fire { counter: 0, cinder: false });
    step_dynterrain(&mut level, &cells, 0, 0, &mut Calm, &Blend);
    assert_eq!(level.terrain_at_lc(6, 6), 0);
}

#[test]
fn frost_freezes_water_but_keeps_it_underwater() {
    let mut level = level_from(|_, _| TER_BIT_WATER);
    let cells = single(32, 32, DynamicTerrainCell::Freezer { limit: 6 });
    let (next, _) = step_dynterrain(&mut level, &cells, 0x55, 0xaa, &mut Wild, &Blend);
    assert_eq!(level.terrain_at_lc(32, 32), TER_BIT_WATER | TER_BIT_DESTRUCTIBLE | TER_TYPE_ICE);
    assert_eq!(next.len(), 12);
    assert_eq!(cell_at(&next, 32, 31), Some(DynamicTerrainCell::Freezer { limit: 3 }));
    for y in 0..64 {
        for x in 0..64 {
            assert!(is_underwater(level.terrain_at_lc(x, y)));
        }
    }
}

#[test]
fn loosened_sand_falls_down() {
    let sand = TER_BIT_DESTRUCTIBLE | TER_BIT_DYNAMIC | TER_TYPE_GROUND;
    let mut level = level_from(|x, y| if x == 10 && y == 10 { sand } else { 0 });
    let cells = single(10, 10, DynamicTerrainCell::LooseningSand);
    let (grains, dirty) = step_dynterrain(&mut level, &cells, 0, 0, &mut Calm, &Blend);
    assert!(dirty.is_empty());
    assert_eq!(
        cell_at(&grains, 10, 10),
        Some(DynamicTerrainCell::Sand {
            terrain: TER_BIT_DYNAMIC | TER_TYPE_GROUND,
            solidify: SAND_SOLIDIFY_FRAMES,
            color: 0x1111_1111
        })
    );
    let (fallen, _) = step_dynterrain(&mut level, &grains, 0, 0, &mut Calm, &Blend);
    assert_eq!(level.terrain_at_lc(10, 10), 0);
    assert_eq!(level.terrain_at_lc(10, 11), TER_BIT_DESTRUCTIBLE | TER_BIT_DYNAMIC | TER_TYPE_GROUND);
    assert_eq!(level.pixel_at_lc(10, 11), 0x1111_1111);
    assert!(cell_at(&fallen, 10, 11).is_some());
}

#[test]
fn loosening_reaches_every_moore_neighbour() {
    let sand = TER_BIT_DESTRUCTIBLE | TER_BIT_DYNAMIC | TER_TYPE_GROUND;
    let mut level = level_from(|x, y| if (9..=11).contains(&x) && (9..=11).contains(&y) { sand } else { 0 });
    let cells = single(10, 10, DynamicTerrainCell::LooseningSand);
    let (next, _) = step_dynterrain(&mut level, &cells, 0, 0, &mut Calm, &Blend);
    for (x, y) in [(9, 9), (10, 9), (11, 9), (9, 10), (11, 10), (9, 11), (10, 11), (11, 11)] {
        assert_eq!(cell_at(&next, x, y), Some(DynamicTerrainCell::LooseningSand));
    }
    assert!(matches!(cell_at(&next, 10, 10), Some(DynamicTerrainCell::Sand { .. })));
    assert_eq!(next.len(), 9);
}

#[test]
fn toxin_creeps_along_surfaces() {
    let mut level = level_from(|_, y| if y >= 32 { DIRT } else { 0 });
    let cells = single(20, 32, DynamicTerrainCell::Toxin { limit: 2 });
    let (next, _) = step_dynterrain(&mut level, &cells, 0, 0, &mut Calm, &Blend);
    assert_eq!(level.terrain_at_lc(20, 32), TER_BIT_DESTRUCTIBLE | TER_TYPE_DAMAGE);
    assert_eq!(cell_at(&next, 21, 32), Some(DynamicTerrainCell::Toxin { limit: 1 }));
    assert_eq!(cell_at(&next, 19, 32), Some(DynamicTerrainCell::Toxin { limit: 1 }));
    // (20, 33) borders open space at (19, 31) through the roundish neighbourhood
    assert_eq!(cell_at(&next, 20, 33), Some(DynamicTerrainCell::Toxin { limit: 1 }));
}

#[test]
fn ground_eaters_do_not_start_on_indestructible_rock() {
    let level = level_from(|x, _| if x < 32 { TER_TYPE_GROUND } else { 0 });
    let mut cells = DynamicTerrainMap::new();
    let goo = DynamicTerrainCell::from_kind(DynamicTerrainKind::GreyGoo, None, None);
    assert!(!add_dynterrain(&level, &mut cells, 5, 5, goo));
    assert!(cells.is_empty());
    let foam = DynamicTerrainCell::from_kind(DynamicTerrainKind::Foam, None, None);
    assert!(add_dynterrain(&level, &mut cells, 5, 5, foam));
    assert!(add_dynterrain(&level, &mut cells, 40, 5, goo));
    assert_eq!(cells.len(), 2);
    assert_eq!(cell_at(&cells, 40, 5), Some(DynamicTerrainCell::GreyGoo { counter: 0, limit: 40 }));
}

#[test]
fn dynamic_terrain_names_and_defaults() {
    assert_eq!(DynamicTerrainKind::from_name("Fire"), Some(DynamicTerrainKind::Fire));
    assert_eq!(DynamicTerrainKind::from_name("fire"), None);
    assert_eq!(
        DynamicTerrainCell::from_kind(DynamicTerrainKind::Fire, None, Some(3)),
        DynamicTerrainCell::Fire { counter: 60, cinder: false }
    );
    assert_eq!(
        DynamicTerrainCell::from_kind(DynamicTerrainKind::Nitro, Some(7), None),
        DynamicTerrainCell::Nitro { counter: 7, limit: 5 }
    );
    assert!(DynamicTerrainCell::Fire { counter: 1, cinder: false }.destroys_ground());
    assert!(!DynamicTerrainCell::Freezer { limit: 1 }.destroys_ground());
}

#[test]
fn spawned_cells_and_edits_stay_near_their_cells() {
    // several kinds at once, far apart: every new cell and every changed pixel
    // lies within two pixels sideways and three below one of the old cells
    let mut level = level_from(|x, y| if y >= 40 { DIRT } else { 0 });
    let before = level_from(|x, y| if y >= 40 { DIRT } else { 0 });
    let mut cells = DynamicTerrainMap::new();
    let olds = [
        (10, 10, DynamicTerrainCell::Foam { limit: 3 }),
        (30, 39, DynamicTerrainCell::Freezer { limit: 3 }),
        (50, 45, DynamicTerrainCell::GreyGoo { counter: 0, limit: 3 }),
    ];
    for &(x, y, c) in &olds {
        cells.insert(cell_key(x, y), c);
    }
    let (next, _) = step_dynterrain(&mut level, &cells, 0, 0, &mut Wild, &Blend);
    assert!(!next.is_empty());
    for k in next.keys() {
        let (x, y) = cell_pos(*k);
        assert!(olds.iter().any(|&(ox, oy, _)| (x - ox).abs() <= 2 && (y - oy).abs() <= 2));
    }
    for y in 0..64 {
        for x in 0..64 {
            if level.terrain_at_lc(x, y) != before.terrain_at_lc(x, y)
                || level.pixel_at_lc(x, y) != before.pixel_at_lc(x, y)
            {
                assert!(olds.iter().any(|&(ox, oy, _)| (x - ox).abs() <= 2 && y >= oy && y - oy <= 3));
            }
        }
    }
}

#[test]
fn every_cell_of_a_step_acts() {
    let mut level = level_from(|_, _| DIRT);
    let mut cells = single(10, 10, DynamicTerrainCell::GreyGoo { counter: 2, limit: 1 });
    cells.insert(cell_key(40, 10), DynamicTerrainCell::Toxin { limit: 0 });
    cells.insert(cell_key(10, 40), DynamicTerrainCell::Foam { limit: 0 });
    let (next, _) = step_dynterrain(&mut level, &cells, 0, 0, &mut Calm, &Blend);
    assert_eq!(level.terrain_at_lc(10, 10), TER_BIT_DESTRUCTIBLE | TER_TYPE_GREYGOO);
    assert_eq!(level.terrain_at_lc(40, 10), TER_BIT_DESTRUCTIBLE | TER_TYPE_DAMAGE);
    assert_eq!(level.terrain_at_lc(10, 40), TER_BIT_DESTRUCTIBLE | TER_TYPE_GROUND);
    assert_eq!(next.len(), 1);
    assert_eq!(cell_at(&next, 10, 10), Some(DynamicTerrainCell::GreyGoo { counter: 1, limit: 1 }));
}
