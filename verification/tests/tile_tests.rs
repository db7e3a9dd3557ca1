use luola2::geometry::Line;
use luola2::terrain::{TER_BIT_DESTRUCTIBLE, TER_BIT_WATER, TER_TYPE_GROUND};
use luola2::tile::{LineHit, TerrainTile, TileContentHint, TILE_LENGTH, TILE_SIZE};

fn tile_with(f: impl Fn(i32, i32) -> u8) -> TerrainTile {
    let mut ter = Vec::new();
    for y in 0..TILE_SIZE {
        for x in 0..TILE_SIZE {
            ter.push(f(x, y));
        }
    }
    TerrainTile::new(ter, vec![0u32; TILE_LENGTH])
}

#[test]
fn content_hints() {
    let mut t = tile_with(|_, _| 0);
    t.reset_content_hint();
    assert_eq!(t.content_hint, TileContentHint::FreeSpace);

    let mut t = tile_with(|_, _| TER_BIT_WATER);
    t.reset_content_hint();
    assert_eq!(t.content_hint, TileContentHint::Water);

    let mut t = tile_with(|_, _| TER_BIT_WATER | TER_BIT_DESTRUCTIBLE);
    t.reset_content_hint();
    assert_eq!(t.content_hint, TileContentHint::Water);

    let mut t = tile_with(|_, _| TER_BIT_DESTRUCTIBLE);
    t.reset_content_hint();
    assert_eq!(t.content_hint, TileContentHint::FreeSpace);

    let mut t = tile_with(|x, _| if x < 10 { TER_BIT_WATER } else { 0 });
    t.reset_content_hint();
    assert_eq!(t.content_hint, TileContentHint::Indestructible);

    let mut t = tile_with(|x, y| if x == 5 && y == 60 { TER_TYPE_GROUND } else { 0 });
    t.reset_content_hint();
    assert_eq!(t.content_hint, TileContentHint::Indestructible);

    let mut t = tile_with(|x, y| if x == 63 && y == 63 { TER_BIT_DESTRUCTIBLE | TER_TYPE_GROUND } else { 0 });
    t.reset_content_hint();
    assert_eq!(t.content_hint, TileContentHint::Destructible);
}

#[test]
fn new_tile_starts_destructible() {
    let t = tile_with(|_, _| 0);
    assert_eq!(t.content_hint, TileContentHint::Destructible);
    assert_eq!(t.terrain.len(), TILE_LENGTH);
}

#[test]
fn line_through_open_space_reports_end_terrain() {
    let t = tile_with(|x, _| if x == 40 { TER_BIT_WATER } else { 0 });
    assert_eq!(t.terrain_line(Line::new(0, 0, 40, 20)), LineHit::Clear(TER_BIT_WATER));
    assert_eq!(t.terrain_line(Line::new(3, 3, 3, 3)), LineHit::Clear(0));
}

#[test]
fn line_stops_at_first_solid_pixel() {
    let t = tile_with(|x, _| if x >= 30 { TER_TYPE_GROUND } else { 0 });
    assert_eq!(
        t.terrain_line(Line::new(0, 10, 63, 10)),
        LineHit::Solid { terrain: TER_TYPE_GROUND, x: 30, y: 10 }
    );
    // the walk goes from the first end point towards the second
    assert_eq!(
        t.terrain_line(Line::new(63, 10, 0, 10)),
        LineHit::Solid { terrain: TER_TYPE_GROUND, x: 63, y: 10 }
    );
    // diagonal walk
    assert_eq!(
        t.terrain_line(Line::new(0, 0, 40, 40)),
        LineHit::Solid { terrain: TER_TYPE_GROUND, x: 30, y: 30 }
    );
}
