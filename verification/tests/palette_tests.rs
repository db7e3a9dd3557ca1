use luola2::palette::{
    key_terrain, map_palette, palette_mapping_panics, parse_palette_mapping, parse_range,
    transparent_color_index,
    water_color_index, PaletteEntry, PaletteError, PaletteItem, PaletteValue,
};
use luola2::terrain::{
    TER_BIT_DESTRUCTIBLE, TER_BIT_WATER, TER_TYPE_BASE, TER_TYPE_BURNABLE, TER_TYPE_CINDER,
    TER_TYPE_EXPLOSIVE, TER_TYPE_GROUND,
};

fn item_from_toml(v: &toml::Value) -> PaletteItem {
    match v {
        toml::Value::String(s) => PaletteItem::Range(s.clone()),
        toml::Value::Integer(i) => PaletteItem::Index(*i),
        _ => PaletteItem::Other,
    }
}

fn entries_from_toml(table: &toml::Table) -> Vec<PaletteEntry> {
    table
        .iter()
        .map(|(k, v)| PaletteEntry {
            key: k.clone(),
            value: match v {
                toml::Value::String(s) => PaletteValue::Range(s.clone()),
                toml::Value::Integer(i) => PaletteValue::Index(*i),
                toml::Value::Array(a) => PaletteValue::List(a.iter().map(item_from_toml).collect()),
                _ => PaletteValue::Other,
            },
        })
        .collect()
}

fn entry(key: &str, value: PaletteValue) -> PaletteEntry {
    PaletteEntry { key: key.to_string(), value }
}

#[test]
fn test_palette_parsing() {
    let palette_section: toml::Table = toml::from_str(
        r#"
            space = 0
            water = 1
            ground-uw = 2
            base-uw-i = 3
            burnable = [4, 5]
            cinder = "6-8"
            explosive = ["9-10"]
        "#,
    )
    .unwrap();

    let mapping = parse_palette_mapping(&entries_from_toml(&palette_section)).unwrap();

    assert_eq!(mapping[0], 0);
    assert_eq!(mapping[1], TER_BIT_WATER);
    assert_eq!(
        mapping[2],
        TER_BIT_WATER | TER_BIT_DESTRUCTIBLE | TER_TYPE_GROUND
    );
    assert_eq!(mapping[3], TER_BIT_WATER | TER_TYPE_BASE);
    assert_eq!(mapping[4], TER_BIT_DESTRUCTIBLE | TER_TYPE_BURNABLE);
    assert_eq!(mapping[5], TER_BIT_DESTRUCTIBLE | TER_TYPE_BURNABLE);
    assert_eq!(mapping[6], TER_BIT_DESTRUCTIBLE | TER_TYPE_CINDER);
    assert_eq!(mapping[7], TER_BIT_DESTRUCTIBLE | TER_TYPE_CINDER);
    assert_eq!(mapping[8], TER_BIT_DESTRUCTIBLE | TER_TYPE_CINDER);
    assert_eq!(mapping[9], TER_BIT_DESTRUCTIBLE | TER_TYPE_EXPLOSIVE);
    assert_eq!(mapping[10], TER_BIT_DESTRUCTIBLE | TER_TYPE_EXPLOSIVE);

    for i in 11..256 {
        assert_eq!(mapping[i], TER_BIT_DESTRUCTIBLE | TER_TYPE_GROUND);
    }
}

#[test]
fn palette_default_is_destructible_ground() {
    let mapping = parse_palette_mapping(&vec![]).unwrap();
    assert_eq!(mapping.len(), 256);
    assert!(mapping.iter().all(|t| *t == TER_BIT_DESTRUCTIBLE | TER_TYPE_GROUND));
    assert_eq!(transparent_color_index(&mapping), None);
}

#[test]
fn palette_later_entries_override() {
    let mapping = parse_palette_mapping(&vec![
        entry("ice", PaletteValue::Range("0-3".to_string())),
        entry("space", PaletteValue::Index(2)),
    ])
    .unwrap();
    assert_eq!(mapping[1], 0b0100_0110);
    assert_eq!(mapping[2], 0);
    assert_eq!(transparent_color_index(&mapping), Some(2));
}

#[test]
fn palette_errors() {
    assert_eq!(
        parse_palette_mapping(&vec![entry("ground-xx", PaletteValue::Index(1))]),
        Err(PaletteError::UnknownModifier)
    );
    assert_eq!(
        parse_palette_mapping(&vec![entry("ground-", PaletteValue::Index(1))]),
        Err(PaletteError::UnknownModifier)
    );
    assert_eq!(
        parse_palette_mapping(&vec![entry("lava", PaletteValue::Index(1))]),
        Err(PaletteError::UnknownTerrainType)
    );
    assert_eq!(
        parse_palette_mapping(&vec![entry("ground", PaletteValue::Index(256))]),
        Err(PaletteError::IndexOutOfRange)
    );
    assert_eq!(
        parse_palette_mapping(&vec![entry("ground", PaletteValue::Index(-1))]),
        Err(PaletteError::IndexOutOfRange)
    );
    assert_eq!(
        parse_palette_mapping(&vec![entry(
            "ground",
            PaletteValue::List(vec![PaletteItem::Index(1), PaletteItem::Other])
        )]),
        Err(PaletteError::ExpectedNumberOrRange)
    );
    assert_eq!(
        parse_palette_mapping(&vec![entry("ground", PaletteValue::Other)]),
        Err(PaletteError::BadMapping)
    );
    assert_eq!(
        parse_palette_mapping(&vec![entry("ground", PaletteValue::Range("7".to_string()))]),
        Err(PaletteError::InvalidRange)
    );
    assert_eq!(
        parse_palette_mapping(&vec![entry("ground", PaletteValue::Range("1-x".to_string()))]),
        Err(PaletteError::BadNumber)
    );
    assert_eq!(
        parse_palette_mapping(&vec![entry("ground", PaletteValue::Range("1-300".to_string()))]),
        Err(PaletteError::RangeOutOfBounds)
    );
}

#[test]
fn range_parsing() {
    assert_eq!(parse_range("6-8"), Ok(6..=8));
    assert_eq!(parse_range("+6-+8"), Ok(6..=8));
    assert_eq!(parse_range("0-255"), Ok(0..=255));
    assert_eq!(parse_range("5-4"), Ok(5..=4));
    assert_eq!(parse_range("-4"), Err(PaletteError::BadNumber));
    assert_eq!(parse_range("4-"), Err(PaletteError::BadNumber));
    assert_eq!(parse_range("4-5-6"), Err(PaletteError::BadNumber));
    assert_eq!(parse_range("99999999999999999999999-1"), Err(PaletteError::BadNumber));
    assert_eq!(parse_range("256-1"), Err(PaletteError::RangeOutOfBounds));
    assert_eq!(parse_range("12"), Err(PaletteError::InvalidRange));
}

#[test]
fn key_modifiers() {
    assert_eq!(key_terrain("water"), Ok(TER_BIT_WATER));
    assert_eq!(key_terrain("ground-i"), Ok(TER_TYPE_GROUND));
    assert_eq!(key_terrain("paint-uw"), Ok(TER_BIT_WATER | TER_BIT_DESTRUCTIBLE));
    assert_eq!(key_terrain("base-i-uw"), Ok(TER_BIT_WATER | TER_TYPE_BASE));
}

#[test]
fn palette_lookup_helpers() {
    let mapping = parse_palette_mapping(&vec![
        entry("space", PaletteValue::Index(3)),
        entry("water", PaletteValue::Range("5-6".to_string())),
    ])
    .unwrap();
    assert_eq!(water_color_index(&mapping, 16), Some(5));
    assert_eq!(water_color_index(&mapping, 5), None);
    let mut pixels = vec![3u8, 5, 200];
    map_palette(&mapping, &mut pixels);
    assert_eq!(pixels, vec![0, TER_BIT_WATER, TER_BIT_DESTRUCTIBLE | TER_TYPE_GROUND]);
}

#[test]
fn reversed_ranges_are_detected_before_building() {
    let reversed = vec![entry("ground", PaletteValue::Range("9-3".to_string()))];
    assert!(palette_mapping_panics(&reversed));
    // a range one past its end is empty, not reversed
    let empty = vec![entry("ground", PaletteValue::Range("5-4".to_string()))];
    assert!(!palette_mapping_panics(&empty));
    assert_eq!(parse_palette_mapping(&empty).unwrap()[5], TER_BIT_DESTRUCTIBLE | TER_TYPE_GROUND);
    // an earlier error stops the mapping before the reversed range
    let failed_first = vec![
        entry("ground", PaletteValue::List(vec![PaletteItem::Other, PaletteItem::Range("9-3".to_string())])),
    ];
    assert!(!palette_mapping_panics(&failed_first));
    let listed = vec![
        entry("space", PaletteValue::Index(1)),
        entry("ground", PaletteValue::List(vec![PaletteItem::Index(2), PaletteItem::Range("9-3".to_string())])),
    ];
    assert!(palette_mapping_panics(&listed));
    assert!(!palette_mapping_panics(&vec![]));
}
