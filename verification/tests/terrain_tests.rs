use luola2::terrain::{
    can_walk_through, is_base, is_basesupport, is_burnable, is_cinder, is_damaging, is_destructible,
    is_dynamic, is_effective_base, is_explosive, is_greygoo, is_high_explosive, is_ice,
    is_indestructible_solid, is_level_boundary, is_noregen_base, is_solid, is_space,
    is_underwater, is_water, TER_BIT_DESTRUCTIBLE, TER_BIT_DYNAMIC, TER_BIT_WATER, TER_LEVELBOUND,
    TER_TYPE_BASE, TER_TYPE_BASESUPPORT, TER_TYPE_BURNABLE, TER_TYPE_CINDER, TER_TYPE_DAMAGE,
    TER_TYPE_EXPLOSIVE, TER_TYPE_GREYGOO, TER_TYPE_GROUND, TER_TYPE_HIGH_EXPLOSIVE, TER_TYPE_ICE,
    TER_TYPE_NOREGENBASE, TER_TYPE_WALKWAY,
};

#[test]
fn open_space_water_and_solid() {
    assert!(is_space(0));
    assert!(!is_water(0));
    assert!(!is_solid(0));
    assert!(is_water(TER_BIT_WATER));
    assert!(!is_space(TER_BIT_WATER));
    assert!(is_underwater(TER_BIT_WATER));
    assert!(is_solid(TER_TYPE_GROUND));
    assert!(is_solid(TER_BIT_WATER | TER_TYPE_GROUND));
    assert!(is_underwater(TER_BIT_WATER | TER_TYPE_GROUND));
    assert!(!is_water(TER_BIT_WATER | TER_TYPE_GROUND));
}

#[test]
fn every_terrain_value_is_exactly_one_of_space_water_solid() {
    for t in 0..=255u8 {
        let n = is_space(t) as u8 + is_water(t) as u8 + is_solid(t) as u8;
        assert_eq!(n, 1, "terrain {t}");
    }
}

#[test]
fn destructibility() {
    let ground = TER_BIT_DESTRUCTIBLE | TER_TYPE_GROUND;
    assert!(is_destructible(ground));
    assert!(!is_indestructible_solid(ground));
    assert!(is_indestructible_solid(TER_TYPE_GROUND));
    assert!(!is_indestructible_solid(0));
    assert!(is_destructible(TER_BIT_DESTRUCTIBLE));
}

#[test]
fn level_boundary_is_indestructible_dry_solid() {
    assert!(is_level_boundary(TER_LEVELBOUND));
    assert!(is_solid(TER_LEVELBOUND));
    assert!(is_indestructible_solid(TER_LEVELBOUND));
    assert!(!is_underwater(TER_LEVELBOUND));
    assert!(!is_dynamic(TER_LEVELBOUND));
    assert!(!is_level_boundary(TER_TYPE_GROUND));
}

#[test]
fn solid_types() {
    assert!(is_explosive(TER_TYPE_EXPLOSIVE | TER_BIT_DESTRUCTIBLE));
    assert!(!is_explosive(TER_TYPE_HIGH_EXPLOSIVE));
    assert!(is_high_explosive(TER_TYPE_HIGH_EXPLOSIVE));
    assert!(is_cinder(TER_TYPE_CINDER));
    assert!(is_ice(TER_BIT_WATER | TER_TYPE_ICE));
    assert!(is_base(TER_TYPE_BASE));
    assert!(is_noregen_base(TER_TYPE_NOREGENBASE));
    assert!(is_effective_base(TER_TYPE_BASE));
    assert!(is_effective_base(TER_TYPE_NOREGENBASE));
    assert!(!is_effective_base(TER_TYPE_BASESUPPORT));
    assert!(is_basesupport(TER_TYPE_BASESUPPORT));
    assert!(is_greygoo(TER_TYPE_GREYGOO));
    assert!(is_damaging(TER_TYPE_DAMAGE));
    assert!(is_dynamic(TER_BIT_DYNAMIC | TER_TYPE_GROUND));
    assert!(!is_dynamic(TER_TYPE_GROUND));
}

#[test]
fn burnable_is_the_burnable_and_cinder_types() {
    assert!(is_burnable(TER_TYPE_BURNABLE));
    assert!(is_burnable(TER_TYPE_CINDER));
    assert!(is_burnable(0x42));
    assert!(is_burnable(0x43));
    assert!(!is_burnable(TER_TYPE_GROUND));
    assert!(!is_burnable(TER_TYPE_EXPLOSIVE));
    assert!(!is_burnable(0x46));
    assert!(!is_burnable(0x47));
    assert!(!is_burnable(TER_LEVELBOUND));
}

#[test]
fn walkways() {
    assert!(can_walk_through(0));
    assert!(can_walk_through(TER_TYPE_WALKWAY | TER_BIT_DESTRUCTIBLE));
    assert!(!can_walk_through(TER_TYPE_GROUND));
    assert!(!can_walk_through(TER_BIT_WATER));
}
