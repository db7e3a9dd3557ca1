//! Terrain point classification.
//!
//! A terrain value is one byte: bit 7 marks water, bit 6 marks destructible
//! terrain, bit 5 marks dynamic (falling sand) terrain and the low five bits
//! hold the solid terrain type (zero means no solid).

use vstd::prelude::*;

verus! {

pub type Terrain = u8;

pub const TER_BIT_WATER: Terrain = 0b1000_0000;
pub const TER_BIT_DESTRUCTIBLE: Terrain = 0b0100_0000;
pub const TER_BIT_DYNAMIC: Terrain = 0b0010_0000;
pub const TER_MASK_SOLID: Terrain = 0b0001_1111;
pub const TER_TYPE_GROUND: Terrain = 1;
pub const TER_TYPE_BURNABLE: Terrain = 2;
pub const TER_TYPE_CINDER: Terrain = 3;
pub const TER_TYPE_EXPLOSIVE: Terrain = 4;
pub const TER_TYPE_HIGH_EXPLOSIVE: Terrain = 5;
pub const TER_TYPE_ICE: Terrain = 6;
pub const TER_TYPE_BASE: Terrain = 7;
/// Base that does not regenerate
pub const TER_TYPE_NOREGENBASE: Terrain = 8;
/// Ground that regenerates if base regeneration is enabled
pub const TER_TYPE_BASESUPPORT: Terrain = 9;
/// Ground that walkers can walk through
pub const TER_TYPE_WALKWAY: Terrain = 10;
/// Can infect a ship with grey goo
pub const TER_TYPE_GREYGOO: Terrain = 11;
/// Damages things that touch it
pub const TER_TYPE_DAMAGE: Terrain = 12;
/// Special type indicating the level boundary
pub const TER_LEVELBOUND: Terrain = TER_MASK_SOLID;

/// The solid terrain type held in the low five bits (zero: no solid)
pub open spec fn solid_type(t: Terrain) -> int {
    (t % 32) as int
}

/// Is the water bit set?
pub open spec fn water_bit(t: Terrain) -> bool {
    t >= 128
}

/// Is the destructible bit set?
pub open spec fn destructible_bit(t: Terrain) -> bool {
    (t / 64) % 2 == 1
}

/// Is the dynamic bit set?
pub open spec fn dynamic_bit(t: Terrain) -> bool {
    (t / 32) % 2 == 1
}

proof fn lemma_masks(t: Terrain)
    ensures
        t & TER_MASK_SOLID == t % 32,
        (t & (TER_BIT_WATER | TER_MASK_SOLID) == 0) == (t < 128 && t % 32 == 0),
        (t & (TER_BIT_WATER | TER_MASK_SOLID) == TER_BIT_WATER) == (t >= 128 && t % 32 == 0),
        (t & TER_BIT_WATER == TER_BIT_WATER) == (t >= 128),
        (t & TER_BIT_DYNAMIC == TER_BIT_DYNAMIC) == ((t / 32) % 2 == 1),
        (t & TER_BIT_DESTRUCTIBLE == TER_BIT_DESTRUCTIBLE) == ((t / 64) % 2 == 1),
        (t & TER_TYPE_CINDER >= TER_TYPE_BURNABLE) == ((t % 32) % 4 >= 2),
{
    assert(0x80u8 | 0x1fu8 == 0x9fu8) by (bit_vector);
    assert(TER_BIT_WATER | TER_MASK_SOLID == 0x9fu8);
    assert(t & 0x1f == t % 32) by (bit_vector);
    assert((t & 0x9fu8 == 0) == (t < 128 && t % 32 == 0)) by (bit_vector);
    assert((t & 0x9fu8 == 0x80) == (t >= 128 && t % 32 == 0)) by (bit_vector);
    assert((t & 0x80 == 0x80) == (t >= 128)) by (bit_vector);
    assert((t & 0x20 == 0x20) == ((t / 32) % 2 == 1)) by (bit_vector);
    assert((t & 0x40 == 0x40) == ((t / 64) % 2 == 1)) by (bit_vector);
    assert((t & 3 >= 2) == ((t % 32) % 4 >= 2)) by (bit_vector);
}

/// Is this terrain point open space (i.e. not solid and not water)
pub fn is_space(t: Terrain) -> (r: bool)
    ensures
        r == (!water_bit(t) && solid_type(t) == 0),
{
    proof {
        lemma_masks(t);
    }
    t & (TER_BIT_WATER | TER_MASK_SOLID) == 0
}

/// Can a walking critter walk through this type of terrain
pub fn can_walk_through(t: Terrain) -> (r: bool)
    ensures
        r == ((!water_bit(t) && solid_type(t) == 0) || solid_type(t) == TER_TYPE_WALKWAY),
{
    proof {
        lemma_masks(t);
    }
    is_space(t) || (t & TER_MASK_SOLID) == TER_TYPE_WALKWAY
}

/// Is this terrain point open water?
pub fn is_water(t: Terrain) -> (r: bool)
    ensures
        r == (water_bit(t) && solid_type(t) == 0),
{
    proof {
        lemma_masks(t);
    }
    t & (TER_BIT_WATER | TER_MASK_SOLID) == TER_BIT_WATER
}

/// Is this terrain underwater? (solid or free space)
pub fn is_underwater(t: Terrain) -> (r: bool)
    ensures
        r == water_bit(t),
{
    proof {
        lemma_masks(t);
    }
    t & TER_BIT_WATER == TER_BIT_WATER
}

/// Is this dynamic terrain?
/// Solid ground is animated as falling sand. Dynamic terrain is not initially active,
/// but shooting at it will trigger an activation wave of loosening sand.
pub fn is_dynamic(t: Terrain) -> (r: bool)
    ensures
        r == dynamic_bit(t),
{
    proof {
        lemma_masks(t);
    }
    t & TER_BIT_DYNAMIC == TER_BIT_DYNAMIC
}

/// Is this terrain point something you can't fly through?
pub fn is_solid(t: Terrain) -> (r: bool)
    ensures
        r == (solid_type(t) != 0),
{
    proof {
        lemma_masks(t);
    }
    t & TER_MASK_SOLID != 0
}

/// Is this solid terrain that cannot be erased?
pub fn is_indestructible_solid(t: Terrain) -> (r: bool)
    ensures
        r == (solid_type(t) != 0 && !destructible_bit(t)),
{
    is_solid(t) && !is_destructible(t)
}

/// Is this (normal) explosive terrain?
pub fn is_explosive(t: Terrain) -> (r: bool)
    ensures
        r == (solid_type(t) == TER_TYPE_EXPLOSIVE),
{
    proof {
        lemma_masks(t);
    }
    t & TER_MASK_SOLID == TER_TYPE_EXPLOSIVE
}

/// Is this (highly) explosive terrain?
pub fn is_high_explosive(t: Terrain) -> (r: bool)
    ensures
        r == (solid_type(t) == TER_TYPE_HIGH_EXPLOSIVE),
{
    proof {
        lemma_masks(t);
    }
    t & TER_MASK_SOLID == TER_TYPE_HIGH_EXPLOSIVE
}

/// Is this burnable terrain: the burnable type, or the burnable type that turns into cinder
pub fn is_burnable(t: Terrain) -> (r: bool)
    ensures
        r == (solid_type(t) == TER_TYPE_BURNABLE || solid_type(t) == TER_TYPE_CINDER),
{
    proof {
        lemma_masks(t);
    }
    let s = t & TER_MASK_SOLID;
    s == TER_TYPE_BURNABLE || s == TER_TYPE_CINDER
}

/// Is this burnable terrain that turns into cinder
pub fn is_cinder(t: Terrain) -> (r: bool)
    ensures
        r == (solid_type(t) == TER_TYPE_CINDER),
{
    proof {
        lemma_masks(t);
    }
    t & TER_MASK_SOLID == TER_TYPE_CINDER
}

/// Is this ice/snow? Ships slide on icy surfaces.
pub fn is_ice(t: Terrain) -> (r: bool)
    ensures
        r == (solid_type(t) == TER_TYPE_ICE),
{
    proof {
        lemma_masks(t);
    }
    t & TER_MASK_SOLID == TER_TYPE_ICE
}

/// Is this a base?
/// Bases orient the ship to point upwards. Underwater bases point the ship downward.
pub fn is_base(t: Terrain) -> (r: bool)
    ensures
        r == (solid_type(t) == TER_TYPE_BASE),
{
    proof {
        lemma_masks(t);
    }
    t & TER_MASK_SOLID == TER_TYPE_BASE
}

/// Is this a non-regenerating base?
pub fn is_noregen_base(t: Terrain) -> (r: bool)
    ensures
        r == (solid_type(t) == TER_TYPE_NOREGENBASE),
{
    proof {
        lemma_masks(t);
    }
    t & TER_MASK_SOLID == TER_TYPE_NOREGENBASE
}

/// Is this active base material of any type?
pub fn is_effective_base(t: Terrain) -> (r: bool)
    ensures
        r == (solid_type(t) == TER_TYPE_BASE || solid_type(t) == TER_TYPE_NOREGENBASE),
{
    is_base(t) || is_noregen_base(t)
}

/// Is this base support terrain?
/// Regular ground that regenerates along with bases if base regeneration is enabled.
pub fn is_basesupport(t: Terrain) -> (r: bool)
    ensures
        r == (solid_type(t) == TER_TYPE_BASESUPPORT),
{
    proof {
        lemma_masks(t);
    }
    t & TER_MASK_SOLID == TER_TYPE_BASESUPPORT
}

/// Is this grey goo? Touching it can infect a ship.
pub fn is_greygoo(t: Terrain) -> (r: bool)
    ensures
        r == (solid_type(t) == TER_TYPE_GREYGOO),
{
    proof {
        lemma_masks(t);
    }
    t & TER_MASK_SOLID == TER_TYPE_GREYGOO
}

/// Does this terrain inflict damage
pub fn is_damaging(t: Terrain) -> (r: bool)
    ensures
        r == (solid_type(t) == TER_TYPE_DAMAGE),
{
    proof {
        lemma_masks(t);
    }
    t & TER_MASK_SOLID == TER_TYPE_DAMAGE
}

/// Is this terrain you can blow up?
/// If a non-solid terrain pixel is marked as destructible,
/// its artwork pixel can be cleared even if the pixel was free space to begin with.
pub fn is_destructible(t: Terrain) -> (r: bool)
    ensures
        r == destructible_bit(t),
{
    proof {
        lemma_masks(t);
    }
    t & TER_BIT_DESTRUCTIBLE == TER_BIT_DESTRUCTIBLE
}

/// Level boundary reached?
pub fn is_level_boundary(t: Terrain) -> (r: bool)
    ensures
        r == (t == TER_LEVELBOUND),
{
    t == TER_LEVELBOUND
}

/// Every terrain value is exactly one of: open space, open water, solid.
pub proof fn law_space_water_solid_partition(t: Terrain)
    ensures
        (!water_bit(t) && solid_type(t) == 0) || (water_bit(t) && solid_type(t) == 0)
            || solid_type(t) != 0,
        !((!water_bit(t) && solid_type(t) == 0) && (water_bit(t) && solid_type(t) == 0)),
        !((!water_bit(t) && solid_type(t) == 0) && solid_type(t) != 0),
        !((water_bit(t) && solid_type(t) == 0) && solid_type(t) != 0),
{
}

/// The level boundary is solid, indestructible, dry and static.
pub proof fn law_level_boundary_is_indestructible_solid()
    ensures
        solid_type(TER_LEVELBOUND) != 0,
        !destructible_bit(TER_LEVELBOUND),
        !water_bit(TER_LEVELBOUND),
        !dynamic_bit(TER_LEVELBOUND),
{
}

/// Open water is underwater, and open space can be walked through.
pub proof fn law_water_and_space(t: Terrain)
    ensures
        (water_bit(t) && solid_type(t) == 0) ==> water_bit(t),
        (!water_bit(t) && solid_type(t) == 0) ==> ((!water_bit(t) && solid_type(t) == 0)
            || solid_type(t) == TER_TYPE_WALKWAY),
{
}

/// The solid type and the three flag bits determine a terrain value uniquely.
pub proof fn law_terrain_fields_determine_value(a: Terrain, b: Terrain)
    requires
        solid_type(a) == solid_type(b),
        water_bit(a) == water_bit(b),
        destructible_bit(a) == destructible_bit(b),
        dynamic_bit(a) == dynamic_bit(b),
    ensures
        a == b,
{
}

} // verus!
