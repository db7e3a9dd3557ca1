//! Settings of physically simulated objects, and what becomes of terrain
//! particles that touch the ground.

use crate::terrain::{
    Terrain, TER_LEVELBOUND, TER_TYPE_BASE, TER_TYPE_ICE, is_base, is_ice, is_level_boundary, is_space, is_water,
    solid_type, water_bit,
};
use vstd::prelude::*;

verus! {

/// How a moving object collides with terrain
#[derive(Clone, Copy, Debug, PartialEq, Eq, Structural)]
pub enum TerrainCollisionMode {
    /// check every pixel on the line from old to new position
    Exact,
    /// just check the new pixel, may clip through thin terrain strips
    Simple,
    /// pass through the terrain but return the terrain type
    Passthrough,
    /// terrain collisions disabled (except for level boundaries)
    Disabled,
}

impl TerrainCollisionMode {
    /// Are terrain collisions disabled?
    pub fn is_none(&self) -> (r: bool)
        ensures
            r == (*self is Disabled),
    {
        match self {
            TerrainCollisionMode::Disabled => true,
            _ => false,
        }
    }
}

/// What becomes of a terrain particle (dust, snow) after a physics step
#[derive(Clone, Copy, Debug, PartialEq, Eq, Structural)]
pub enum ParticleLanding {
    /// Still in open space: it keeps floating
    Floating,
    /// It touched something and is gone
    Vanishes,
    /// It touched something and turns into a terrain pixel (or stains one)
    Settles,
}

/// The landing of a particle that carries terrain type `particle_terrain` (zero:
/// none) or stains pixels, on reaching terrain type `ter`. Nothing settles on
/// the level boundary or on bases, and only ice floats on water.
pub open spec fn spec_landing(ter: Terrain, particle_terrain: Terrain, stain: bool) -> ParticleLanding {
    if !water_bit(ter) && solid_type(ter) == 0 {
        ParticleLanding::Floating
    } else if particle_terrain == 0 && !stain {
        ParticleLanding::Vanishes
    } else if ter == TER_LEVELBOUND || solid_type(ter) == TER_TYPE_BASE {
        ParticleLanding::Vanishes
    } else if (water_bit(ter) && solid_type(ter) == 0) && solid_type(particle_terrain) != TER_TYPE_ICE {
        ParticleLanding::Vanishes
    } else {
        ParticleLanding::Settles
    }
}

/// What becomes of a terrain particle that reached terrain type `ter`
pub fn particle_landing(ter: Terrain, particle_terrain: Terrain, stain: bool) -> (r: ParticleLanding)
    ensures
        r == spec_landing(ter, particle_terrain, stain),
{
    if is_space(ter) {
        ParticleLanding::Floating
    } else if particle_terrain == 0 && !stain {
        ParticleLanding::Vanishes
    } else if is_level_boundary(ter) || is_base(ter) {
        ParticleLanding::Vanishes
    } else if is_water(ter) && !is_ice(particle_terrain) {
        ParticleLanding::Vanishes
    } else {
        ParticleLanding::Settles
    }
}

} // verus!
