use luola2::hud::HudOverlayAlignment;
use luola2::physics::{particle_landing, ParticleLanding, TerrainCollisionMode};
use luola2::terrain::{
    TER_BIT_DESTRUCTIBLE, TER_BIT_WATER, TER_LEVELBOUND, TER_TYPE_BASE, TER_TYPE_GROUND, TER_TYPE_ICE,
};
use luola2::texture::TextureId;

#[test]
fn texture_flags_round_trip() {
    for frames in [0, 1, 7, 0xfff] {
        for rot in [false, true] {
            for flip in [false, true] {
                let id = TextureId::from_parts(3, frames, rot, flip);
                assert_eq!(id.frames(), frames);
                assert_eq!(id.needs_rotation(), rot);
                assert_eq!(id.flippable(), flip);
                assert_eq!(id.offset(), 3);
            }
        }
    }
}

#[test]
fn overlay_alignment_names() {
    assert_eq!(HudOverlayAlignment::from_name(None), Some(HudOverlayAlignment::Centered));
    assert_eq!(HudOverlayAlignment::from_name(Some("topleft")), Some(HudOverlayAlignment::TopLeft));
    assert_eq!(HudOverlayAlignment::from_name(Some("center")), Some(HudOverlayAlignment::Centered));
    assert_eq!(HudOverlayAlignment::from_name(Some("status")), Some(HudOverlayAlignment::StatusArea));
    assert_eq!(HudOverlayAlignment::from_name(Some("middle")), None);
}

#[test]
fn collision_modes() {
    assert!(TerrainCollisionMode::Disabled.is_none());
    assert!(!TerrainCollisionMode::Exact.is_none());
    assert!(!TerrainCollisionMode::Passthrough.is_none());
}

#[test]
fn terrain_particles_settle_where_allowed() {
    let dirt = TER_BIT_DESTRUCTIBLE | TER_TYPE_GROUND;
    let snow = TER_BIT_DESTRUCTIBLE | TER_TYPE_ICE;
    assert_eq!(particle_landing(0, dirt, false), ParticleLanding::Floating);
    assert_eq!(particle_landing(dirt, dirt, false), ParticleLanding::Settles);
    assert_eq!(particle_landing(dirt, 0, false), ParticleLanding::Vanishes);
    assert_eq!(particle_landing(dirt, 0, true), ParticleLanding::Settles);
    assert_eq!(particle_landing(TER_LEVELBOUND, dirt, false), ParticleLanding::Vanishes);
    assert_eq!(particle_landing(TER_TYPE_BASE, dirt, false), ParticleLanding::Vanishes);
    assert_eq!(particle_landing(TER_BIT_WATER, dirt, false), ParticleLanding::Vanishes);
    assert_eq!(particle_landing(TER_BIT_WATER, snow, false), ParticleLanding::Settles);
}
