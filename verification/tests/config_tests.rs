use luola2::config::{
    button_icon_key, controller_icon_keys, default_true, GameOptions, UserConfig, VideoConfig,
};
use luola2::controls::{default_keymap, MappedKey, PlayerKeymap, SDLK_LEFT, SDLK_RIGHT, SDLK_UP};

#[test]
fn defaults() {
    assert!(default_true());
    assert!(!VideoConfig::default().fullscreen);
    let g = GameOptions::default();
    assert!(g.minimap && g.baseregen);
    let c = UserConfig::default();
    assert!(c.keymap1.is_none() && c.keymap4.is_none());
    assert_eq!(c.keymaps(), [None, None, None, None]);
}

#[test]
fn configured_keymaps_win_over_built_in_ones() {
    let custom = PlayerKeymap { thrust: 1, down: 2, left: 3, right: 4, fire1: 5, fire2: 6, fire3: 7 };
    let mut c = UserConfig::default();
    c.keymap3 = Some(custom);
    assert_eq!(c.keymap_for(3), custom);
    assert_eq!(c.keymap_for(1), default_keymap(0));
    assert_eq!(controller_icon_keys(&c, 1), (SDLK_UP, SDLK_LEFT, SDLK_RIGHT));
    assert_eq!(controller_icon_keys(&c, 3), (1, 3, 4));
    assert_eq!(button_icon_key(&c, 3, MappedKey::Fire2), 6);
    assert_eq!(button_icon_key(&c, 1, MappedKey::Right), SDLK_RIGHT);
    assert_eq!(c.keymaps()[2], Some(custom));
}

#[test]
fn new_players_start_empty_handed() {
    let p = luola2::player::Player::new(3);
    assert_eq!(p.controller, 3);
    assert!(p.ship.is_empty() && p.weapon.is_empty());
    assert_eq!(p.wins, 0);
    assert_eq!(p.viewport, luola2::geometry::Rect::new(0, 0, 1, 1));
}
