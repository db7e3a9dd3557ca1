use luola2::controls::{SDLK_KP_5, SDLK_KP_ENTER, SDLK_LSHIFT, SDLK_RETURN, SDLK_RSHIFT, SDLK_UP};
use luola2::geometry::Rect;
use luola2::keyicons::{icon_key, keymap, SDLK_0, SDLK_5, SDLK_LALT, SDLK_Z};

#[test]
fn key_pictures_in_the_atlas() {
    assert_eq!(keymap(SDLK_UP), Rect::new(0, 0, 22, 17));
    assert_eq!(keymap(0x61), Rect::new(4 * 22, 0, 22, 17));
    assert_eq!(keymap(SDLK_Z), Rect::new(29 * 22, 0, 22, 17));
    assert_eq!(keymap(SDLK_RETURN), Rect::new(30 * 22, 0, 22, 17));
    assert_eq!(keymap(SDLK_0), Rect::new(31 * 22, 0, 22, 17));
    assert_eq!(keymap(SDLK_LALT), Rect::new(47 * 22, 0, 22, 17));
}

#[test]
fn keypad_and_right_hand_keys_share_pictures() {
    assert_eq!(icon_key(SDLK_KP_5), SDLK_5);
    assert_eq!(keymap(SDLK_KP_5), keymap(SDLK_5));
    assert_eq!(keymap(SDLK_KP_ENTER), keymap(SDLK_RETURN));
    assert_eq!(keymap(SDLK_RSHIFT), keymap(SDLK_LSHIFT));
}

#[test]
fn keys_without_a_picture() {
    assert_eq!(keymap(0x4000_0045), Rect::new(0, 0, 0, 0));
    assert_eq!(keymap(0), Rect::new(0, 0, 0, 0));
}
