use luola2::controls::{
    default_keymap, gamepad_menu_button, is_gamepad_slot, CustomEvents, GamepadButton, KeyBindings,
    MappedKey, MenuButton, PlayerKeymap, SDLK_A, SDLK_DOWN, SDLK_ESCAPE, SDLK_F12, SDLK_KP_8,
    SDLK_LEFT, SDLK_RETURN, SDLK_RSHIFT, SDLK_UP, SDLK_W,
};

#[test]
fn menu_buttons_survive_the_event_queue() {
    let buttons = [
        MenuButton::NoButton,
        MenuButton::Up(1),
        MenuButton::Right(2),
        MenuButton::Down(3),
        MenuButton::Left(4),
        MenuButton::Select(0),
        MenuButton::Start,
        MenuButton::Back,
        MenuButton::Debug,
        MenuButton::GrabbedKey(SDLK_RETURN),
    ];
    for b in buttons {
        let (code, data) = b.to_event_code();
        assert_eq!(MenuButton::from_event_code(code, data), b);
    }
    assert_eq!(MenuButton::Up(3).to_event_code(), (1, 3));
    assert_eq!(MenuButton::from_event_code(42, 7), MenuButton::NoButton);
    assert!(MenuButton::NoButton.is_none());
    assert!(!MenuButton::Back.is_none());
}

#[test]
fn default_keymaps() {
    let k1 = default_keymap(0);
    assert_eq!(k1.thrust, SDLK_UP);
    assert_eq!(k1.fire1, SDLK_RSHIFT);
    assert_eq!(default_keymap(1).thrust, SDLK_W);
    assert_eq!(default_keymap(2).thrust, SDLK_KP_8);
}

#[test]
fn bound_keys_read_back() {
    let mut b = KeyBindings::new();
    b.reload_keymaps([None, None, None, None]);
    for i in 0..4 {
        assert_eq!(b.get_keymap(i), default_keymap(i));
    }
    let custom = PlayerKeymap { thrust: 1, down: 2, left: 3, right: 4, fire1: 5, fire2: 6, fire3: 7 };
    let mut fresh = KeyBindings::new();
    fresh.set_keymap(2, &custom);
    assert_eq!(fresh.get_keymap(2), custom);
    // nothing is bound for the other controllers
    assert_eq!(fresh.get_keymap(0).thrust, 0);
}

#[test]
fn key_presses_and_releases() {
    let mut b = KeyBindings::new();
    b.reload_keymaps([None, None, None, None]);

    // pressing a bound key targets the action without a menu button
    let r = b.key_event(false, SDLK_W, true);
    assert_eq!(r.target, Some((MappedKey::Up, 1)));
    assert_eq!(r.menu_button, MenuButton::NoButton);
    assert!(!r.grabbed);

    // releasing it emits that player's menu button
    let r = b.key_event(false, SDLK_W, false);
    assert_eq!(r.menu_button, MenuButton::Up(2));

    // fire2 is bound but is no menu button, so the global keys decide
    let r = b.key_event(false, SDLK_ESCAPE, false);
    assert_eq!(r.target, None);
    assert_eq!(r.menu_button, MenuButton::Back);
    assert_eq!(b.key_event(false, SDLK_RETURN, false).menu_button, MenuButton::Start);
    assert_eq!(b.key_event(false, SDLK_F12, false).menu_button, MenuButton::Debug);

    // arrow keys are bound to player one
    assert_eq!(b.key_event(false, SDLK_DOWN, false).menu_button, MenuButton::Down(1));
    assert_eq!(b.key_event(false, SDLK_LEFT, false).menu_button, MenuButton::Left(1));

    // key grab mode captures the released key
    let r = b.key_event(true, SDLK_A, false);
    assert!(r.grabbed);
    assert_eq!(r.menu_button, MenuButton::GrabbedKey(SDLK_A));
}

#[test]
fn unbound_arrow_keys_are_global_menu_keys() {
    let b = KeyBindings::new();
    assert_eq!(b.key_event(false, SDLK_UP, false).menu_button, MenuButton::Up(0));
    assert_eq!(b.key_event(false, SDLK_UP, true).menu_button, MenuButton::NoButton);
}

#[test]
fn gamepad_buttons() {
    assert_eq!(gamepad_menu_button(GamepadButton::DpadUp, true, 5), MenuButton::Up(5));
    assert_eq!(gamepad_menu_button(GamepadButton::East, true, 6), MenuButton::Select(6));
    assert_eq!(gamepad_menu_button(GamepadButton::Start, true, 6), MenuButton::Start);
    assert_eq!(gamepad_menu_button(GamepadButton::South, true, 6), MenuButton::NoButton);
    assert_eq!(gamepad_menu_button(GamepadButton::DpadUp, false, 5), MenuButton::NoButton);
    assert!(is_gamepad_slot(5, 6));
    assert!(!is_gamepad_slot(4, 6));
    assert!(!is_gamepad_slot(7, 6));
}

#[test]
fn custom_event_block() {
    let e = CustomEvents::from_base(100);
    assert_eq!((e.grabkey, e.config_changed, e.menu_button), (100, 101, 102));
}
