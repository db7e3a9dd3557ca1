use luola2::controls::MenuButton;
use luola2::menu::{MenuLine, MenuModel, MenuState, MenuValue};

const PLAY: usize = 1;
const SOUND: usize = 2;
const KEY: usize = 3;
const QUIT: usize = 4;

fn menu() -> MenuModel {
    let items = vec![
        MenuLine { id: None, value: MenuValue::NoValue }, // heading
        MenuLine { id: Some(PLAY), value: MenuValue::Return },
        MenuLine { id: Some(SOUND), value: MenuValue::NoValue },
        MenuLine { id: None, value: MenuValue::NoValue }, // spacer
        MenuLine { id: Some(KEY), value: MenuValue::NoValue },
        MenuLine { id: Some(QUIT), value: MenuValue::Return },
    ];
    let mut m = MenuModel::new(items, Some(QUIT));
    m.set_value(SOUND, MenuValue::Toggle(true));
    m.set_value(KEY, MenuValue::KeyGrab(0x61));
    m
}

#[test]
fn appearing_puts_the_cursor_on_the_first_selectable_line() {
    let mut m = menu();
    assert_eq!(m.state(), MenuState::Disappeared);
    m.appear();
    assert_eq!(m.state(), MenuState::Appearing);
    assert_eq!(m.current(), 1);
    m.animation_done(false);
    assert_eq!(m.state(), MenuState::Appearing);
    m.animation_done(true);
    assert_eq!(m.state(), MenuState::Normal);
    m.disappear();
    m.animation_done(true);
    assert_eq!(m.state(), MenuState::Disappeared);
}

#[test]
fn cursor_skips_unselectable_lines_and_wraps() {
    let mut m = menu();
    m.appear();
    m.handle_button(MenuButton::Down(1));
    assert_eq!(m.current(), 2);
    m.handle_button(MenuButton::Down(1));
    assert_eq!(m.current(), 4);
    m.handle_button(MenuButton::Down(1));
    assert_eq!(m.current(), 5);
    m.handle_button(MenuButton::Down(1));
    assert_eq!(m.current(), 1);
    m.handle_button(MenuButton::Up(1));
    assert_eq!(m.current(), 5);
    m.handle_button(MenuButton::Up(1));
    assert_eq!(m.current(), 4);
    m.handle_button(MenuButton::Up(1));
    assert_eq!(m.current(), 2);
}

#[test]
fn down_then_up_returns_to_the_same_line() {
    let mut m = menu();
    m.appear();
    for _ in 0..5 {
        let here = m.current();
        m.handle_button(MenuButton::Down(0));
        m.handle_button(MenuButton::Up(0));
        assert_eq!(m.current(), here);
        m.handle_button(MenuButton::Down(0));
    }
}

#[test]
fn selecting_lines() {
    let mut m = menu();
    m.appear();
    let a = m.handle_button(MenuButton::Select(1));
    assert_eq!(a.chosen, Some(PLAY));
    assert!(!a.grab_key);

    m.handle_button(MenuButton::Down(1));
    assert!(m.get_toggle_value(SOUND));
    let a = m.handle_button(MenuButton::Start);
    assert_eq!(a.chosen, None);
    assert!(!m.get_toggle_value(SOUND));
    m.handle_button(MenuButton::Start);
    assert!(m.get_toggle_value(SOUND));

    assert_eq!(m.handle_button(MenuButton::Back).chosen, Some(QUIT));
    assert_eq!(m.handle_button(MenuButton::Right(1)).chosen, None);
}

#[test]
fn key_grab_binds_the_next_key() {
    let mut m = menu();
    m.appear();
    m.handle_button(MenuButton::Down(1));
    m.handle_button(MenuButton::Down(1));
    assert_eq!(m.get_keygrab_value(KEY), 0x61);
    let a = m.handle_button(MenuButton::Select(2));
    assert!(a.grab_key);
    assert!(m.is_key_grabbing());
    m.key_grabbed(0);
    assert!(m.is_key_grabbing());
    m.key_grabbed(0x62);
    assert!(!m.is_key_grabbing());
    assert_eq!(m.get_keygrab_value(KEY), 0x62);
    assert_eq!(m.get_value(KEY), MenuValue::KeyGrab(0x62));
}

#[test]
fn setting_an_unknown_id_changes_nothing() {
    let mut m = menu();
    m.set_value(99, MenuValue::Toggle(false));
    assert_eq!(m.get_value(PLAY), MenuValue::Return);
    assert!(m.get_toggle_value(SOUND));
}
