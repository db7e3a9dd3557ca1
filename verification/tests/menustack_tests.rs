use luola2::controls::MenuButton;
use luola2::menustack::{ActionOutcome, ButtonRoute, MenuStack, ScreenAction, ScreenPhase};

fn phases(s: &MenuStack) -> Vec<ScreenPhase> {
    (0..s.len()).map(|i| s.phase(i)).collect()
}

fn settled_main() -> MenuStack {
    let mut s = MenuStack::new();
    s.reload();
    s.animation_done(0);
    s
}

#[test]
fn buttons_go_to_the_top_screen_in_place() {
    let mut s = MenuStack::new();
    assert_eq!(s.begin_button(MenuButton::Start), ButtonRoute::Handled);
    s.reload();
    assert_eq!(phases(&s), vec![ScreenPhase::Appearing]);
    assert_eq!(s.begin_button(MenuButton::Down(1)), ButtonRoute::ToScreen(0));
    s.animation_done(0);
    assert_eq!(phases(&s), vec![ScreenPhase::Normal]);
    assert_eq!(s.begin_button(MenuButton::Select(2)), ButtonRoute::ToScreen(0));
}

#[test]
fn pushing_and_going_back() {
    let mut s = settled_main();
    assert_eq!(s.finish_button(ScreenAction::Push), ActionOutcome::Nothing);
    assert_eq!(phases(&s), vec![ScreenPhase::Hiding, ScreenPhase::Appearing]);
    assert_eq!(s.begin_button(MenuButton::Back), ButtonRoute::Handled);
    assert_eq!(phases(&s), vec![ScreenPhase::Appearing, ScreenPhase::Hiding]);
    s.animation_done(1);
    assert!(s.pop_closed());
    assert_eq!(phases(&s), vec![ScreenPhase::Appearing]);
    // back on the bottom screen does nothing
    s.animation_done(0);
    assert_eq!(s.begin_button(MenuButton::Back), ButtonRoute::Handled);
    assert_eq!(phases(&s), vec![ScreenPhase::Normal]);
}

#[test]
fn pop_return_and_key_grab() {
    let mut s = settled_main();
    s.finish_button(ScreenAction::Push);
    s.animation_done(0);
    s.animation_done(1);
    assert_eq!(phases(&s), vec![ScreenPhase::Hidden, ScreenPhase::Normal]);
    assert_eq!(s.finish_button(ScreenAction::Pop), ActionOutcome::Nothing);
    assert_eq!(phases(&s), vec![ScreenPhase::Appearing, ScreenPhase::Hiding]);
    // a hiding top screen takes no buttons
    assert_eq!(s.begin_button(MenuButton::Start), ButtonRoute::Handled);

    let mut s = settled_main();
    assert_eq!(s.finish_button(ScreenAction::KeyGrab), ActionOutcome::GrabKey);
    assert!(s.is_key_grabbing());
    s.begin_button(MenuButton::GrabbedKey(0x61));
    assert!(!s.is_key_grabbing());
    assert_eq!(s.finish_button(ScreenAction::Return), ActionOutcome::Returned);
    assert_eq!(phases(&s), vec![ScreenPhase::Hiding]);
    s.animation_done(0);
    assert!(!s.pop_closed());
    assert_eq!(s.len(), 0);
}
