use luola2::gamepads::GamepadSlots;

fn guid(b: u8) -> [u8; 16] {
    let mut g = [0u8; 16];
    g[0] = b;
    g[15] = b;
    g
}

#[test]
fn gamepads_get_slots_after_the_keyboards() {
    let mut s = GamepadSlots::new();
    assert_eq!(s.connect(guid(1), 100), (5, false));
    assert_eq!(s.connect(guid(2), 101), (6, false));
    assert_eq!(s.len(), 2);
    assert_eq!(s.controller_of(100), Some(5));
    assert_eq!(s.controller_of(101), Some(6));
    assert_eq!(s.controller_of(7), None);
}

#[test]
fn replugged_gamepad_gets_its_old_slot_back() {
    let mut s = GamepadSlots::new();
    s.connect(guid(1), 100);
    s.connect(guid(2), 101);
    assert_eq!(s.disconnect(100), Some(5));
    assert!(!s.slot(0).connected);
    // another kind of device does not take the free slot
    assert_eq!(s.connect(guid(3), 102), (7, false));
    // the same kind of device does
    assert_eq!(s.connect(guid(1), 103), (5, true));
    assert!(s.slot(0).connected);
    assert_eq!(s.controller_of(103), Some(5));
    assert_eq!(s.len(), 3);
}

#[test]
fn unknown_gamepads_are_ignored() {
    let mut s = GamepadSlots::new();
    assert_eq!(s.disconnect(5), None);
    assert_eq!(s.len(), 0);
}
