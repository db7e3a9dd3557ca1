//! Player input: key bindings, menu button events and the decisions taken on
//! key presses.

use std::collections::HashMap;
use vstd::prelude::*;

verus! {

broadcast use vstd::std_specs::hash::group_hash_axioms;

pub type PlayerId = i32;

/// How many controllers are reserved for keyboard use.
/// All other controllers are gamepads.
pub const KEYBOARDS: usize = 4;

pub const SDLK_RETURN: u32 = 0x0000_000d;
pub const SDLK_ESCAPE: u32 = 0x0000_001b;
pub const SDLK_MINUS: u32 = 0x0000_002d;
pub const SDLK_A: u32 = 0x0000_0061;
pub const SDLK_D: u32 = 0x0000_0064;
pub const SDLK_H: u32 = 0x0000_0068;
pub const SDLK_I: u32 = 0x0000_0069;
pub const SDLK_J: u32 = 0x0000_006a;
pub const SDLK_K: u32 = 0x0000_006b;
pub const SDLK_L: u32 = 0x0000_006c;
pub const SDLK_Q: u32 = 0x0000_0071;
pub const SDLK_S: u32 = 0x0000_0073;
pub const SDLK_U: u32 = 0x0000_0075;
pub const SDLK_W: u32 = 0x0000_0077;
pub const SDLK_Y: u32 = 0x0000_0079;
pub const SDLK_F12: u32 = 0x4000_0045;
pub const SDLK_RIGHT: u32 = 0x4000_004f;
pub const SDLK_LEFT: u32 = 0x4000_0050;
pub const SDLK_DOWN: u32 = 0x4000_0051;
pub const SDLK_UP: u32 = 0x4000_0052;
pub const SDLK_KP_ENTER: u32 = 0x4000_0058;
pub const SDLK_KP_1: u32 = 0x4000_0059;
pub const SDLK_KP_4: u32 = 0x4000_005c;
pub const SDLK_KP_5: u32 = 0x4000_005d;
pub const SDLK_KP_6: u32 = 0x4000_005e;
pub const SDLK_KP_8: u32 = 0x4000_0060;
pub const SDLK_KP_0: u32 = 0x4000_0062;
pub const SDLK_LCTRL: u32 = 0x4000_00e0;
pub const SDLK_LSHIFT: u32 = 0x4000_00e1;
pub const SDLK_RCTRL: u32 = 0x4000_00e4;
pub const SDLK_RSHIFT: u32 = 0x4000_00e5;

/// Button events for controlling menus.
///
/// Player ID 0 is used for the global non-configurable keys
#[derive(Clone, Copy, Debug, PartialEq, Eq, Structural)]
pub enum MenuButton {
    NoButton,
    Up(PlayerId),
    Right(PlayerId),
    Down(PlayerId),
    Left(PlayerId),
    Select(PlayerId),
    Start,
    Back,
    Debug,
    GrabbedKey(u32),
}

/// The player action a key is bound to
#[derive(Clone, Copy, Debug, PartialEq, Eq, Structural)]
pub enum MappedKey {
    Up,
    Right,
    Down,
    Left,
    Fire1,
    Fire2,
    Fire3,
}

/// The keys of one keyboard player
#[derive(Clone, Copy, Debug, PartialEq, Eq, Structural)]
pub struct PlayerKeymap {
    pub thrust: u32,
    pub down: u32,
    pub left: u32,
    pub right: u32,
    pub fire1: u32,
    pub fire2: u32,
    pub fire3: u32,
}

/// The pointer-sized event payload that carries a player id
pub open spec fn player_payload(p: PlayerId) -> usize {
    p as usize
}

impl MenuButton {
    pub fn is_none(self) -> (r: bool)
        ensures
            r == (self == MenuButton::NoButton),
    {
        match self {
            MenuButton::NoButton => true,
            _ => false,
        }
    }

    /// Return a (code, data1) pair to be used in a custom event.
    /// data1 is the pointer-sized payload (a player id or a key code).
    pub fn to_event_code(self) -> (r: (i32, usize))
        ensures
            r == (match self {
                MenuButton::NoButton => (0i32, 0usize),
                MenuButton::Up(p) => (1i32, p as usize),
                MenuButton::Right(p) => (2i32, p as usize),
                MenuButton::Down(p) => (3i32, p as usize),
                MenuButton::Left(p) => (4i32, p as usize),
                MenuButton::Select(p) => (5i32, p as usize),
                MenuButton::Start => (6i32, 0usize),
                MenuButton::Back => (7i32, 0usize),
                MenuButton::Debug => (8i32, 0usize),
                MenuButton::GrabbedKey(k) => (9i32, k as usize),
            }),
    {
        match self {
            MenuButton::NoButton => (0, 0),
            MenuButton::Up(p) => (1, p as usize),
            MenuButton::Right(p) => (2, p as usize),
            MenuButton::Down(p) => (3, p as usize),
            MenuButton::Left(p) => (4, p as usize),
            MenuButton::Select(p) => (5, p as usize),
            MenuButton::Start => (6, 0),
            MenuButton::Back => (7, 0),
            MenuButton::Debug => (8, 0),
            MenuButton::GrabbedKey(k) => (9, k as usize),
        }
    }

    /// Decode a menu button from a custom event's code and payload
    pub fn from_event_code(code: i32, data1: usize) -> (r: MenuButton)
        ensures
            r == (match code {
                1 => MenuButton::Up(data1 as i32),
                2 => MenuButton::Right(data1 as i32),
                3 => MenuButton::Down(data1 as i32),
                4 => MenuButton::Left(data1 as i32),
                5 => MenuButton::Select(data1 as i32),
                6 => MenuButton::Start,
                7 => MenuButton::Back,
                8 => MenuButton::Debug,
                9 => MenuButton::GrabbedKey(data1 as u32),
                _ => MenuButton::NoButton,
            }),
    {
        match code {
            1 => MenuButton::Up(data1 as i32),
            2 => MenuButton::Right(data1 as i32),
            3 => MenuButton::Down(data1 as i32),
            4 => MenuButton::Left(data1 as i32),
            5 => MenuButton::Select(data1 as i32),
            6 => MenuButton::Start,
            7 => MenuButton::Back,
            8 => MenuButton::Debug,
            9 => MenuButton::GrabbedKey(data1 as u32),
            _ => MenuButton::NoButton,
        }
    }
}

/// Decoding an encoded menu button gives the same button back.
pub proof fn law_menu_button_event_roundtrip(b: MenuButton)
    ensures
        ({
            let (code, data) = match b {
                MenuButton::NoButton => (0i32, 0usize),
                MenuButton::Up(p) => (1i32, p as usize),
                MenuButton::Right(p) => (2i32, p as usize),
                MenuButton::Down(p) => (3i32, p as usize),
                MenuButton::Left(p) => (4i32, p as usize),
                MenuButton::Select(p) => (5i32, p as usize),
                MenuButton::Start => (6i32, 0usize),
                MenuButton::Back => (7i32, 0usize),
                MenuButton::Debug => (8i32, 0usize),
                MenuButton::GrabbedKey(k) => (9i32, k as usize),
            };
            b == match code {
                1 => MenuButton::Up(data as i32),
                2 => MenuButton::Right(data as i32),
                3 => MenuButton::Down(data as i32),
                4 => MenuButton::Left(data as i32),
                5 => MenuButton::Select(data as i32),
                6 => MenuButton::Start,
                7 => MenuButton::Back,
                8 => MenuButton::Debug,
                9 => MenuButton::GrabbedKey(data as u32),
                _ => MenuButton::NoButton,
            }
        }),
{
    match b {
        MenuButton::Up(p) | MenuButton::Right(p) | MenuButton::Down(p) | MenuButton::Left(p)
        | MenuButton::Select(p) => {
            assert((p as usize) as i32 == p) by (bit_vector);
        },
        MenuButton::GrabbedKey(k) => {
            assert((k as usize) as u32 == k) by (bit_vector);
        },
        _ => {},
    }
}


/// Where a key sits on a QWERTY keyboard, as (row, column) inside its block of
/// keys: the top two letter rows, the arrow keys, and the keypad digits (rows
/// from the top, columns from the left). None for other keys.
pub open spec fn key_position(key: u32) -> Option<(int, int)> {
    let top = seq!['q', 'w', 'e', 'r', 't', 'y', 'u', 'i', 'o', 'p'];
    let home = seq!['a', 's', 'd', 'f', 'g', 'h', 'j', 'k', 'l'];
    if exists|c: int| 0 <= c < top.len() && top[c] as u32 == key {
        Some((0, choose|c: int| 0 <= c < top.len() && top[c] as u32 == key))
    } else if exists|c: int| 0 <= c < home.len() && home[c] as u32 == key {
        Some((1, choose|c: int| 0 <= c < home.len() && home[c] as u32 == key))
    } else if key == SDLK_UP {
        Some((0, 1))
    } else if key == SDLK_LEFT {
        Some((1, 0))
    } else if key == SDLK_DOWN {
        Some((1, 1))
    } else if key == SDLK_RIGHT {
        Some((1, 2))
    } else if SDLK_KP_1 <= key < SDLK_KP_1 + 9 {
        let d = key - SDLK_KP_1;
        Some((2 - d / 3, d % 3))
    } else if key == SDLK_KP_0 {
        Some((3, 0))
    } else {
        None
    }
}

/// Each built-in keymap lays its movement keys out as on the keyboard: the left,
/// down and right keys side by side in one row, left to right, and the thrust key
/// straight above the down key.
pub proof fn law_default_keymaps_follow_the_keyboard(i: int)
    requires
        0 <= i < KEYBOARDS,
    ensures
        ({
            let km = spec_default_keymap(i);
            &&& key_position(km.thrust) matches Some(t) && key_position(km.down) matches Some(d)
                && key_position(km.left) matches Some(l) && key_position(km.right) matches Some(r) && {
                &&& l.0 == d.0 && d.0 == r.0
                &&& l.1 + 1 == d.1 && d.1 + 1 == r.1
                &&& t.0 + 1 == d.0 && t.1 == d.1
            }
        }),
{
    let top = seq!['q', 'w', 'e', 'r', 't', 'y', 'u', 'i', 'o', 'p'];
    let home = seq!['a', 's', 'd', 'f', 'g', 'h', 'j', 'k', 'l'];
    let km = spec_default_keymap(i);
    if i == 1 {
        assert(top[1] as u32 == km.thrust);
        assert(home[1] as u32 == km.down);
        assert(home[0] as u32 == km.left);
        assert(home[2] as u32 == km.right);
        assert(!(exists|c: int| 0 <= c < top.len() && top[c] as u32 == km.down));
        assert(!(exists|c: int| 0 <= c < top.len() && top[c] as u32 == km.left));
        assert(!(exists|c: int| 0 <= c < top.len() && top[c] as u32 == km.right));
    } else if i == 3 {
        assert(top[7] as u32 == km.thrust);
        assert(home[7] as u32 == km.down);
        assert(home[6] as u32 == km.left);
        assert(home[8] as u32 == km.right);
        assert(!(exists|c: int| 0 <= c < top.len() && top[c] as u32 == km.down));
        assert(!(exists|c: int| 0 <= c < top.len() && top[c] as u32 == km.left));
        assert(!(exists|c: int| 0 <= c < top.len() && top[c] as u32 == km.right));
    } else {
        assert(!(exists|c: int| 0 <= c < top.len() && top[c] as u32 == km.thrust));
        assert(!(exists|c: int| 0 <= c < top.len() && top[c] as u32 == km.down));
        assert(!(exists|c: int| 0 <= c < top.len() && top[c] as u32 == km.left));
        assert(!(exists|c: int| 0 <= c < top.len() && top[c] as u32 == km.right));
        assert(!(exists|c: int| 0 <= c < home.len() && home[c] as u32 == km.thrust));
        assert(!(exists|c: int| 0 <= c < home.len() && home[c] as u32 == km.down));
        assert(!(exists|c: int| 0 <= c < home.len() && home[c] as u32 == km.left));
        assert(!(exists|c: int| 0 <= c < home.len() && home[c] as u32 == km.right));
    }
}

/// Released by nobody's keymap, the arrow keys move the menu by where they sit:
/// the key above the others up, and in the row below the leftmost left, the middle
/// one down and the rightmost right, for no particular player
pub proof fn law_arrow_keys_steer_by_place(key: u32)
    requires
        key == SDLK_UP || key == SDLK_DOWN || key == SDLK_LEFT || key == SDLK_RIGHT,
    ensures
        key_position(key) matches Some(p) && {
            &&& p.0 == 0 ==> global_menu_button(key) == MenuButton::Up(0)
            &&& p.0 == 1 && p.1 == 0 ==> global_menu_button(key) == MenuButton::Left(0)
            &&& p.0 == 1 && p.1 == 1 ==> global_menu_button(key) == MenuButton::Down(0)
            &&& p.0 == 1 && p.1 == 2 ==> global_menu_button(key) == MenuButton::Right(0)
        },
{
    let top = seq!['q', 'w', 'e', 'r', 't', 'y', 'u', 'i', 'o', 'p'];
    let home = seq!['a', 's', 'd', 'f', 'g', 'h', 'j', 'k', 'l'];
    assert(!(exists|c: int| 0 <= c < top.len() && top[c] as u32 == key));
    assert(!(exists|c: int| 0 <= c < home.len() && home[c] as u32 == key));
}

/// The built-in keymaps never share a key: each key of the keyboard moves at most
/// one player, in one way
pub proof fn law_default_keymaps_disjoint(i: int, j: int, a: int, b: int)
    requires
        0 <= i < KEYBOARDS,
        0 <= j < KEYBOARDS,
        0 <= a < 7,
        0 <= b < 7,
        i != j || a != b,
    ensures
        keymap_bindings(spec_default_keymap(i))[a].0 != keymap_bindings(spec_default_keymap(j))[b].0,
{
}

/// The built-in keymap of keyboard player slot i (0-3)
pub open spec fn spec_default_keymap(i: int) -> PlayerKeymap {
    if i == 0 {
        PlayerKeymap {
            thrust: SDLK_UP,
            down: SDLK_DOWN,
            left: SDLK_LEFT,
            right: SDLK_RIGHT,
            fire1: SDLK_RSHIFT,
            fire2: SDLK_RCTRL,
            fire3: SDLK_MINUS,
        }
    } else if i == 1 {
        PlayerKeymap {
            thrust: SDLK_W,
            down: SDLK_S,
            left: SDLK_A,
            right: SDLK_D,
            fire1: SDLK_LSHIFT,
            fire2: SDLK_LCTRL,
            fire3: SDLK_Q,
        }
    } else if i == 2 {
        PlayerKeymap {
            thrust: SDLK_KP_8,
            down: SDLK_KP_5,
            left: SDLK_KP_4,
            right: SDLK_KP_6,
            fire1: SDLK_KP_0,
            fire2: SDLK_KP_ENTER,
            fire3: SDLK_KP_1,
        }
    } else {
        PlayerKeymap {
            thrust: SDLK_I,
            down: SDLK_K,
            left: SDLK_J,
            right: SDLK_L,
            fire1: SDLK_Y,
            fire2: SDLK_H,
            fire3: SDLK_U,
        }
    }
}

/// The built-in keymap of keyboard player slot i
pub fn default_keymap(i: usize) -> (r: PlayerKeymap)
    requires
        i < KEYBOARDS,
    ensures
        r == spec_default_keymap(i as int),
{
    if i == 0 {
        PlayerKeymap {
            thrust: SDLK_UP,
            down: SDLK_DOWN,
            left: SDLK_LEFT,
            right: SDLK_RIGHT,
            fire1: SDLK_RSHIFT,
            fire2: SDLK_RCTRL,
            fire3: SDLK_MINUS,
        }
    } else if i == 1 {
        PlayerKeymap {
            thrust: SDLK_W,
            down: SDLK_S,
            left: SDLK_A,
            right: SDLK_D,
            fire1: SDLK_LSHIFT,
            fire2: SDLK_LCTRL,
            fire3: SDLK_Q,
        }
    } else if i == 2 {
        PlayerKeymap {
            thrust: SDLK_KP_8,
            down: SDLK_KP_5,
            left: SDLK_KP_4,
            right: SDLK_KP_6,
            fire1: SDLK_KP_0,
            fire2: SDLK_KP_ENTER,
            fire3: SDLK_KP_1,
        }
    } else {
        PlayerKeymap {
            thrust: SDLK_I,
            down: SDLK_K,
            left: SDLK_J,
            right: SDLK_L,
            fire1: SDLK_Y,
            fire2: SDLK_H,
            fire3: SDLK_U,
        }
    }
}

/// The bindings of a keymap for one controller, in the order they are applied
pub open spec fn keymap_bindings(km: PlayerKeymap) -> Seq<(u32, MappedKey)> {
    seq![
        (km.thrust, MappedKey::Up),
        (km.down, MappedKey::Down),
        (km.left, MappedKey::Left),
        (km.right, MappedKey::Right),
        (km.fire1, MappedKey::Fire1),
        (km.fire2, MappedKey::Fire2),
        (km.fire3, MappedKey::Fire3),
    ]
}

/// The key bindings m after binding the keys of km to controller c
pub open spec fn bind_keymap(m: Map<u32, (MappedKey, usize)>, c: usize, km: PlayerKeymap) -> Map<u32, (MappedKey, usize)> {
    m.insert(km.thrust, (MappedKey::Up, c))
        .insert(km.down, (MappedKey::Down, c))
        .insert(km.left, (MappedKey::Left, c))
        .insert(km.right, (MappedKey::Right, c))
        .insert(km.fire1, (MappedKey::Fire1, c))
        .insert(km.fire2, (MappedKey::Fire2, c))
        .insert(km.fire3, (MappedKey::Fire3, c))
}

/// The key that the keymap of controller c binds to action k, as read back from bindings m:
/// some key bound to (k, c), or 0 if there is none.
pub open spec fn read_back_ok(m: Map<u32, (MappedKey, usize)>, c: usize, k: MappedKey, r: u32) -> bool {
    if exists|key: u32| m.contains_key(key) && m[key] == (k, c) {
        m.contains_key(r) && m[r] == (k, c)
    } else {
        r == 0
    }
}

/// What a key press or release does
#[derive(Clone, Copy, Debug)]
pub struct KeyEventOutcome {
    /// Key grab mode ended with this event (the menu button carries the key)
    pub grabbed: bool,
    /// The player action the key is bound to, and the controller index
    pub target: Option<(MappedKey, usize)>,
    /// The menu button event to emit (NoButton for none)
    pub menu_button: MenuButton,
}

/// The keyboard bindings of all keyboard controllers: key code to
/// (action, controller index).
pub struct KeyBindings {
    keymap: HashMap<u32, (MappedKey, usize)>,
}

/// The menu button of a global (non-configurable) key released outside any binding
pub open spec fn global_menu_button(key: u32) -> MenuButton {
    if key == SDLK_UP {
        MenuButton::Up(0)
    } else if key == SDLK_DOWN {
        MenuButton::Down(0)
    } else if key == SDLK_LEFT {
        MenuButton::Left(0)
    } else if key == SDLK_RIGHT {
        MenuButton::Right(0)
    } else if key == SDLK_RETURN {
        MenuButton::Start
    } else if key == SDLK_ESCAPE {
        MenuButton::Back
    } else if key == SDLK_F12 {
        MenuButton::Debug
    } else {
        MenuButton::NoButton
    }
}

/// The menu button a released bound key emits
pub open spec fn bound_menu_button(k: MappedKey, idx: usize) -> MenuButton {
    match k {
        MappedKey::Up => MenuButton::Up((idx + 1) as i32),
        MappedKey::Down => MenuButton::Down((idx + 1) as i32),
        MappedKey::Left => MenuButton::Left((idx + 1) as i32),
        MappedKey::Right => MenuButton::Right((idx + 1) as i32),
        MappedKey::Fire1 => MenuButton::Select((idx + 1) as i32),
        _ => MenuButton::NoButton,
    }
}

/// The direction of a menu button: 0 up, 1 right, 2 down, 3 left; -1 for a button
/// that is no direction
pub open spec fn menu_direction(b: MenuButton) -> int {
    match b {
        MenuButton::Up(_) => 0,
        MenuButton::Right(_) => 1,
        MenuButton::Down(_) => 2,
        MenuButton::Left(_) => 3,
        _ => -1,
    }
}

/// The player a menu button acts for; -1 for a button of no player
pub open spec fn menu_player(b: MenuButton) -> int {
    match b {
        MenuButton::Up(p) => p as int,
        MenuButton::Right(p) => p as int,
        MenuButton::Down(p) => p as int,
        MenuButton::Left(p) => p as int,
        MenuButton::Select(p) => p as int,
        _ => -1,
    }
}

/// The key a keymap binds to a player action
pub open spec fn bound_key(km: PlayerKeymap, k: MappedKey) -> u32 {
    match k {
        MappedKey::Up => km.thrust,
        MappedKey::Down => km.down,
        MappedKey::Left => km.left,
        MappedKey::Right => km.right,
        MappedKey::Fire1 => km.fire1,
        MappedKey::Fire2 => km.fire2,
        MappedKey::Fire3 => km.fire3,
    }
}

/// Releasing a key bound to a movement action of controller idx moves the menu
/// the same way as the arrow key that player one's built-in keymap binds to that
/// action moves it when nobody has it bound, but on behalf of player idx + 1;
/// releasing a key bound to the first fire action selects for player idx + 1, and
/// the other fire actions are no menu button.
pub proof fn law_released_keys_steer_menus_their_way(k: MappedKey, idx: usize)
    requires
        idx < KEYBOARDS,
    ensures
        k != MappedKey::Fire1 && k != MappedKey::Fire2 && k != MappedKey::Fire3 ==> {
            &&& menu_direction(bound_menu_button(k, idx)) >= 0
            &&& menu_direction(bound_menu_button(k, idx)) == menu_direction(
                global_menu_button(bound_key(spec_default_keymap(0), k)),
            )
            &&& menu_player(bound_menu_button(k, idx)) == idx + 1
        },
        k == MappedKey::Fire1 ==> bound_menu_button(k, idx) == MenuButton::Select((idx + 1) as i32),
        k == MappedKey::Fire2 || k == MappedKey::Fire3 ==> bound_menu_button(k, idx) == MenuButton::NoButton,
{
}

impl KeyBindings {
    pub closed spec fn view(&self) -> Map<u32, (MappedKey, usize)> {
        self.keymap@
    }

    /// Every binding names a keyboard controller
    pub closed spec fn wf(&self) -> bool {
        forall|key: u32| #[trigger] self.keymap@.contains_key(key) ==> self.keymap@[key].1 < KEYBOARDS
    }

    /// No key bound
    pub fn new() -> (r: Self)
        ensures
            r.view() == Map::<u32, (MappedKey, usize)>::empty(),
            r.wf(),
    {
        KeyBindings { keymap: HashMap::new() }
    }

    /// Bind the keys of a keymap to keyboard controller `controller`.
    /// Keys bound earlier (to any controller) are rebound.
    pub fn set_keymap(&mut self, controller: usize, keymap: &PlayerKeymap)
        requires
            old(self).wf(),
            controller < KEYBOARDS,
        ensures
            final(self).wf(),
            final(self).view() == bind_keymap(old(self).view(), controller, *keymap),
    {
        self.keymap.insert(keymap.thrust, (MappedKey::Up, controller));
        self.keymap.insert(keymap.down, (MappedKey::Down, controller));
        self.keymap.insert(keymap.left, (MappedKey::Left, controller));
        self.keymap.insert(keymap.right, (MappedKey::Right, controller));
        self.keymap.insert(keymap.fire1, (MappedKey::Fire1, controller));
        self.keymap.insert(keymap.fire2, (MappedKey::Fire2, controller));
        self.keymap.insert(keymap.fire3, (MappedKey::Fire3, controller));
    }

    /// Rebuild the bindings from the four keyboard keymaps (None: the built-in keymap)
    pub fn reload_keymaps(&mut self, keymaps: [Option<PlayerKeymap>; 4])
        ensures
            final(self).wf(),
            final(self).view() == bind_keymap(
                bind_keymap(
                    bind_keymap(
                        bind_keymap(
                            Map::empty(),
                            0,
                            unwrap_keymap(keymaps[0], 0),
                        ),
                        1,
                        unwrap_keymap(keymaps[1], 1),
                    ),
                    2,
                    unwrap_keymap(keymaps[2], 2),
                ),
                3,
                unwrap_keymap(keymaps[3], 3),
            ),
    {
        self.keymap = HashMap::new();
        let mut i: usize = 0;
        let ghost mut expected = Map::<u32, (MappedKey, usize)>::empty();
        while i < KEYBOARDS
            invariant
                i <= KEYBOARDS,
                self.wf(),
                self.view() == if i == 0 {
                    Map::empty()
                } else if i == 1 {
                    bind_keymap(Map::empty(), 0, unwrap_keymap(keymaps[0], 0))
                } else if i == 2 {
                    bind_keymap(bind_keymap(Map::empty(), 0, unwrap_keymap(keymaps[0], 0)), 1, unwrap_keymap(keymaps[1], 1))
                } else if i == 3 {
                    bind_keymap(bind_keymap(bind_keymap(Map::empty(), 0, unwrap_keymap(keymaps[0], 0)), 1, unwrap_keymap(keymaps[1], 1)), 2, unwrap_keymap(keymaps[2], 2))
                } else {
                    bind_keymap(bind_keymap(bind_keymap(bind_keymap(Map::empty(), 0, unwrap_keymap(keymaps[0], 0)), 1, unwrap_keymap(keymaps[1], 1)), 2, unwrap_keymap(keymaps[2], 2)), 3, unwrap_keymap(keymaps[3], 3))
                },
            decreases KEYBOARDS - i,
        {
            let km = match keymaps[i] {
                Some(k) => k,
                None => default_keymap(i),
            };
            self.set_keymap(i, &km);
            i += 1;
        }
    }

    /// The key bound to each action of keyboard controller `controller`
    /// (0 for an action without a key)
    pub fn get_keymap(&self, controller: usize) -> (r: PlayerKeymap)
        requires
            controller < KEYBOARDS,
        ensures
            read_back_ok(self.view(), controller, MappedKey::Up, r.thrust),
            read_back_ok(self.view(), controller, MappedKey::Down, r.down),
            read_back_ok(self.view(), controller, MappedKey::Left, r.left),
            read_back_ok(self.view(), controller, MappedKey::Right, r.right),
            read_back_ok(self.view(), controller, MappedKey::Fire1, r.fire1),
            read_back_ok(self.view(), controller, MappedKey::Fire2, r.fire2),
            read_back_ok(self.view(), controller, MappedKey::Fire3, r.fire3),
    {
        PlayerKeymap {
            thrust: self.find_key(MappedKey::Up, controller),
            down: self.find_key(MappedKey::Down, controller),
            left: self.find_key(MappedKey::Left, controller),
            right: self.find_key(MappedKey::Right, controller),
            fire1: self.find_key(MappedKey::Fire1, controller),
            fire2: self.find_key(MappedKey::Fire2, controller),
            fire3: self.find_key(MappedKey::Fire3, controller),
        }
    }

    /// Some key bound to (k, controller), or 0 if there is none
    fn find_key(&self, k: MappedKey, controller: usize) -> (r: u32)
        ensures
            read_back_ok(self.view(), controller, k, r),
    {
        for pair in it: self.keymap.iter()
            invariant
                it.seq().len() == self.keymap@.dom().len(),
                forall|i: int| 0 <= i < it.seq().len() ==> self.keymap@.contains_key(*it.seq()[i].0)
                    && self.keymap@[*it.seq()[i].0] == *it.seq()[i].1,
                forall|key: u32| #[trigger] self.keymap@.contains_key(key) ==> it.seq().contains((&key, &self.keymap@[key])),
                forall|i: int| 0 <= i < it.index() ==> *it.seq()[i].1 != (k, controller),
        {
            let (key, mapping) = pair;
            if mapping.0 == k && mapping.1 == controller {
                return *key;
            }
        }
        proof {
            if exists|key: u32| self.keymap@.contains_key(key) && self.keymap@[key] == (k, controller) {
                let key = choose|key: u32| self.keymap@.contains_key(key) && self.keymap@[key] == (k, controller);
                assert(self.keymap@.contains_key(key));
                assert(false);
            }
        }
        0
    }

    /// What pressing (down) or releasing a key does.
    ///
    /// In key grab mode a release ends the grab and emits the key. Otherwise a
    /// bound key targets its player action, and releasing it emits that
    /// player's menu button; releasing an unbound (or non-menu) key may emit a
    /// global menu button.
    pub fn key_event(&self, key_grabbing: bool, key: u32, down: bool) -> (r: KeyEventOutcome)
        requires
            self.wf(),
        ensures
            key_grabbing && !down ==> r == (KeyEventOutcome {
                grabbed: true,
                target: None,
                menu_button: MenuButton::GrabbedKey(key),
            }),
            !(key_grabbing && !down) ==> {
                let target = if self.view().contains_key(key) {
                    Some(self.view()[key])
                } else {
                    None
                };
                let bound = match target {
                    Some((k, idx)) => if !down {
                        bound_menu_button(k, idx)
                    } else {
                        MenuButton::NoButton
                    },
                    None => MenuButton::NoButton,
                };
                r == KeyEventOutcome {
                    grabbed: false,
                    target,
                    menu_button: if !down && bound == MenuButton::NoButton {
                        global_menu_button(key)
                    } else {
                        bound
                    },
                }
            },
    {
        if key_grabbing && !down {
            return KeyEventOutcome { grabbed: true, target: None, menu_button: MenuButton::GrabbedKey(key) };
        }

        let mut menubtn = MenuButton::NoButton;
        let target = match self.keymap.get(&key) {
            Some(m) => Some(*m),
            None => None,
        };
        if let Some((mapping, idx)) = target {
            if !down {
                menubtn = match mapping {
                    MappedKey::Up => MenuButton::Up(idx as i32 + 1),
                    MappedKey::Down => MenuButton::Down(idx as i32 + 1),
                    MappedKey::Left => MenuButton::Left(idx as i32 + 1),
                    MappedKey::Right => MenuButton::Right(idx as i32 + 1),
                    MappedKey::Fire1 => MenuButton::Select(idx as i32 + 1),
                    _ => MenuButton::NoButton,
                };
            }
        }

        if !down && menubtn.is_none() {
            menubtn = if key == SDLK_UP {
                MenuButton::Up(0)
            } else if key == SDLK_DOWN {
                MenuButton::Down(0)
            } else if key == SDLK_LEFT {
                MenuButton::Left(0)
            } else if key == SDLK_RIGHT {
                MenuButton::Right(0)
            } else if key == SDLK_RETURN {
                MenuButton::Start
            } else if key == SDLK_ESCAPE {
                MenuButton::Back
            } else if key == SDLK_F12 {
                MenuButton::Debug
            } else {
                MenuButton::NoButton
            };
        }

        KeyEventOutcome { grabbed: false, target, menu_button: menubtn }
    }
}

/// The keymap to use for a keyboard slot: the configured one, else the built-in one
pub open spec fn unwrap_keymap(k: Option<PlayerKeymap>, i: int) -> PlayerKeymap {
    match k {
        Some(km) => km,
        None => spec_default_keymap(i),
    }
}

/// Buttons of a gamepad that act on menus or controls
#[derive(Clone, Copy, Debug, PartialEq, Eq, Structural)]
pub enum GamepadButton {
    DpadUp,
    DpadRight,
    DpadDown,
    DpadLeft,
    East,
    South,
    West,
    North,
    Start,
    Back,
    LeftShoulder,
    RightShoulder,
    Other,
}

/// The menu button a gamepad button press emits for controller `ctrl_id`
/// (releases emit nothing)
pub fn gamepad_menu_button(button: GamepadButton, down: bool, ctrl_id: i32) -> (r: MenuButton)
    ensures
        !down ==> r == MenuButton::NoButton,
        down ==> r == match button {
            GamepadButton::DpadUp => MenuButton::Up(ctrl_id),
            GamepadButton::DpadRight => MenuButton::Right(ctrl_id),
            GamepadButton::DpadDown => MenuButton::Down(ctrl_id),
            GamepadButton::DpadLeft => MenuButton::Left(ctrl_id),
            GamepadButton::East => MenuButton::Select(ctrl_id),
            GamepadButton::Start => MenuButton::Start,
            GamepadButton::Back => MenuButton::Back,
            _ => MenuButton::NoButton,
        },
{
    if !down {
        return MenuButton::NoButton;
    }
    match button {
        GamepadButton::DpadUp => MenuButton::Up(ctrl_id),
        GamepadButton::DpadRight => MenuButton::Right(ctrl_id),
        GamepadButton::DpadDown => MenuButton::Down(ctrl_id),
        GamepadButton::DpadLeft => MenuButton::Left(ctrl_id),
        GamepadButton::East => MenuButton::Select(ctrl_id),
        GamepadButton::Start => MenuButton::Start,
        GamepadButton::Back => MenuButton::Back,
        _ => MenuButton::NoButton,
    }
}

/// Is `controller_id` (1-based) a connected-gamepad slot that can rumble or show LEDs,
/// given the number of controller slots?
pub fn is_gamepad_slot(controller_id: i32, slots: usize) -> (r: bool)
    ensures
        r == (controller_id > KEYBOARDS && controller_id <= slots),
{
    controller_id > KEYBOARDS as i32 && (controller_id as usize) <= slots
}

/// Custom event type numbers, registered as one consecutive block
#[derive(Clone, Copy, Debug, PartialEq, Eq, Structural)]
pub struct CustomEvents {
    pub grabkey: u32,
    pub config_changed: u32,
    pub menu_button: u32,
}

impl CustomEvents {
    /// The event numbers of a block of three registered events starting at `id`
    pub fn from_base(id: u32) -> (r: Self)
        requires
            id <= u32::MAX - 2,
        ensures
            r.grabkey == id,
            r.config_changed == id + 1,
            r.menu_button == id + 2,
    {
        CustomEvents { grabkey: id, config_changed: id + 1, menu_button: id + 2 }
    }
}

/// After binding a keymap to a controller, each of its keys reads back as
/// bound to its action for that controller unless a later key of the same
/// keymap took it over.
pub proof fn law_bound_keys_read_back(m: Map<u32, (MappedKey, usize)>, c: usize, km: PlayerKeymap)
    ensures
        bind_keymap(m, c, km)[km.fire3] == (MappedKey::Fire3, c),
        km.fire2 != km.fire3 ==> bind_keymap(m, c, km)[km.fire2] == (MappedKey::Fire2, c),
        km.thrust != km.down && km.thrust != km.left && km.thrust != km.right && km.thrust != km.fire1
            && km.thrust != km.fire2 && km.thrust != km.fire3 ==> bind_keymap(m, c, km)[km.thrust] == (
        MappedKey::Up, c),
        forall|key: u32|
            key != km.thrust && key != km.down && key != km.left && key != km.right && key != km.fire1
                && key != km.fire2 && key != km.fire3 ==> (#[trigger] bind_keymap(m, c, km).contains_key(key)
                == m.contains_key(key) && (m.contains_key(key) ==> bind_keymap(m, c, km)[key] == m[key])),
{
}

} // verus!
