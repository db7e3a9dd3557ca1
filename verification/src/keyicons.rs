//! Key icons: where the picture of a key is found in the key icon atlas.

use crate::controls::{
    SDLK_A, SDLK_D, SDLK_DOWN, SDLK_H, SDLK_I, SDLK_J, SDLK_K, SDLK_KP_0, SDLK_KP_1, SDLK_KP_4, SDLK_KP_5,
    SDLK_KP_6, SDLK_KP_8, SDLK_KP_ENTER, SDLK_L, SDLK_LCTRL, SDLK_LEFT, SDLK_LSHIFT, SDLK_MINUS, SDLK_Q,
    SDLK_RCTRL, SDLK_RETURN, SDLK_RIGHT, SDLK_RSHIFT, SDLK_S, SDLK_U, SDLK_UP, SDLK_W, SDLK_Y,
};
use crate::geometry::Rect;
use vstd::prelude::*;

verus! {

pub const SDLK_B: u32 = 0x0000_0062;
pub const SDLK_C: u32 = 0x0000_0063;
pub const SDLK_E: u32 = 0x0000_0065;
pub const SDLK_F: u32 = 0x0000_0066;
pub const SDLK_G: u32 = 0x0000_0067;
pub const SDLK_M: u32 = 0x0000_006d;
pub const SDLK_N: u32 = 0x0000_006e;
pub const SDLK_O: u32 = 0x0000_006f;
pub const SDLK_P: u32 = 0x0000_0070;
pub const SDLK_R: u32 = 0x0000_0072;
pub const SDLK_T: u32 = 0x0000_0074;
pub const SDLK_V: u32 = 0x0000_0076;
pub const SDLK_X: u32 = 0x0000_0078;
pub const SDLK_Z: u32 = 0x0000_007a;
pub const SDLK_0: u32 = 0x0000_0030;
pub const SDLK_1: u32 = 0x0000_0031;
pub const SDLK_2: u32 = 0x0000_0032;
pub const SDLK_3: u32 = 0x0000_0033;
pub const SDLK_4: u32 = 0x0000_0034;
pub const SDLK_5: u32 = 0x0000_0035;
pub const SDLK_6: u32 = 0x0000_0036;
pub const SDLK_7: u32 = 0x0000_0037;
pub const SDLK_8: u32 = 0x0000_0038;
pub const SDLK_9: u32 = 0x0000_0039;
pub const SDLK_PLUS: u32 = 0x0000_002b;
pub const SDLK_COMMA: u32 = 0x0000_002c;
pub const SDLK_PERIOD: u32 = 0x0000_002e;
pub const SDLK_LALT: u32 = 0x4000_00e2;
pub const SDLK_RALT: u32 = 0x4000_00e6;
pub const SDLK_KP_2: u32 = 0x4000_005a;
pub const SDLK_KP_3: u32 = 0x4000_005b;
pub const SDLK_KP_7: u32 = 0x4000_005f;
pub const SDLK_KP_9: u32 = 0x4000_0061;
pub const SDLK_KP_MINUS: u32 = 0x4000_0056;
pub const SDLK_KP_PLUS: u32 = 0x4000_0057;
pub const SDLK_KP_COMMA: u32 = 0x4000_0085;
pub const SDLK_KP_PERIOD: u32 = 0x4000_0063;

/// Width of one key picture in the atlas
pub const KEY_ICON_WIDTH: i32 = 22;

/// Height of one key picture in the atlas
pub const KEY_ICON_HEIGHT: i32 = 17;

/// Number of key pictures in the atlas
pub const KEY_ICON_COUNT: usize = 48;

/// The keys pictured in the atlas, left to right
pub open spec fn key_icon_order() -> Seq<u32> {
    seq![
        SDLK_UP, SDLK_RIGHT, SDLK_DOWN, SDLK_LEFT, SDLK_A, SDLK_B, SDLK_C, SDLK_D, SDLK_E, SDLK_F, SDLK_G,
        SDLK_H, SDLK_I, SDLK_J, SDLK_K, SDLK_L, SDLK_M, SDLK_N, SDLK_O, SDLK_P, SDLK_Q, SDLK_R, SDLK_S,
        SDLK_T, SDLK_U, SDLK_V, SDLK_W, SDLK_X, SDLK_Y, SDLK_Z, SDLK_RETURN, SDLK_0, SDLK_1, SDLK_2,
        SDLK_3, SDLK_4, SDLK_5, SDLK_6, SDLK_7, SDLK_8, SDLK_9, SDLK_PLUS, SDLK_MINUS, SDLK_PERIOD,
        SDLK_COMMA, SDLK_LSHIFT, SDLK_LCTRL, SDLK_LALT,
    ]
}

/// The keys pictured in the atlas, left to right
fn key_icon_keys() -> (r: [u32; 48])
    ensures
        r@ == key_icon_order(),
{
    let r = [
        SDLK_UP, SDLK_RIGHT, SDLK_DOWN, SDLK_LEFT, SDLK_A, SDLK_B, SDLK_C, SDLK_D, SDLK_E, SDLK_F, SDLK_G,
        SDLK_H, SDLK_I, SDLK_J, SDLK_K, SDLK_L, SDLK_M, SDLK_N, SDLK_O, SDLK_P, SDLK_Q, SDLK_R, SDLK_S,
        SDLK_T, SDLK_U, SDLK_V, SDLK_W, SDLK_X, SDLK_Y, SDLK_Z, SDLK_RETURN, SDLK_0, SDLK_1, SDLK_2,
        SDLK_3, SDLK_4, SDLK_5, SDLK_6, SDLK_7, SDLK_8, SDLK_9, SDLK_PLUS, SDLK_MINUS, SDLK_PERIOD,
        SDLK_COMMA, SDLK_LSHIFT, SDLK_LCTRL, SDLK_LALT,
    ];
    assert(r@ =~= key_icon_order());
    r
}

/// The key whose picture stands for `key`: right hand modifiers and keypad keys
/// share the pictures of their main keyboard counterparts
pub open spec fn spec_icon_key(key: u32) -> u32 {
    if key == SDLK_RSHIFT {
        SDLK_LSHIFT
    } else if key == SDLK_RCTRL {
        SDLK_LCTRL
    } else if key == SDLK_RALT {
        SDLK_LALT
    } else if key == SDLK_KP_0 {
        SDLK_0
    } else if key == SDLK_KP_1 {
        SDLK_1
    } else if key == SDLK_KP_2 {
        SDLK_2
    } else if key == SDLK_KP_3 {
        SDLK_3
    } else if key == SDLK_KP_4 {
        SDLK_4
    } else if key == SDLK_KP_5 {
        SDLK_5
    } else if key == SDLK_KP_6 {
        SDLK_6
    } else if key == SDLK_KP_7 {
        SDLK_7
    } else if key == SDLK_KP_8 {
        SDLK_8
    } else if key == SDLK_KP_9 {
        SDLK_9
    } else if key == SDLK_KP_MINUS {
        SDLK_MINUS
    } else if key == SDLK_KP_PLUS {
        SDLK_PLUS
    } else if key == SDLK_KP_ENTER {
        SDLK_RETURN
    } else if key == SDLK_KP_COMMA {
        SDLK_COMMA
    } else if key == SDLK_KP_PERIOD {
        SDLK_PERIOD
    } else {
        key
    }
}

/// SDL numbers the right-hand Ctrl, Shift and Alt keys four after their left-hand
/// counterparts, and keypad keys 1 to 9 in a row: a right-hand modifier is pictured
/// by its left-hand counterpart and keypad digit d by the digit key d, the left-hand
/// modifiers and digit keys by themselves, every keypad key by a main keyboard key
/// (whose codes lie below the keypad's), and a picture's key is pictured by itself.
pub proof fn law_icon_counterparts(key: u32, d: u32)
    ensures
        SDLK_LCTRL <= key <= SDLK_LALT ==> spec_icon_key((key + 4) as u32) == key && spec_icon_key(key) == key,
        1 <= d <= 9 ==> spec_icon_key((SDLK_KP_1 + d - 1) as u32) == SDLK_0 + d && spec_icon_key((SDLK_0 + d) as u32)
            == SDLK_0 + d,
        spec_icon_key(SDLK_KP_0) == SDLK_0,
        spec_icon_key(spec_icon_key(key)) == spec_icon_key(key),
        SDLK_KP_MINUS <= key <= SDLK_KP_PERIOD || key == SDLK_KP_COMMA ==> spec_icon_key(key) < 0x4000_0000,
{
}

/// The key whose picture stands for `key`
pub fn icon_key(key: u32) -> (r: u32)
    ensures
        r == spec_icon_key(key),
{
    if key == SDLK_RSHIFT {
        SDLK_LSHIFT
    } else if key == SDLK_RCTRL {
        SDLK_LCTRL
    } else if key == SDLK_RALT {
        SDLK_LALT
    } else if key == SDLK_KP_0 {
        SDLK_0
    } else if key == SDLK_KP_1 {
        SDLK_1
    } else if key == SDLK_KP_2 {
        SDLK_2
    } else if key == SDLK_KP_3 {
        SDLK_3
    } else if key == SDLK_KP_4 {
        SDLK_4
    } else if key == SDLK_KP_5 {
        SDLK_5
    } else if key == SDLK_KP_6 {
        SDLK_6
    } else if key == SDLK_KP_7 {
        SDLK_7
    } else if key == SDLK_KP_8 {
        SDLK_8
    } else if key == SDLK_KP_9 {
        SDLK_9
    } else if key == SDLK_KP_MINUS {
        SDLK_MINUS
    } else if key == SDLK_KP_PLUS {
        SDLK_PLUS
    } else if key == SDLK_KP_ENTER {
        SDLK_RETURN
    } else if key == SDLK_KP_COMMA {
        SDLK_COMMA
    } else if key == SDLK_KP_PERIOD {
        SDLK_PERIOD
    } else {
        key
    }
}

/// The position of the picture of `key` in the key icon atlas, or an empty
/// rectangle for a key that has no picture
pub fn keymap(key: u32) -> (r: Rect)
    ensures
        forall|idx: int|
            0 <= idx < KEY_ICON_COUNT && #[trigger] key_icon_order()[idx] == spec_icon_key(key) ==> r == (Rect {
                x: (idx * KEY_ICON_WIDTH) as i32,
                y: 0,
                w: KEY_ICON_WIDTH,
                h: KEY_ICON_HEIGHT,
            }),
        !key_icon_order().contains(spec_icon_key(key)) ==> r == (Rect { x: 0, y: 0, w: 0, h: 0 }),
{
    let k = icon_key(key);
    let keys = key_icon_keys();
    let mut idx: usize = 0;
    while idx < KEY_ICON_COUNT
        invariant
            keys@ == key_icon_order(),
            k == spec_icon_key(key),
            idx <= KEY_ICON_COUNT,
            forall|j: int| 0 <= j < idx ==> key_icon_order()[j] != k,
        decreases KEY_ICON_COUNT - idx,
    {
        if keys[idx] == k {
            proof {
                lemma_key_icons_distinct();
            }
            return Rect::new(idx as i32 * KEY_ICON_WIDTH, 0, KEY_ICON_WIDTH, KEY_ICON_HEIGHT);
        }
        idx += 1;
    }
    Rect::new(0, 0, 0, 0)
}

/// No key is pictured twice
pub proof fn lemma_key_icons_distinct()
    ensures
        forall|i: int, j: int|
            0 <= i < j < KEY_ICON_COUNT ==> key_icon_order()[i] != key_icon_order()[j],
{
    let s = key_icon_order();
    assert(s.len() == 48);
    assert forall|i: int, j: int| 0 <= i < j < 48 implies s[i] != s[j] by {
    }
}

} // verus!
