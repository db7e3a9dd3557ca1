//! User settings: video and game options and the keyboard players' key bindings.

use crate::controls::{MappedKey, PlayerKeymap, default_keymap, unwrap_keymap, KEYBOARDS};
use vstd::prelude::*;

verus! {

/// Video settings
#[derive(Clone, Copy, Debug, PartialEq, Eq, Structural)]
pub struct VideoConfig {
    pub fullscreen: bool,
}

impl Default for VideoConfig {
    fn default() -> (r: Self)
        ensures
            !r.fullscreen,
    {
        VideoConfig { fullscreen: false }
    }
}

/// The value of a game option that the settings file leaves out
pub fn default_true() -> (r: bool)
    ensures
        r,
{
    true
}

/// Game rule settings
#[derive(Clone, Copy, Debug, PartialEq, Eq, Structural)]
pub struct GameOptions {
    /// Show the minimap
    pub minimap: bool,
    /// Destroyed bases grow back
    pub baseregen: bool,
}

impl Default for GameOptions {
    fn default() -> (r: Self)
        ensures
            r.minimap,
            r.baseregen,
    {
        GameOptions { minimap: default_true(), baseregen: default_true() }
    }
}

/// Everything the settings file holds
#[derive(Clone, Copy, Debug, PartialEq, Eq, Structural)]
pub struct UserConfig {
    pub video: VideoConfig,
    pub game: GameOptions,
    pub keymap1: Option<PlayerKeymap>,
    pub keymap2: Option<PlayerKeymap>,
    pub keymap3: Option<PlayerKeymap>,
    pub keymap4: Option<PlayerKeymap>,
}

impl Default for UserConfig {
    fn default() -> (r: Self)
        ensures
            !r.video.fullscreen,
            r.game.minimap,
            r.game.baseregen,
            r.keymap1 is None,
            r.keymap2 is None,
            r.keymap3 is None,
            r.keymap4 is None,
    {
        UserConfig {
            video: VideoConfig::default(),
            game: GameOptions::default(),
            keymap1: None,
            keymap2: None,
            keymap3: None,
            keymap4: None,
        }
    }
}

impl UserConfig {
    /// The configured keymap of keyboard slot i (0-3), if any
    pub open spec fn spec_slot(&self, i: int) -> Option<PlayerKeymap> {
        if i == 0 {
            self.keymap1
        } else if i == 1 {
            self.keymap2
        } else if i == 2 {
            self.keymap3
        } else {
            self.keymap4
        }
    }

    /// The configured keymaps of the four keyboard slots
    pub fn keymaps(&self) -> (r: [Option<PlayerKeymap>; 4])
        ensures
            forall|i: int| 0 <= i < KEYBOARDS ==> #[trigger] r@[i] == self.spec_slot(i),
    {
        [self.keymap1, self.keymap2, self.keymap3, self.keymap4]
    }

    /// The keys keyboard player `controller` (1-4) uses: the configured keymap,
    /// else the built-in one
    pub fn keymap_for(&self, controller: i32) -> (r: PlayerKeymap)
        requires
            1 <= controller <= 4,
        ensures
            r == unwrap_keymap(self.spec_slot(controller - 1), controller - 1),
    {
        let slot = match controller {
            1 => self.keymap1,
            2 => self.keymap2,
            3 => self.keymap3,
            _ => self.keymap4,
        };
        match slot {
            Some(km) => km,
            None => default_keymap((controller - 1) as usize),
        }
    }
}

/// The key bound to an action in a keymap
pub open spec fn spec_action_key(km: PlayerKeymap, button: MappedKey) -> u32 {
    match button {
        MappedKey::Up => km.thrust,
        MappedKey::Right => km.right,
        MappedKey::Down => km.down,
        MappedKey::Left => km.left,
        MappedKey::Fire1 => km.fire1,
        MappedKey::Fire2 => km.fire2,
        MappedKey::Fire3 => km.fire3,
    }
}

/// The key bound to an action in a keymap
pub fn action_key(km: &PlayerKeymap, button: MappedKey) -> (r: u32)
    ensures
        r == spec_action_key(*km, button),
{
    match button {
        MappedKey::Up => km.thrust,
        MappedKey::Right => km.right,
        MappedKey::Down => km.down,
        MappedKey::Left => km.left,
        MappedKey::Fire1 => km.fire1,
        MappedKey::Fire2 => km.fire2,
        MappedKey::Fire3 => km.fire3,
    }
}

/// The keys pictured on a keyboard player's controller icon: thrust, left and right
pub fn controller_icon_keys(config: &UserConfig, controller: i32) -> (r: (u32, u32, u32))
    requires
        1 <= controller <= 4,
    ensures
        ({
            let km = unwrap_keymap(config.spec_slot(controller - 1), controller - 1);
            r == (km.thrust, km.left, km.right)
        }),
{
    let km = config.keymap_for(controller);
    (km.thrust, km.left, km.right)
}

/// The key pictured on a keyboard player's icon for one action
pub fn button_icon_key(config: &UserConfig, controller: i32, button: MappedKey) -> (r: u32)
    requires
        1 <= controller <= 4,
    ensures
        r == spec_action_key(unwrap_keymap(config.spec_slot(controller - 1), controller - 1), button),
{
    let km = config.keymap_for(controller);
    action_key(&km, button)
}

} // verus!
