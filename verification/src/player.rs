//! Players of a game and the configuration a game is started with.

use crate::controls::PlayerId;
use crate::geometry::Rect;
use vstd::prelude::*;

verus! {

/// A player taking part in a game
#[derive(Clone, Debug)]
pub struct Player {
    /// Controller id
    pub controller: i32,
    /// Ship name passed to the game's init script
    pub ship: String,
    /// Special weapon name passed to the game's init script
    pub weapon: String,
    /// Number of rounds won by this player
    pub wins: i32,
    /// Viewport on screen
    pub viewport: Rect,
}

impl Player {
    /// A player using the given controller, with no ship or weapon chosen yet,
    /// no wins and a one pixel viewport
    pub fn new(controller: i32) -> (r: Self)
        ensures
            r.controller == controller,
            r.ship@ == Seq::<char>::empty(),
            r.weapon@ == Seq::<char>::empty(),
            r.wins == 0,
            r.viewport == (Rect { x: 0, y: 0, w: 1, h: 1 }),
    {
        Player { controller, ship: String::new(), weapon: String::new(), wins: 0, viewport: Rect::new(0, 0, 1, 1) }
    }
}

/// How a game is set up
#[derive(Clone, Debug)]
pub struct GameInitConfig {
    /// Name of the level
    pub level: String,
    /// Number of rounds to play
    pub rounds: Option<i32>,
    /// Is the game over?
    pub gameover: Option<bool>,
    /// The players
    pub players: Vec<Player>,
    /// The winners of the game so far
    pub winners: Vec<PlayerId>,
}

} // verus!
