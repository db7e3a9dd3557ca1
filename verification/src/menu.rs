//! Menu logic: which item the cursor is on, what selecting an item does and the
//! appear/disappear state machine. Item ids are small integers chosen by the
//! caller; drawing and animation are left to the caller.

use crate::controls::MenuButton;
use vstd::prelude::*;

verus! {

/// The value attached to a menu line
#[derive(Clone, Copy, Debug, PartialEq, Eq, Structural)]
pub enum MenuValue {
    /// No value (headings, spacers and value lines not yet assigned)
    NoValue,
    /// Selecting the line returns its id
    Return,
    /// A yes/no setting
    Toggle(bool),
    /// A key binding; selecting the line starts grabbing a key
    KeyGrab(u32),
}

/// Where a menu is in its life cycle
#[derive(Clone, Copy, Debug, PartialEq, Eq, Structural)]
pub enum MenuState {
    Appearing,
    Normal,
    Disappearing,
    Disappeared,
}

/// One line of a menu. Lines with an id can be selected.
#[derive(Clone, Copy, Debug, PartialEq, Eq, Structural)]
pub struct MenuLine {
    pub id: Option<usize>,
    pub value: MenuValue,
}

/// What handling a menu button asks of the caller
#[derive(Clone, Copy, Debug, PartialEq, Eq, Structural)]
pub struct MenuAction {
    /// The id the menu returns, if any
    pub chosen: Option<usize>,
    /// A key grab started: the caller announces it so the next key press is captured
    pub grab_key: bool,
}

/// The logic of a menu
pub struct MenuModel {
    items: Vec<MenuLine>,
    current: usize,
    state: MenuState,
    key_grabbing: bool,
    escape: Option<usize>,
}

/// Can line i be selected?
pub open spec fn selectable(items: Seq<MenuLine>, i: int) -> bool {
    items[i].id is Some
}

/// Does the menu have a selectable line?
pub open spec fn has_selectable(items: Seq<MenuLine>) -> bool {
    exists|i: int| 0 <= i < items.len() && #[trigger] selectable(items, i)
}

/// Steps needed to move the cursor down (wrapping around) from line c to line t:
/// between 1 and n, n meaning all the way around
pub open spec fn dist_down(n: int, c: int, t: int) -> int {
    if t > c {
        t - c
    } else {
        t - c + n
    }
}

/// Steps needed to move the cursor up (wrapping around) from line c to line t
pub open spec fn dist_up(n: int, c: int, t: int) -> int {
    if t < c {
        c - t
    } else {
        c - t + n
    }
}

/// Line r is the first selectable line reached going down from line c
pub open spec fn is_next_down(items: Seq<MenuLine>, c: int, r: int) -> bool {
    &&& 0 <= r < items.len()
    &&& selectable(items, r)
    &&& forall|t: int|
        0 <= t < items.len() && #[trigger] selectable(items, t) ==> dist_down(items.len() as int, c, r) <= dist_down(
            items.len() as int,
            c,
            t,
        )
}

/// Line r is the first selectable line reached going up from line c
pub open spec fn is_next_up(items: Seq<MenuLine>, c: int, r: int) -> bool {
    &&& 0 <= r < items.len()
    &&& selectable(items, r)
    &&& forall|t: int|
        0 <= t < items.len() && #[trigger] selectable(items, t) ==> dist_up(items.len() as int, c, r) <= dist_up(
            items.len() as int,
            c,
            t,
        )
}

/// The first line with the given id at or after line i, if any
pub open spec fn line_of_from(items: Seq<MenuLine>, id: usize, i: int) -> Option<int>
    decreases items.len() - i,
{
    if i < 0 || i >= items.len() {
        None
    } else if items[i].id == Some(id) {
        Some(i)
    } else {
        line_of_from(items, id, i + 1)
    }
}

/// The first line with the given id, if any
pub open spec fn line_of(items: Seq<MenuLine>, id: usize) -> Option<int> {
    line_of_from(items, id, 0)
}

proof fn lemma_line_of_from(items: Seq<MenuLine>, id: usize, i: int)
    requires
        0 <= i,
    ensures
        line_of_from(items, id, i) matches Some(r) ==> i <= r < items.len() && items[r].id == Some(id) && forall|j: int|
            i <= j < r ==> #[trigger] items[j].id != Some(id),
        line_of_from(items, id, i) is None ==> forall|j: int| i <= j < items.len() ==> #[trigger] items[j].id != Some(id),
    decreases items.len() - i,
{
    if i < items.len() {
        lemma_line_of_from(items, id, i + 1);
    }
}

/// The line `line_of` finds is the first line with that id
pub proof fn lemma_line_of(items: Seq<MenuLine>, id: usize)
    ensures
        line_of(items, id) matches Some(i) ==> 0 <= i < items.len() && items[i].id == Some(id) && forall|j: int|
            0 <= j < i ==> #[trigger] items[j].id != Some(id),
        line_of(items, id) is None ==> forall|i: int| 0 <= i < items.len() ==> #[trigger] items[i].id != Some(id),
{
    lemma_line_of_from(items, id, 0);
}

/// The state a menu moves on to once its lines are in place
pub open spec fn next_state(s: MenuState) -> MenuState {
    match s {
        MenuState::Appearing => MenuState::Normal,
        MenuState::Disappearing => MenuState::Disappeared,
        x => x,
    }
}

/// Moving the cursor down from a selectable line and then back up returns to it
pub proof fn law_down_then_up(items: Seq<MenuLine>, c: int, r: int)
    requires
        0 <= c < items.len(),
        selectable(items, c),
        is_next_down(items, c, r),
    ensures
        is_next_up(items, r, c),
{
    let n = items.len() as int;
    assert forall|t: int| 0 <= t < n && #[trigger] selectable(items, t) implies dist_up(n, r, c) <= dist_up(n, r, t) by {
        if dist_up(n, r, t) < dist_up(n, r, c) {
            // t lies strictly between c and r going down, yet is selectable
            assert(dist_down(n, c, t) < dist_down(n, c, r));
        }
    }
}

/// Moving the cursor up from a selectable line and then back down returns to it
pub proof fn law_up_then_down(items: Seq<MenuLine>, c: int, r: int)
    requires
        0 <= c < items.len(),
        selectable(items, c),
        is_next_up(items, c, r),
    ensures
        is_next_down(items, r, c),
{
    let n = items.len() as int;
    assert forall|t: int| 0 <= t < n && #[trigger] selectable(items, t) implies dist_down(n, r, c) <= dist_down(n, r, t) by {
        if dist_down(n, r, t) < dist_down(n, r, c) {
            assert(dist_up(n, c, t) < dist_up(n, c, r));
        }
    }
}

/// The next line down is unique
pub proof fn law_next_down_unique(items: Seq<MenuLine>, c: int, r1: int, r2: int)
    requires
        0 <= c < items.len(),
        is_next_down(items, c, r1),
        is_next_down(items, c, r2),
    ensures
        r1 == r2,
{
    assert(dist_down(items.len() as int, c, r1) <= dist_down(items.len() as int, c, r2));
    assert(dist_down(items.len() as int, c, r2) <= dist_down(items.len() as int, c, r1));
}

impl MenuModel {
    pub closed spec fn spec_items(&self) -> Seq<MenuLine> {
        self.items@
    }

    pub closed spec fn spec_current(&self) -> int {
        self.current as int
    }

    pub closed spec fn spec_state(&self) -> MenuState {
        self.state
    }

    pub closed spec fn spec_key_grabbing(&self) -> bool {
        self.key_grabbing
    }

    pub closed spec fn spec_escape(&self) -> Option<usize> {
        self.escape
    }

    /// The cursor is on a line of the menu
    pub open spec fn wf(&self) -> bool {
        0 <= self.spec_current() < self.spec_items().len()
    }

    /// A menu with the given lines; `escape` is what the back button returns.
    /// It starts out disappeared with the cursor on the first line.
    pub fn new(items: Vec<MenuLine>, escape: Option<usize>) -> (r: Self)
        requires
            items.len() >= 1,
        ensures
            r.wf(),
            r.spec_items() == items@,
            r.spec_current() == 0,
            r.spec_state() == MenuState::Disappeared,
            !r.spec_key_grabbing(),
            r.spec_escape() == escape,
    {
        MenuModel { items, current: 0, state: MenuState::Disappeared, key_grabbing: false, escape }
    }

    pub fn state(&self) -> (r: MenuState)
        ensures
            r == self.spec_state(),
    {
        self.state
    }

    pub fn current(&self) -> (r: usize)
        ensures
            r == self.spec_current(),
    {
        self.current
    }

    pub fn is_key_grabbing(&self) -> (r: bool)
        ensures
            r == self.spec_key_grabbing(),
    {
        self.key_grabbing
    }

    /// The index of the first line with the given id
    fn find_line(&self, id: usize) -> (r: Option<usize>)
        ensures
            r matches Some(i) ==> line_of(self.spec_items(), id) == Some(i as int) && i < self.spec_items().len(),
            r is None ==> line_of(self.spec_items(), id) is None,
    {
        let mut i: usize = 0;
        while i < self.items.len()
            invariant
                i <= self.items.len(),
                line_of(self.items@, id) == line_of_from(self.items@, id, i as int),
            decreases self.items.len() - i,
        {
            if let Some(x) = self.items[i].id {
                if x == id {
                    return Some(i);
                }
            }
            i += 1;
        }
        None
    }

    /// Set the value of the first line with the given id (no change if there is none)
    pub fn set_value(&mut self, id: usize, value: MenuValue)
        requires
            old(self).wf(),
        ensures
            final(self).wf(),
            final(self).spec_current() == old(self).spec_current(),
            final(self).spec_state() == old(self).spec_state(),
            final(self).spec_key_grabbing() == old(self).spec_key_grabbing(),
            final(self).spec_escape() == old(self).spec_escape(),
            final(self).spec_items() == match line_of(old(self).spec_items(), id) {
                Some(i) => old(self).spec_items().update(i, MenuLine { id: Some(id), value }),
                None => old(self).spec_items(),
            },
    {
        match self.find_line(id) {
            Some(i) => {
                self.items.set(i, MenuLine { id: Some(id), value });
            },
            None => {},
        }
    }

    /// The value of the first line with the given id
    pub fn get_value(&self, id: usize) -> (r: MenuValue)
        requires
            line_of(self.spec_items(), id) is Some,
        ensures
            r == self.spec_items()[line_of(self.spec_items(), id)->0].value,
    {
        proof {
            lemma_line_of(self.spec_items(), id);
        }
        match self.find_line(id) {
            Some(i) => self.items[i].value,
            None => MenuValue::NoValue,
        }
    }

    /// The setting of the toggle line with the given id
    pub fn get_toggle_value(&self, id: usize) -> (r: bool)
        requires
            line_of(self.spec_items(), id) is Some,
            self.spec_items()[line_of(self.spec_items(), id)->0].value is Toggle,
        ensures
            self.spec_items()[line_of(self.spec_items(), id)->0].value == MenuValue::Toggle(r),
    {
        match self.get_value(id) {
            MenuValue::Toggle(v) => v,
            _ => false,
        }
    }

    /// The key bound on the key grab line with the given id
    pub fn get_keygrab_value(&self, id: usize) -> (r: u32)
        requires
            line_of(self.spec_items(), id) is Some,
            self.spec_items()[line_of(self.spec_items(), id)->0].value is KeyGrab,
        ensures
            self.spec_items()[line_of(self.spec_items(), id)->0].value == MenuValue::KeyGrab(r),
    {
        match self.get_value(id) {
            MenuValue::KeyGrab(k) => k,
            _ => 0,
        }
    }

    /// Start appearing, with the cursor on the first selectable line
    pub fn appear(&mut self)
        requires
            old(self).wf(),
            has_selectable(old(self).spec_items()),
        ensures
            final(self).wf(),
            final(self).spec_state() == MenuState::Appearing,
            final(self).spec_items() == old(self).spec_items(),
            final(self).spec_key_grabbing() == old(self).spec_key_grabbing(),
            final(self).spec_escape() == old(self).spec_escape(),
            selectable(final(self).spec_items(), final(self).spec_current()),
            forall|j: int| 0 <= j < final(self).spec_current() ==> !#[trigger] selectable(final(self).spec_items(), j),
    {
        self.state = MenuState::Appearing;
        let mut i: usize = 0;
        while i < self.items.len()
            invariant
                i <= self.items.len(),
                self.items@ == old(self).items@,
                self.state == MenuState::Appearing,
                self.key_grabbing == old(self).key_grabbing,
                self.escape == old(self).escape,
                has_selectable(self.items@),
                forall|j: int| 0 <= j < i ==> !#[trigger] selectable(self.items@, j),
            decreases self.items.len() - i,
        {
            if self.items[i].id.is_some() {
                self.current = i;
                return;
            }
            i += 1;
        }
        proof {
            let w = choose|w: int| 0 <= w < self.items@.len() && #[trigger] selectable(self.items@, w);
            assert(!selectable(self.items@, w));
        }
    }

    /// Start disappearing
    pub fn disappear(&mut self)
        requires
            old(self).wf(),
        ensures
            final(self).wf(),
            final(self).spec_state() == MenuState::Disappearing,
            final(self).spec_items() == old(self).spec_items(),
            final(self).spec_current() == old(self).spec_current(),
            final(self).spec_key_grabbing() == old(self).spec_key_grabbing(),
            final(self).spec_escape() == old(self).spec_escape(),
    {
        self.state = MenuState::Disappearing;
    }

    /// Move the cursor down to the next selectable line, wrapping around
    fn cursor_down(&mut self)
        requires
            old(self).wf(),
            has_selectable(old(self).spec_items()),
        ensures
            final(self).wf(),
            final(self).spec_items() == old(self).spec_items(),
            final(self).spec_state() == old(self).spec_state(),
            final(self).spec_key_grabbing() == old(self).spec_key_grabbing(),
            final(self).spec_escape() == old(self).spec_escape(),
            is_next_down(old(self).spec_items(), old(self).spec_current(), final(self).spec_current()),
    {
        let n = self.items.len();
        let c0 = self.current;
        let ghost mut k: int = 0;
        loop
            invariant_except_break
                0 <= k < n,
                k == 0 ==> self.current == c0,
                k > 0 ==> dist_down(n as int, c0 as int, self.current as int) == k,
                // the lines passed so far cannot be selected
                forall|t: int| 0 <= t < n && dist_down(n as int, c0 as int, t) <= k ==> !#[trigger] selectable(self.items@, t),
            invariant
                n == self.items.len(),
                self.items@ == old(self).items@,
                self.state == old(self).state,
                self.key_grabbing == old(self).key_grabbing,
                self.escape == old(self).escape,
                c0 == old(self).current,
                c0 < n,
                self.current < n,
                has_selectable(self.items@),
            ensures
                is_next_down(self.items@, c0 as int, self.current as int),
            decreases n - k,
        {
            if self.current == n - 1 {
                self.current = 0;
            } else {
                self.current += 1;
            }
            proof {
                k = k + 1;
            }
            if self.items[self.current].id.is_some() {
                break;
            }
            proof {
                if k == n {
                    let w = choose|w: int| 0 <= w < n && #[trigger] selectable(self.items@, w);
                    assert(dist_down(n as int, c0 as int, w) <= k);
                }
            }
        }
    }

    /// Move the cursor up to the previous selectable line, wrapping around
    fn cursor_up(&mut self)
        requires
            old(self).wf(),
            has_selectable(old(self).spec_items()),
        ensures
            final(self).wf(),
            final(self).spec_items() == old(self).spec_items(),
            final(self).spec_state() == old(self).spec_state(),
            final(self).spec_key_grabbing() == old(self).spec_key_grabbing(),
            final(self).spec_escape() == old(self).spec_escape(),
            is_next_up(old(self).spec_items(), old(self).spec_current(), final(self).spec_current()),
    {
        let n = self.items.len();
        let c0 = self.current;
        let ghost mut k: int = 0;
        loop
            invariant_except_break
                0 <= k < n,
                k == 0 ==> self.current == c0,
                k > 0 ==> dist_up(n as int, c0 as int, self.current as int) == k,
                forall|t: int| 0 <= t < n && dist_up(n as int, c0 as int, t) <= k ==> !#[trigger] selectable(self.items@, t),
            invariant
                n == self.items.len(),
                self.items@ == old(self).items@,
                self.state == old(self).state,
                self.key_grabbing == old(self).key_grabbing,
                self.escape == old(self).escape,
                c0 == old(self).current,
                c0 < n,
                self.current < n,
                has_selectable(self.items@),
            ensures
                is_next_up(self.items@, c0 as int, self.current as int),
            decreases n - k,
        {
            if self.current == 0 {
                self.current = n - 1;
            } else {
                self.current -= 1;
            }
            proof {
                k = k + 1;
            }
            if self.items[self.current].id.is_some() {
                break;
            }
            proof {
                if k == n {
                    let w = choose|w: int| 0 <= w < n && #[trigger] selectable(self.items@, w);
                    assert(dist_up(n as int, c0 as int, w) <= k);
                }
            }
        }
    }

    /// Handle a menu button press.
    ///
    /// Up and down move the cursor to the previous or next selectable line,
    /// wrapping around. Start and select act on the line under the cursor: a
    /// returning line returns its id, a toggle flips, a key binding line starts
    /// grabbing a key. Back returns the escape id.
    pub fn handle_button(&mut self, button: MenuButton) -> (r: MenuAction)
        requires
            old(self).wf(),
            has_selectable(old(self).spec_items()),
        ensures
            final(self).wf(),
            final(self).spec_state() == old(self).spec_state(),
            final(self).spec_escape() == old(self).spec_escape(),
            button is Up ==> is_next_up(old(self).spec_items(), old(self).spec_current(), final(self).spec_current()),
            button is Down ==> is_next_down(old(self).spec_items(), old(self).spec_current(), final(self).spec_current()),
            !(button is Up || button is Down) ==> final(self).spec_current() == old(self).spec_current(),
            ({
                let line = old(self).spec_items()[old(self).spec_current()];
                let pressed = button is Start || button is Select;
                &&& final(self).spec_items() == if pressed && line.value is Toggle {
                    old(self).spec_items().update(
                        old(self).spec_current(),
                        MenuLine { id: line.id, value: MenuValue::Toggle(!line.value->Toggle_0) },
                    )
                } else {
                    old(self).spec_items()
                }
                &&& final(self).spec_key_grabbing() == (old(self).spec_key_grabbing() || (pressed && line.value is KeyGrab))
                &&& r.grab_key == (pressed && line.value is KeyGrab)
                &&& r.chosen == if pressed && line.value is Return {
                    line.id
                } else if button is Back {
                    old(self).spec_escape()
                } else {
                    None
                }
            }),
    {
        let mut action = MenuAction { chosen: None, grab_key: false };
        match button {
            MenuButton::Up(_) => {
                self.cursor_up();
            },
            MenuButton::Down(_) => {
                self.cursor_down();
            },
            MenuButton::Start | MenuButton::Select(_) => {
                let line = self.items[self.current];
                match line.value {
                    MenuValue::NoValue => {},
                    MenuValue::Return => {
                        action.chosen = line.id;
                    },
                    MenuValue::Toggle(val) => {
                        self.items.set(self.current, MenuLine { id: line.id, value: MenuValue::Toggle(!val) });
                    },
                    MenuValue::KeyGrab(_) => {
                        self.key_grabbing = true;
                        action.grab_key = true;
                    },
                }
            },
            MenuButton::Back => {
                action.chosen = self.escape;
            },
            _ => {},
        }
        action
    }

    /// A key was captured: end the key grab and bind the key on the line under
    /// the cursor. Nothing happens when no key grab is going on or no key came.
    pub fn key_grabbed(&mut self, key: u32)
        requires
            old(self).wf(),
        ensures
            final(self).wf(),
            final(self).spec_current() == old(self).spec_current(),
            final(self).spec_state() == old(self).spec_state(),
            final(self).spec_escape() == old(self).spec_escape(),
            (old(self).spec_key_grabbing() && key != 0) ==> {
                &&& !final(self).spec_key_grabbing()
                &&& final(self).spec_items() == old(self).spec_items().update(
                    old(self).spec_current(),
                    MenuLine { id: old(self).spec_items()[old(self).spec_current()].id, value: MenuValue::KeyGrab(key) },
                )
            },
            !(old(self).spec_key_grabbing() && key != 0) ==> final(self).spec_items() == old(self).spec_items()
                && final(self).spec_key_grabbing() == old(self).spec_key_grabbing(),
    {
        if self.key_grabbing && key != 0 {
            self.key_grabbing = false;
            let id = self.items[self.current].id;
            self.items.set(self.current, MenuLine { id, value: MenuValue::KeyGrab(key) });
        }
    }

    /// The lines have finished moving: an appearing menu is now shown and a
    /// disappearing one is gone
    pub fn animation_done(&mut self, all_in_position: bool)
        requires
            old(self).wf(),
        ensures
            final(self).wf(),
            final(self).spec_items() == old(self).spec_items(),
            final(self).spec_current() == old(self).spec_current(),
            final(self).spec_key_grabbing() == old(self).spec_key_grabbing(),
            final(self).spec_escape() == old(self).spec_escape(),
            final(self).spec_state() == if all_in_position {
                next_state(old(self).spec_state())
            } else {
                old(self).spec_state()
            },
    {
        if all_in_position {
            self.state = match self.state {
                MenuState::Appearing => MenuState::Normal,
                MenuState::Disappearing => MenuState::Disappeared,
                x => x,
            };
        }
    }

}

} // verus!
