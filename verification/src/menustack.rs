//! The stack of scripted menu screens: which screen gets a button, how screens
//! appear and hide when others are pushed on top or taken away, and when a
//! closed screen leaves the stack. The screens' items and actions belong to the
//! caller (they are scripted); so does the progress of their animations.

use crate::controls::MenuButton;
use vstd::prelude::*;

verus! {

/// Where a menu screen is in its life cycle
#[derive(Clone, Copy, Debug, PartialEq, Eq, Structural)]
pub enum ScreenPhase {
    /// Sliding in
    Appearing,
    /// In place
    Normal,
    /// Sliding out
    Hiding,
    /// Gone; a hidden screen on top of the stack is closed
    Hidden,
}

/// What the action of the selected item of a screen asks for
#[derive(Clone, Copy, Debug, PartialEq, Eq, Structural)]
pub enum ScreenAction {
    /// Nothing
    Nothing,
    /// Open a new screen on top of this one
    Push,
    /// Close this screen and go back to the one below
    Pop,
    /// Close the menu with a value
    Return,
    /// Grab the next key pressed for the selected item
    KeyGrab,
}

/// Where a button goes
#[derive(Clone, Copy, Debug, PartialEq, Eq, Structural)]
pub enum ButtonRoute {
    /// The stack has dealt with it
    Handled,
    /// The screen at this position handles it; its action is then given to
    /// [`MenuStack::finish_button`]
    ToScreen(usize),
}

/// What the caller has to do after a screen's action
#[derive(Clone, Copy, Debug, PartialEq, Eq, Structural)]
pub enum ActionOutcome {
    Nothing,
    /// The menu returns the value of the selected item
    Returned,
    /// Key grab mode started: announce it so the next key press is captured
    GrabKey,
}

/// The phase of a screen asked to appear
pub open spec fn appear_of(p: ScreenPhase) -> ScreenPhase {
    match p {
        ScreenPhase::Normal => ScreenPhase::Normal,
        _ => ScreenPhase::Appearing,
    }
}

/// The phase of a screen asked to hide
pub open spec fn hide_of(p: ScreenPhase) -> ScreenPhase {
    match p {
        ScreenPhase::Hidden => ScreenPhase::Hidden,
        _ => ScreenPhase::Hiding,
    }
}

/// Can the screen take buttons?
pub open spec fn takes_buttons(p: ScreenPhase) -> bool {
    p == ScreenPhase::Normal || p == ScreenPhase::Appearing
}

/// The phases after the top screen hides and the one below it (if any) appears
pub open spec fn back_phases(s: Seq<ScreenPhase>) -> Seq<ScreenPhase> {
    let n = s.len() as int;
    let hidden = s.update(n - 1, hide_of(s[n - 1]));
    if n > 1 {
        hidden.update(n - 2, appear_of(s[n - 2]))
    } else {
        hidden
    }
}

/// Where a button goes on a stack with these phases
pub open spec fn route_of(s: Seq<ScreenPhase>, button: MenuButton) -> ButtonRoute {
    if s.len() == 0 || button == MenuButton::Back || !takes_buttons(s.last()) {
        ButtonRoute::Handled
    } else {
        ButtonRoute::ToScreen((s.len() - 1) as usize)
    }
}

/// The phases after a button reaches the stack
pub open spec fn phases_after_button(s: Seq<ScreenPhase>, button: MenuButton) -> Seq<ScreenPhase> {
    if s.len() > 1 && button == MenuButton::Back {
        back_phases(s)
    } else {
        s
    }
}

/// The phases after the top screen's action
pub open spec fn phases_after_action(s: Seq<ScreenPhase>, action: ScreenAction) -> Seq<ScreenPhase> {
    let n = s.len() as int;
    match action {
        ScreenAction::Push => s.update(n - 1, hide_of(s[n - 1])).push(ScreenPhase::Appearing),
        ScreenAction::Pop => back_phases(s),
        ScreenAction::Return => s.update(n - 1, hide_of(s[n - 1])),
        _ => s,
    }
}

/// The phase of a screen whose animation has finished
pub open spec fn settled(p: ScreenPhase) -> ScreenPhase {
    match p {
        ScreenPhase::Appearing => ScreenPhase::Normal,
        ScreenPhase::Hiding => ScreenPhase::Hidden,
        _ => p,
    }
}

/// The stack of menu screens, bottom first, and whether a key is being grabbed
pub struct MenuStack {
    phases: Vec<ScreenPhase>,
    key_grabbing: bool,
}

impl MenuStack {
    /// The phases of the screens, bottom first
    pub closed spec fn view(&self) -> Seq<ScreenPhase> {
        self.phases@
    }

    pub closed spec fn spec_key_grabbing(&self) -> bool {
        self.key_grabbing
    }

    /// No screens
    pub fn new() -> (r: Self)
        ensures
            r@ == Seq::<ScreenPhase>::empty(),
            !r.spec_key_grabbing(),
    {
        MenuStack { phases: Vec::new(), key_grabbing: false }
    }

    /// Start over with just the main screen, appearing
    pub fn reload(&mut self)
        ensures
            final(self)@ == seq![ScreenPhase::Appearing],
            final(self).spec_key_grabbing() == old(self).spec_key_grabbing(),
    {
        self.phases = vec![ScreenPhase::Appearing];
    }

    /// Number of screens
    pub fn len(&self) -> (r: usize)
        ensures
            r == self@.len(),
    {
        self.phases.len()
    }

    /// The phase of screen i
    pub fn phase(&self, i: usize) -> (r: ScreenPhase)
        requires
            i < self@.len(),
        ensures
            r == self@[i as int],
    {
        self.phases[i]
    }

    /// Is a key being grabbed?
    pub fn is_key_grabbing(&self) -> (r: bool)
        ensures
            r == self.spec_key_grabbing(),
    {
        self.key_grabbing
    }

    fn appear_at(&mut self, i: usize)
        requires
            i < old(self)@.len(),
        ensures
            final(self)@ == old(self)@.update(i as int, appear_of(old(self)@[i as int])),
            final(self).spec_key_grabbing() == old(self).spec_key_grabbing(),
    {
        let p = match self.phases[i] {
            ScreenPhase::Normal => ScreenPhase::Normal,
            _ => ScreenPhase::Appearing,
        };
        self.phases.set(i, p);
    }

    fn hide_at(&mut self, i: usize)
        requires
            i < old(self)@.len(),
        ensures
            final(self)@ == old(self)@.update(i as int, hide_of(old(self)@[i as int])),
            final(self).spec_key_grabbing() == old(self).spec_key_grabbing(),
    {
        let p = match self.phases[i] {
            ScreenPhase::Hidden => ScreenPhase::Hidden,
            _ => ScreenPhase::Hiding,
        };
        self.phases.set(i, p);
    }

    /// The top screen hides and the one below it appears
    fn go_back(&mut self)
        requires
            old(self)@.len() >= 1,
        ensures
            final(self)@ == back_phases(old(self)@),
            final(self).spec_key_grabbing() == old(self).spec_key_grabbing(),
    {
        let n = self.phases.len();
        self.hide_at(n - 1);
        if n > 1 {
            self.appear_at(n - 2);
        }
    }

    /// A button reaches the menu. A grabbed key ends key grab mode. Back hides the
    /// top screen and shows the one below (the bottom screen stays); other
    /// buttons go to the top screen if it is in place or appearing.
    pub fn begin_button(&mut self, button: MenuButton) -> (r: ButtonRoute)
        ensures
            r == route_of(old(self)@, button),
            final(self)@ == phases_after_button(old(self)@, button),
            final(self).spec_key_grabbing() == (old(self).spec_key_grabbing() && !(button is GrabbedKey)),
    {
        if let MenuButton::GrabbedKey(_) = button {
            self.key_grabbing = false;
        }
        let n = self.phases.len();
        if n == 0 {
            return ButtonRoute::Handled;
        }
        if let MenuButton::Back = button {
            if n > 1 {
                self.go_back();
            }
            return ButtonRoute::Handled;
        }
        match self.phases[n - 1] {
            ScreenPhase::Normal | ScreenPhase::Appearing => ButtonRoute::ToScreen(n - 1),
            _ => ButtonRoute::Handled,
        }
    }

    /// The top screen's item action: push a new (appearing) screen over it, go
    /// back, close the menu with a value, or start grabbing a key
    pub fn finish_button(&mut self, action: ScreenAction) -> (r: ActionOutcome)
        requires
            old(self)@.len() >= 1,
        ensures
            final(self)@ == phases_after_action(old(self)@, action),
            final(self).spec_key_grabbing() == (old(self).spec_key_grabbing() || action == ScreenAction::KeyGrab),
            r == match action {
                ScreenAction::Return => ActionOutcome::Returned,
                ScreenAction::KeyGrab => ActionOutcome::GrabKey,
                _ => ActionOutcome::Nothing,
            },
    {
        let n = self.phases.len();
        match action {
            ScreenAction::Nothing => ActionOutcome::Nothing,
            ScreenAction::Push => {
                self.hide_at(n - 1);
                self.phases.push(ScreenPhase::Appearing);
                ActionOutcome::Nothing
            },
            ScreenAction::Pop => {
                self.go_back();
                ActionOutcome::Nothing
            },
            ScreenAction::Return => {
                self.hide_at(n - 1);
                ActionOutcome::Returned
            },
            ScreenAction::KeyGrab => {
                self.key_grabbing = true;
                ActionOutcome::GrabKey
            },
        }
    }

    /// Screen i finished its animation: an appearing screen is in place, a
    /// hiding one is gone
    pub fn animation_done(&mut self, i: usize)
        requires
            i < old(self)@.len(),
        ensures
            final(self)@ == old(self)@.update(i as int, settled(old(self)@[i as int])),
            final(self).spec_key_grabbing() == old(self).spec_key_grabbing(),
    {
        let p = match self.phases[i] {
            ScreenPhase::Appearing => ScreenPhase::Normal,
            ScreenPhase::Hiding => ScreenPhase::Hidden,
            other => other,
        };
        self.phases.set(i, p);
    }

    /// Take a closed (hidden) screen off the top of the stack. Returns whether
    /// any screen is left.
    pub fn pop_closed(&mut self) -> (r: bool)
        ensures
            final(self)@ == if old(self)@.len() > 0 && old(self)@.last() == ScreenPhase::Hidden {
                old(self)@.drop_last()
            } else {
                old(self)@
            },
            final(self).spec_key_grabbing() == old(self).spec_key_grabbing(),
            r == (final(self)@.len() > 0),
    {
        let n = self.phases.len();
        if n > 0 && self.phases[n - 1] == ScreenPhase::Hidden {
            self.phases.pop();
        }
        self.phases.len() > 0
    }
}

/// Opening a screen from one in place and going back again shows the first
/// screen again and sends the opened one away
pub proof fn law_push_then_back(s: Seq<ScreenPhase>)
    requires
        s.len() >= 1,
        s.last() == ScreenPhase::Normal,
    ensures
        ({
            let pushed = phases_after_action(s, ScreenAction::Push);
            let back = phases_after_button(pushed, MenuButton::Back);
            &&& back.len() == s.len() + 1
            &&& back[s.len() - 1] == ScreenPhase::Appearing
            &&& back[s.len() as int] == ScreenPhase::Hiding
            &&& forall|i: int| 0 <= i < s.len() - 1 ==> back[i] == s[i]
        }),
{
}

/// Only the top screen ever leaves the stack, and only once it is hidden
pub proof fn law_only_closed_top_leaves(s: Seq<ScreenPhase>)
    ensures
        ({
            let after = if s.len() > 0 && s.last() == ScreenPhase::Hidden {
                s.drop_last()
            } else {
                s
            };
            &&& after.len() >= s.len() - 1
            &&& forall|i: int| 0 <= i < after.len() ==> after[i] == s[i]
            &&& after.len() < s.len() ==> s.last() == ScreenPhase::Hidden
        }),
{
}

} // verus!
