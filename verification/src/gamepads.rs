//! Gamepad slots: controllers after the keyboard ones, kept in a stable order so
//! that a gamepad that is unplugged and plugged back in gets its old slot back.

use crate::controls::KEYBOARDS;
use vstd::prelude::*;

verus! {

/// A gamepad controller slot
#[derive(Clone, Copy, Debug)]
pub struct GamepadSlot {
    /// The device's GUID
    pub guid: [u8; 16],
    /// The joystick instance id of the device last plugged into this slot
    pub joystick_id: u32,
    /// Is a device plugged in?
    pub connected: bool,
}

/// The gamepad slots, in controller order (the first one is controller KEYBOARDS + 1)
pub struct GamepadSlots {
    slots: Vec<GamepadSlot>,
}

/// The controller id (1-based, keyboards first) of gamepad slot i
pub open spec fn slot_controller(i: int) -> int {
    i + KEYBOARDS + 1
}

/// The first unplugged slot at or after slot i that last held a device with this GUID
pub open spec fn reusable_from(slots: Seq<GamepadSlot>, guid: Seq<u8>, i: int) -> Option<int>
    decreases slots.len() - i,
{
    if i < 0 || i >= slots.len() {
        None
    } else if !slots[i].connected && slots[i].guid@ == guid {
        Some(i)
    } else {
        reusable_from(slots, guid, i + 1)
    }
}

/// The first slot at or after slot i that last held the device with this joystick id
pub open spec fn slot_of_from(slots: Seq<GamepadSlot>, id: u32, i: int) -> Option<int>
    decreases slots.len() - i,
{
    if i < 0 || i >= slots.len() {
        None
    } else if slots[i].joystick_id == id {
        Some(i)
    } else {
        slot_of_from(slots, id, i + 1)
    }
}

proof fn lemma_reusable_from(slots: Seq<GamepadSlot>, guid: Seq<u8>, i: int)
    requires
        0 <= i,
    ensures
        reusable_from(slots, guid, i) matches Some(r) ==> i <= r < slots.len() && !slots[r].connected
            && slots[r].guid@ == guid,
    decreases slots.len() - i,
{
    if i < slots.len() {
        lemma_reusable_from(slots, guid, i + 1);
    }
}

proof fn lemma_slot_of_from(slots: Seq<GamepadSlot>, id: u32, i: int)
    requires
        0 <= i,
    ensures
        slot_of_from(slots, id, i) matches Some(r) ==> i <= r < slots.len() && slots[r].joystick_id == id && forall|j: int|
            i <= j < r ==> #[trigger] slots[j].joystick_id != id,
        slot_of_from(slots, id, i) is None ==> forall|j: int| i <= j < slots.len() ==> #[trigger] slots[j].joystick_id != id,
    decreases slots.len() - i,
{
    if i < slots.len() {
        lemma_slot_of_from(slots, id, i + 1);
    }
}

/// Are two GUIDs the same?
fn guid_equal(a: &[u8; 16], b: &[u8; 16]) -> (r: bool)
    ensures
        r == (a@ == b@),
{
    let mut i: usize = 0;
    while i < 16
        invariant
            i <= 16,
            forall|k: int| 0 <= k < i ==> a@[k] == b@[k],
        decreases 16 - i,
    {
        if a[i] != b[i] {
            return false;
        }
        i += 1;
    }
    assert(a@ =~= b@);
    true
}

impl GamepadSlots {
    pub closed spec fn view(&self) -> Seq<GamepadSlot> {
        self.slots@
    }

    /// No gamepad slots yet
    pub fn new() -> (r: Self)
        ensures
            r@ == Seq::<GamepadSlot>::empty(),
    {
        GamepadSlots { slots: Vec::new() }
    }

    pub fn len(&self) -> (r: usize)
        ensures
            r == self@.len(),
    {
        self.slots.len()
    }

    /// The slot with the given index
    pub fn slot(&self, i: usize) -> (r: GamepadSlot)
        requires
            i < self@.len(),
        ensures
            r == self@[i as int],
    {
        self.slots[i]
    }

    /// A gamepad was plugged in. It takes the first unplugged slot that last held a
    /// device with the same GUID, or else a new slot at the end. Returns its
    /// controller id and whether an old slot was reused.
    pub fn connect(&mut self, guid: [u8; 16], joystick_id: u32) -> (r: (i32, bool))
        requires
            old(self)@.len() + KEYBOARDS + 1 <= i32::MAX,
        ensures
            match reusable_from(old(self)@, guid@, 0) {
                Some(i) => {
                    &&& r == (slot_controller(i) as i32, true)
                    &&& final(self)@ == old(self)@.update(i, GamepadSlot { guid, joystick_id, connected: true })
                },
                None => {
                    &&& r == (slot_controller(old(self)@.len() as int) as i32, false)
                    &&& final(self)@ == old(self)@.push(GamepadSlot { guid, joystick_id, connected: true })
                },
            },
    {
        let mut i: usize = 0;
        while i < self.slots.len()
            invariant
                i <= self.slots.len(),
                self.slots@ == old(self).slots@,
                old(self).slots@.len() + KEYBOARDS + 1 <= i32::MAX,
                reusable_from(self.slots@, guid@, 0) == reusable_from(self.slots@, guid@, i as int),
            decreases self.slots.len() - i,
        {
            let s = self.slots[i];
            if !s.connected && guid_equal(&s.guid, &guid) {
                self.slots.set(i, GamepadSlot { guid, joystick_id, connected: true });
                return ((i + KEYBOARDS + 1) as i32, true);
            }
            i += 1;
        }
        self.slots.push(GamepadSlot { guid, joystick_id, connected: true });
        (self.slots.len() as i32 + KEYBOARDS as i32, false)
    }

    /// A gamepad was unplugged: its slot (the first one that last held this joystick
    /// id) is kept, marked unplugged. Returns the slot's controller id, None for an
    /// unknown device.
    pub fn disconnect(&mut self, joystick_id: u32) -> (r: Option<i32>)
        requires
            old(self)@.len() + KEYBOARDS + 1 <= i32::MAX,
        ensures
            match slot_of_from(old(self)@, joystick_id, 0) {
                Some(i) => {
                    &&& r == Some(slot_controller(i) as i32)
                    &&& final(self)@ == old(self)@.update(i, GamepadSlot { connected: false, ..old(self)@[i] })
                },
                None => r is None && final(self)@ == old(self)@,
            },
    {
        proof {
            lemma_slot_of_from(self.slots@, joystick_id, 0);
        }
        match self.slot_index(joystick_id) {
            Some(i) => {
                let s = self.slots[i];
                self.slots.set(i, GamepadSlot { connected: false, ..s });
                Some((i + KEYBOARDS + 1) as i32)
            },
            None => None,
        }
    }

    /// The index of the first slot that last held this joystick id
    fn slot_index(&self, joystick_id: u32) -> (r: Option<usize>)
        ensures
            r matches Some(i) ==> slot_of_from(self@, joystick_id, 0) == Some(i as int) && i < self@.len(),
            r is None ==> slot_of_from(self@, joystick_id, 0) is None,
    {
        let mut i: usize = 0;
        while i < self.slots.len()
            invariant
                i <= self.slots.len(),
                slot_of_from(self.slots@, joystick_id, 0) == slot_of_from(self.slots@, joystick_id, i as int),
            decreases self.slots.len() - i,
        {
            if self.slots[i].joystick_id == joystick_id {
                return Some(i);
            }
            i += 1;
        }
        None
    }

    /// The controller id of the device with this joystick id (the first slot that
    /// last held it), None for an unknown device
    pub fn controller_of(&self, joystick_id: u32) -> (r: Option<i32>)
        requires
            self@.len() + KEYBOARDS + 1 <= i32::MAX,
        ensures
            r == match slot_of_from(self@, joystick_id, 0) {
                Some(i) => Some(slot_controller(i) as i32),
                None => None,
            },
    {
        proof {
            lemma_slot_of_from(self.slots@, joystick_id, 0);
        }
        match self.slot_index(joystick_id) {
            Some(i) => Some((i + KEYBOARDS + 1) as i32),
            None => None,
        }
    }
}

/// A gamepad plugged in with a joystick id no slot has held before is found again
/// under the controller id it was given
pub proof fn law_connected_gamepad_is_found(slots: Seq<GamepadSlot>, guid: [u8; 16], id: u32)
    requires
        forall|j: int| 0 <= j < slots.len() ==> #[trigger] slots[j].joystick_id != id,
    ensures
        ({
            let (after, ctrl) = match reusable_from(slots, guid@, 0) {
                Some(i) => (slots.update(i, GamepadSlot { guid, joystick_id: id, connected: true }), slot_controller(i)),
                None => (slots.push(GamepadSlot { guid, joystick_id: id, connected: true }), slot_controller(slots.len() as int)),
            };
            match slot_of_from(after, id, 0) {
                Some(i) => slot_controller(i) == ctrl && after[i].connected,
                None => false,
            }
        }),
{
    lemma_reusable_from(slots, guid@, 0);
    let (after, slot) = match reusable_from(slots, guid@, 0) {
        Some(i) => (slots.update(i, GamepadSlot { guid, joystick_id: id, connected: true }), i),
        None => (slots.push(GamepadSlot { guid, joystick_id: id, connected: true }), slots.len() as int),
    };
    lemma_slot_of_from(after, id, 0);
    assert(after[slot].joystick_id == id);
    if slot_of_from(after, id, 0) is None {
        assert(after[slot].joystick_id != id);
    }
    let found = slot_of_from(after, id, 0)->0;
    if found < slot {
        assert(after[found] == slots[found]);
    }
    if found > slot {
        assert(after[slot].joystick_id != id);
    }
}

/// Unplugging a gamepad and plugging the same device back in (with a new joystick
/// id) gives it its old controller id, when no other unplugged slot with that GUID
/// comes before it
pub proof fn law_reconnect_keeps_controller(slots: Seq<GamepadSlot>, i: int, new_id: u32)
    requires
        0 <= i < slots.len(),
        slots[i].connected,
        forall|j: int| 0 <= j < i ==> !(!(#[trigger] slots[j]).connected && slots[j].guid@ == slots[i].guid@),
    ensures
        reusable_from(slots.update(i, GamepadSlot { connected: false, ..slots[i] }), slots[i].guid@, 0) == Some(i),
{
    let after = slots.update(i, GamepadSlot { connected: false, ..slots[i] });
    lemma_reusable_prefix(after, slots[i].guid@, 0, i);
}

proof fn lemma_reusable_prefix(slots: Seq<GamepadSlot>, guid: Seq<u8>, k: int, i: int)
    requires
        0 <= k <= i < slots.len(),
        !slots[i].connected && slots[i].guid@ == guid,
        forall|j: int| k <= j < i ==> !(!(#[trigger] slots[j]).connected && slots[j].guid@ == guid),
    ensures
        reusable_from(slots, guid, k) == Some(i),
    decreases i - k,
{
    if k < i {
        lemma_reusable_prefix(slots, guid, k + 1, i);
    }
}

} // verus!
