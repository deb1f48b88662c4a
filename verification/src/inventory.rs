//! The inventory mirror: 45 window slots, the carried (cursor) item, and
//! the selected hotbar index. The hotbar is slots 36..=44; armor is slots
//! 5..=8.

use vstd::prelude::*;

use crate::packets::Item;
use vstd::slice::slice_subrange;

verus! {

/// The player's window-0 inventory.
pub struct Inventory {
    pub slots: Vec<Option<Item>>,
    pub carried: Option<Item>,
    pub main_hand: i8,
}

impl Inventory {
    /// 45 slots and a hotbar index within 0..=8.
    pub open spec fn wf(self) -> bool {
        self.slots@.len() == 45 && 0 <= self.main_hand < 9
    }

    /// All slots empty, nothing carried, first hotbar slot selected.
    pub fn new() -> (inv: Inventory)
        ensures
            inv.wf(),
            forall|i: int| 0 <= i < 45 ==> inv.slots@[i] is None,
            inv.carried is None,
            inv.main_hand == 0,
    {
        let mut slots: Vec<Option<Item>> = Vec::new();
        let mut i: usize = 0;
        while i < 45
            invariant
                i <= 45,
                slots@.len() == i,
                forall|j: int| 0 <= j < i ==> slots@[j] is None,
            decreases 45 - i,
        {
            slots.push(None);
            i = i + 1;
        }
        Inventory { slots, carried: None, main_hand: 0 }
    }

    /// The nine hotbar slots, 36..=44.
    pub fn hotbar(&self) -> (r: &[Option<Item>])
        requires
            self.wf(),
        ensures
            r@ == self.slots@.subrange(36, 45),
    {
        slice_subrange(self.slots.as_slice(), 36, 45)
    }

    /// The four armor slots, 5..=8.
    pub fn armor_slots(&self) -> (r: &[Option<Item>])
        requires
            self.wf(),
        ensures
            r@ == self.slots@.subrange(5, 9),
    {
        slice_subrange(self.slots.as_slice(), 5, 9)
    }

    /// The item under the selected hotbar slot.
    pub fn main_hand(&self) -> (r: Option<Item>)
        requires
            self.wf(),
        ensures
            r == self.slots@[36 + self.main_hand as int],
    {
        self.slots[36 + (self.main_hand as usize)]
    }

    /// Apply a window-0 SetSlot: slot -1 replaces the carried item; a slot
    /// within 0..45 is stored; any other index is dropped without effect
    /// (never a panic).
    pub fn set_slot(&mut self, slot: i16, item: Option<Item>)
        requires
            old(self).wf(),
        ensures
            final(self).wf(),
            final(self).main_hand == old(self).main_hand,
            slot == -1 ==> final(self).carried == item && final(self).slots@ == old(
                self,
            ).slots@,
            0 <= slot < 45 ==> final(self).slots@ == old(self).slots@.update(slot as int, item)
                && final(self).carried == old(self).carried,
            !(slot == -1 || 0 <= slot < 45) ==> *final(self) == *old(self),
    {
        if slot == -1 {
            self.carried = item;
        } else if 0 <= slot && slot < 45 {
            self.slots.set(slot as usize, item);
        }
    }

    /// Update one armor slot (0..4, mapping to window slots 5..=8); an
    /// index out of range is dropped without effect (never a panic).
    pub fn set_armor_slot(&mut self, idx: i16, item: Option<Item>)
        requires
            old(self).wf(),
        ensures
            final(self).wf(),
            final(self).main_hand == old(self).main_hand,
            final(self).carried == old(self).carried,
            0 <= idx < 4 ==> final(self).slots@ == old(self).slots@.update(5 + idx as int, item),
            !(0 <= idx < 4) ==> *final(self) == *old(self),
    {
        if 0 <= idx && idx < 4 {
            self.slots.set(5 + (idx as usize), item);
        }
    }
}

} // verus!
