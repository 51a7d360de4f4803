//! Slot-based inventories: a sequence of slots, each empty or holding one stack.

use crate::item::{ItemDefinition, ItemDefinitions, ItemInstance, SlotType};
use crate::slots::{
    all_stocked, first_hole, has_key, holds_key, lemma_first_hole_by_shape, lemma_first_hole_is,
    lemma_first_match_is, lemma_rest_stays_empty, lemma_slots_with_stacks_len,
    lemma_total_prefix, lemma_total_removal, lemma_total_take, lemma_total_update,
    lemma_total_push, lemma_total_without_key, pour_decided, pour_fits, pour_fits_at,
    rest_after, shares_no_key_at,
    slot_poured, slots_after_delete,
    slots_after_drain, slots_after_pour, slots_after_removal, slots_after_store,
    slots_poured, slots_with_stacks, stacks_of,
    total_quantity,
};
use std::fmt::Debug;
use std::hash::Hash;
use vstd::prelude::*;
use vstd::std_specs::cmp::PartialEqSpec;
use vstd::std_specs::hash::obeys_key_model;

verus! {

/// The way the inventory size is handled.
#[derive(Clone, Debug)]
pub enum InventorySizingMode {
    /// The inventory always has exactly `size` slots.
    Fixed {
        /// The size of the inventory.
        size: usize,
    },
    /// The inventory grows when stacks are inserted.
    /// Slot restrictions are ignored in this mode.
    Dynamic {
        /// The minimum size of the dynamic inventory.
        min_size: usize,
        /// The maximum size of the dynamic inventory.
        max_size: usize,
    },
}

/// The way a slot is vacated: whether a hole is left behind, and if not, how it is filled.
#[derive(Clone, Debug)]
pub enum MoveToFrontMode {
    /// The slot is cleared in place and stays where it is.
    Off,
    /// The content of the last slot is moved into the vacated slot.
    TakeLast,
    /// Every slot after the vacated one moves one position towards the front.
    Offset,
}

impl InventorySizingMode {
    /// The mode of an inventory that always has exactly `size` slots.
    pub fn new_fixed(size: usize) -> (mode: Self)
        ensures
            mode == (InventorySizingMode::Fixed { size }),
    {
        InventorySizingMode::Fixed { size }
    }

    /// The mode of an inventory that grows from `min_size` up to `max_size` slots.
    pub fn new_dynamic(min_size: usize, max_size: usize) -> (mode: Self)
        ensures
            mode == (InventorySizingMode::Dynamic { min_size, max_size }),
    {
        InventorySizingMode::Dynamic { min_size, max_size }
    }
}

impl MoveToFrontMode {
    /// The mode that leaves a vacated slot where it is.
    pub fn new_off() -> (mode: Self)
        ensures
            mode == MoveToFrontMode::Off,
    {
        MoveToFrontMode::Off
    }

    /// The mode that fills a vacated slot with the content of the last one.
    pub fn new_take_last() -> (mode: Self)
        ensures
            mode == MoveToFrontMode::TakeLast,
    {
        MoveToFrontMode::TakeLast
    }

    /// The mode that moves the slots after a vacated one towards the front.
    pub fn new_offset() -> (mode: Self)
        ensures
            mode == MoveToFrontMode::Offset,
    {
        MoveToFrontMode::Offset
    }
}

/// The different errors that can happen when interacting with an `Inventory`.
#[derive(Debug)]
pub enum ItemError<K: PartialEq + Debug, U: Default> {
    /// The stack doesn't fit completely inside of the slot.
    StackOverflow(ItemInstance<K, U>),
    /// The inventory is full and cannot be resized anymore.
    InventoryFull,
    /// The inventory cannot fit the specified items inside of itself.
    InventoryOverflow(Vec<ItemInstance<K, U>>),
    /// The item was used while its durability was 0. Carries the stack that broke.
    ItemDestroyed(ItemInstance<K, U>),
    /// The last item of the stack was consumed. Carries what was taken out of the slot.
    StackConsumed(ItemInstance<K, U>),
    /// The slot already has something inside of it.
    SlotOccupied,
    /// The specified item cannot be inserted into this type of slot.
    SlotRestricted,
    /// The origin slot is locked. The item cannot be moved or inserted.
    LockedOriginSlot,
    /// The remote slot is locked. The item cannot be moved or inserted.
    LockedRemoteSlot,
    /// The slot at the specified index is empty or does not exist.
    SlotEmpty,
    /// There is not enough of the specified item to satisfy the query.
    NotEnoughQuantity,
}

/// An ordered sequence of slots holding item stacks.
///
/// # Generics
/// - K: Item key
/// - S: Type of inventory location
/// - U: Custom item data
#[derive(Clone, Debug)]
pub struct Inventory<K, S: SlotType, U: Default> {
    /// The slots. `None` is an empty but existing slot.
    pub content: Vec<Option<ItemInstance<K, U>>>,
    /// Restricts what kind of item can go in each slot, by index.
    /// `None` means that the slot is unrestricted.
    /// Only meaningful together with `InventorySizingMode::Fixed`.
    pub slot_restriction: Vec<Option<S>>,
    /// Configures how a vacated slot is handled.
    pub move_to_front: MoveToFrontMode,
    /// Configures whether the inventory may grow.
    pub sizing_mode: InventorySizingMode,
}

/// Collects mutable references to the stacks of `slots` with the key `key`, in slot
/// order.
fn stacks_mut<'a, K: PartialEq, U: Default>(
    slots: &'a mut [Option<ItemInstance<K, U>>],
    key: &K,
) -> (found: Vec<&'a mut ItemInstance<K, U>>)
    requires
        K::obeys_eq_spec(),
    ensures
        found@.len() == stacks_of(old(slots)@, *key).len(),
        forall|k: int|
            0 <= k < found@.len() ==> *(#[trigger] found@[k]) == stacks_of(old(slots)@, *key)[k],
        final(slots)@ == slots_with_stacks(
            old(slots)@,
            *key,
            Seq::new(found@.len(), |k: int| *final(found@[k])),
        ),
{
    let ghost held = slots@;
    let ghost written = final(slots)@;
    let mut found: Vec<&'a mut ItemInstance<K, U>> = Vec::new();
    let mut rest = slots;
    let ghost mut done: int = 0;
    while rest.len() > 0
        invariant
            K::obeys_eq_spec(),
            0 <= done <= held.len(),
            rest@ == held.skip(done),
            found@.len() == stacks_of(held.take(done), *key).len(),
            forall|k: int|
                0 <= k < found@.len() ==> *(#[trigger] found@[k]) == stacks_of(
                    held.take(done),
                    *key,
                )[k],
            written == slots_with_stacks(
                held.take(done),
                *key,
                Seq::new(found@.len(), |k: int| *final(found@[k])),
            ) + final(rest)@,
        decreases rest@.len(),
    {
        let current = rest;
        let ghost earlier = found@;
        let (head, tail) = current.split_at_mut(1);
        let ghost head_written = final(head)@;
        match head.first_mut() {
            Some(slot) => {
                match slot.as_mut() {
                    Some(ii) => {
                        if ii.key == *key {
                            found.push(ii);
                        }
                    },
                    None => {},
                }
            },
            None => {},
        }
        rest = tail;
        proof {
            let before = Seq::new(earlier.len(), |k: int| *final(earlier[k]));
            let after = Seq::new(found@.len(), |k: int| *final(found@[k]));
            assert(held.take(done + 1).drop_last() =~= held.take(done));
            assert(held.skip(done + 1) =~= held.skip(done).subrange(
                1,
                held.skip(done).len() as int,
            ));
            if has_key(held[done], *key) {
                assert(after.drop_last() =~= before);
                assert(head_written =~= seq![Some(after.last())]);
            } else {
                assert(after =~= before);
                assert(head_written =~= seq![held[done]]);
            }
            assert(slots_with_stacks(held.take(done + 1), *key, after) =~= slots_with_stacks(
                held.take(done),
                *key,
                before,
            ) + head_written);
            done = done + 1;
        }
    }
    proof {
        assert(held.take(done) =~= held);
    }
    found
}

impl<K, S: SlotType, U: Default> Inventory<K, S, U> {
    /// The slot count agrees with the sizing mode.
    pub open spec fn sized(&self) -> bool {
        match self.sizing_mode {
            InventorySizingMode::Fixed { size } => self.content@.len() == size,
            InventorySizingMode::Dynamic { min_size, max_size } => min_size
                <= self.content@.len() <= max_size,
        }
    }

    /// No slot holds a stack with quantity 0.
    pub open spec fn stocked(&self) -> bool {
        all_stocked(self.content@)
    }

    /// The inventory's invariant: the slot count agrees with the sizing mode and
    /// no occupied slot holds an empty stack.
    pub open spec fn well_formed(&self) -> bool {
        self.sized() && self.stocked()
    }

    /// What the slot `idx` holds. A slot that does not exist holds nothing.
    pub open spec fn slot(&self, idx: int) -> Option<ItemInstance<K, U>> {
        if 0 <= idx < self.content@.len() {
            self.content@[idx]
        } else {
            None
        }
    }

    /// Whether `other` has the same slot restrictions, compaction policy and sizing mode.
    pub open spec fn same_setup(&self, other: &Self) -> bool {
        &&& self.slot_restriction@ == other.slot_restriction@
        &&& self.move_to_front == other.move_to_front
        &&& self.sizing_mode == other.sizing_mode
    }

    /// The largest slot count that the sizing mode admits.
    pub open spec fn capacity(&self) -> usize {
        match self.sizing_mode {
            InventorySizingMode::Fixed { size } => size,
            InventorySizingMode::Dynamic { min_size, max_size } => max_size,
        }
    }

    /// The slot that `first_empty_slot` reports.
    pub open spec fn first_empty(&self) -> Option<int> {
        match self.move_to_front {
            MoveToFrontMode::Off => first_hole(self.content@),
            _ => if self.content@.len() != self.capacity() {
                Some(self.content@.len() as int)
            } else {
                None
            },
        }
    }

    /// The slot that takes what is left of an inserted stack: the slot that
    /// `first_empty_slot` reports or, where it reports none, the slot by which a
    /// dynamically sized inventory below its maximum grows.
    pub open spec fn room(&self) -> Option<int> {
        match self.first_empty() {
            Some(idx) => Some(idx),
            None => if self.sizing_mode is Dynamic && self.content@.len() != self.capacity() {
                Some(self.content@.len() as int)
            } else {
                None
            },
        }
    }

    /// Whether `has_space` holds.
    pub open spec fn spacious(&self) -> bool {
        match self.sizing_mode {
            InventorySizingMode::Fixed { size } => exists|i: int|
                0 <= i < self.content@.len() && (#[trigger] self.content@[i]) is None,
            InventorySizingMode::Dynamic { min_size, max_size } => self.content@.len() != max_size,
        }
    }
}

impl<K, S: SlotType, U: Default> Inventory<K, S, U> {
    /// Creates an inventory out of its parts, which are taken as they are: the
    /// result is well formed only if the parts are.
    pub fn new(
        content: Vec<Option<ItemInstance<K, U>>>,
        slot_restriction: Vec<Option<S>>,
        move_to_front: MoveToFrontMode,
        sizing_mode: InventorySizingMode,
    ) -> (inv: Self)
        ensures
            inv.content == content,
            inv.slot_restriction == slot_restriction,
            inv.move_to_front == move_to_front,
            inv.sizing_mode == sizing_mode,
    {
        Inventory { content, slot_restriction, move_to_front, sizing_mode }
    }
}

impl<K: PartialEq, S: SlotType, U: Default + PartialEq> Inventory<K, S, U> {
    /// What is left of `item` once every stack has taken from it what a merge gives.
    pub open spec fn rest_of<D: Default>(
        &self,
        item: ItemInstance<K, U>,
        defs: Map<K, ItemDefinition<K, S, D>>,
    ) -> ItemInstance<K, U> {
        rest_after(self.content@, item, defs, self.content@.len())
    }

    /// The slots after `insert`: every stack has grown by what it took, and what is
    /// left of `item`, if anything, sits in the slot that had room for it.
    pub open spec fn slots_after_insert<D: Default>(
        &self,
        item: ItemInstance<K, U>,
        defs: Map<K, ItemDefinition<K, S, D>>,
    ) -> Seq<Option<ItemInstance<K, U>>> {
        let merged = slots_after_pour(self.content@, item, defs);
        let rest = self.rest_of(item, defs);
        if rest.quantity == 0 {
            merged
        } else {
            match self.room() {
                Some(idx) => if idx < merged.len() {
                    merged.update(idx, Some(rest))
                } else {
                    merged.push(Some(rest))
                },
                None => merged,
            }
        }
    }
}

impl<
    K: PartialEq + Clone + Debug + Hash + Eq,
    S: SlotType,
    U: Default + Clone + Debug + PartialEq,
> Inventory<K, S, U> {
    /// Creates a new `Inventory` with a fixed slot count. Every slot is empty and unrestricted.
    pub fn new_fixed(count: usize) -> (inv: Inventory<K, S, U>)
        ensures
            inv.content@ == Seq::new(count as nat, |i: int| None::<ItemInstance<K, U>>),
            inv.slot_restriction@ == Seq::new(count as nat, |i: int| None::<S>),
            inv.move_to_front == MoveToFrontMode::Off,
            inv.sizing_mode == (InventorySizingMode::Fixed { size: count }),
            inv.well_formed(),
    {
        let mut content: Vec<Option<ItemInstance<K, U>>> = Vec::with_capacity(count);
        let mut slot_restriction: Vec<Option<S>> = Vec::with_capacity(count);
        let mut i: usize = 0;
        while i < count
            invariant
                i <= count,
                content@ == Seq::new(i as nat, |j: int| None::<ItemInstance<K, U>>),
                slot_restriction@ == Seq::new(i as nat, |j: int| None::<S>),
            decreases count - i,
        {
            content.push(None);
            slot_restriction.push(None);
            i += 1;
        }
        Inventory {
            content,
            slot_restriction,
            move_to_front: MoveToFrontMode::Off,
            sizing_mode: InventorySizingMode::new_fixed(count),
        }
    }

    /// Creates a new dynamically sized `Inventory` with `minimum` empty slots,
    /// which may grow up to `maximum` slots.
    ///
    /// The result is well formed unless `minimum` exceeds `maximum`.
    pub fn new_dynamic(minimum: usize, maximum: usize) -> (inv: Inventory<K, S, U>)
        ensures
            inv.content@ == Seq::new(minimum as nat, |i: int| None::<ItemInstance<K, U>>),
            inv.slot_restriction@ == Seq::<Option<S>>::empty(),
            inv.move_to_front == MoveToFrontMode::Off,
            inv.sizing_mode == (InventorySizingMode::Dynamic {
                min_size: minimum,
                max_size: maximum,
            }),
            inv.stocked(),
            inv.sized() <==> minimum <= maximum,
    {
        let mut content: Vec<Option<ItemInstance<K, U>>> = Vec::with_capacity(minimum);
        let mut i: usize = 0;
        while i < minimum
            invariant
                i <= minimum,
                content@ == Seq::new(i as nat, |j: int| None::<ItemInstance<K, U>>),
            decreases minimum - i,
        {
            content.push(None);
            i += 1;
        }
        Inventory {
            content,
            slot_restriction: Vec::new(),
            move_to_front: MoveToFrontMode::Off,
            sizing_mode: InventorySizingMode::new_dynamic(minimum, maximum),
        }
    }

    /// Looks if there is enough space to add another item stack: an empty slot in a
    /// fixed inventory, room to grow in a dynamic one.
    pub fn has_space(&self) -> (space: bool)
        ensures
            space == self.spacious(),
    {
        match self.sizing_mode {
            InventorySizingMode::Fixed { size: _ } => {
                let mut i: usize = 0;
                while i < self.content.len()
                    invariant
                        self.sizing_mode is Fixed,
                        i <= self.content@.len(),
                        forall|j: int| 0 <= j < i ==> (#[trigger] self.content@[j]) is Some,
                    decreases self.content@.len() - i,
                {
                    if self.content[i].is_none() {
                        return true;
                    }
                    i += 1;
                }
                false
            },
            InventorySizingMode::Dynamic { min_size: _, max_size } => self.content.len()
                != max_size,
        }
    }

    /// Returns the first empty slot if any is available.
    ///
    /// Without compaction this is the lowest empty slot. With compaction it is the slot
    /// just past the current ones, as long as the sizing mode admits one more.
    pub fn first_empty_slot(&self) -> (found: Option<usize>)
        ensures
            match found {
                Some(idx) => self.first_empty() == Some(idx as int),
                None => self.first_empty() is None,
            },
    {
        match self.move_to_front {
            MoveToFrontMode::Off => {
                let mut i: usize = 0;
                while i < self.content.len()
                    invariant
                        self.move_to_front is Off,
                        i <= self.content@.len(),
                        forall|j: int| 0 <= j < i ==> (#[trigger] self.content@[j]) is Some,
                    decreases self.content@.len() - i,
                {
                    if self.content[i].is_none() {
                        proof {
                            lemma_first_hole_is(self.content@, i as int);
                        }
                        return Some(i);
                    }
                    i += 1;
                }
                None
            },
            MoveToFrontMode::TakeLast | MoveToFrontMode::Offset => {
                let max: usize = match self.sizing_mode {
                    InventorySizingMode::Fixed { size } => size,
                    InventorySizingMode::Dynamic { min_size: _, max_size } => max_size,
                };
                if self.content.len() != max {
                    Some(self.content.len())
                } else {
                    None
                }
            },
        }
    }

    /// Vacates the slot at `idx` as the compaction policy says and hands back what it held.
    fn remove_slot(&mut self, idx: usize) -> (removed: Option<ItemInstance<K, U>>)
        requires
            idx < old(self).content@.len(),
        ensures
            removed == old(self).content@[idx as int],
            final(self).content@ == slots_after_removal(
                old(self).content@,
                idx as int,
                old(self).move_to_front,
            ),
            final(self).same_setup(old(self)),
    {
        match self.move_to_front {
            MoveToFrontMode::Off => self.content[idx].take(),
            MoveToFrontMode::TakeLast => {
                let removed = self.content.swap_remove(idx);
                self.content.push(None);
                removed
            },
            MoveToFrontMode::Offset => {
                let removed = self.content.remove(idx);
                self.content.push(None);
                removed
            },
        }
    }

    /// Deletes a specified quantity of item from the specified slot and returns it as a
    /// new stack with the durability of the source. A stack that is used up vacates its slot.
    ///
    /// Errors:
    /// * SlotEmpty: Nothing is present in the specified slot.
    /// * NotEnoughQuantity: Not enough items are present in the item stack.
    pub fn delete(&mut self, idx: usize, quantity: usize) -> (taken: Result<
        ItemInstance<K, U>,
        ItemError<K, U>,
    >)
        ensures
            final(self).same_setup(old(self)),
            match old(self).slot(idx as int) {
                None => {
                    &&& taken matches Err(ItemError::SlotEmpty)
                    &&& final(self).content@ == old(self).content@
                },
                Some(stack) => if stack.quantity < quantity {
                    &&& taken matches Err(ItemError::NotEnoughQuantity)
                    &&& final(self).content@ == old(self).content@
                } else {
                    &&& taken matches Ok(part)
                    &&& part.taken_from(stack, quantity)
                    &&& final(self).content@ == slots_after_delete(
                        old(self).content@,
                        idx as int,
                        quantity,
                        old(self).move_to_front,
                    )
                },
            },
            old(self).sized() ==> final(self).sized(),
            old(self).stocked() ==> final(self).stocked(),
    {
        if idx >= self.content.len() {
            return Err(ItemError::SlotEmpty);
        }
        let emptied: bool;
        let part: ItemInstance<K, U>;
        match &mut self.content[idx] {
            Some(ii) => {
                if ii.quantity >= quantity {
                    ii.quantity -= quantity;
                    part = ItemInstance {
                        key: ii.key.clone(),
                        quantity,
                        durability: ii.durability,
                        user_data: U::default(),
                    };
                    emptied = ii.quantity == 0;
                } else {
                    return Err(ItemError::NotEnoughQuantity);
                }
            },
            None => {
                return Err(ItemError::SlotEmpty);
            },
        }
        if emptied {
            self.remove_slot(idx);
        }
        Ok(part)
    }

    /// Deletes a full stack of item at the provided index and returns it.
    ///
    /// Errors:
    /// * SlotEmpty: Nothing is present in the specified slot.
    pub fn delete_stack(&mut self, idx: usize) -> (taken: Result<
        ItemInstance<K, U>,
        ItemError<K, U>,
    >)
        ensures
            final(self).same_setup(old(self)),
            match old(self).slot(idx as int) {
                None => {
                    &&& taken matches Err(ItemError::SlotEmpty)
                    &&& final(self).content@ == old(self).content@
                },
                Some(stack) => {
                    &&& taken matches Ok(part)
                    &&& part.taken_from(stack, stack.quantity)
                    &&& final(self).content@ == slots_after_removal(
                        old(self).content@,
                        idx as int,
                        old(self).move_to_front,
                    )
                },
            },
            old(self).sized() ==> final(self).sized(),
            old(self).stocked() ==> final(self).stocked(),
    {
        if idx >= self.content.len() {
            return Err(ItemError::SlotEmpty);
        }
        let quantity: usize = match &self.content[idx] {
            Some(ii) => ii.quantity,
            None => {
                return Err(ItemError::SlotEmpty);
            },
        };
        self.delete(idx, quantity)
    }

    /// Uses the item at the specified index once.
    ///
    /// An item without durability is unaffected and gives `None`. Otherwise the
    /// durability decreases by one and the new value is returned, unless it already
    /// was 0: then the whole stack breaks and leaves the inventory.
    ///
    /// Errors:
    /// * SlotEmpty: Nothing is present in the specified slot.
    /// * ItemDestroyed: The durability was 0. Carries the stack that was removed.
    pub fn use_item(&mut self, idx: usize) -> (left: Result<Option<usize>, ItemError<K, U>>)
        ensures
            final(self).same_setup(old(self)),
            match old(self).slot(idx as int) {
                None => {
                    &&& left matches Err(ItemError::SlotEmpty)
                    &&& final(self).content@ == old(self).content@
                },
                Some(stack) => match stack.durability {
                    None => {
                        &&& left matches Ok(None)
                        &&& final(self).content@ == old(self).content@
                    },
                    Some(durability) => if durability == 0 {
                        &&& left matches Err(ItemError::ItemDestroyed(broken))
                        &&& broken.taken_from(stack, stack.quantity)
                        &&& final(self).content@ == slots_after_removal(
                            old(self).content@,
                            idx as int,
                            old(self).move_to_front,
                        )
                    } else {
                        &&& left == Ok::<Option<usize>, ItemError<K, U>>(
                            Some((durability - 1) as usize),
                        )
                        &&& final(self).content@ == old(self).content@.update(
                            idx as int,
                            Some(
                                ItemInstance {
                                    durability: Some((durability - 1) as usize),
                                    ..stack
                                },
                            ),
                        )
                    },
                },
            },
            old(self).sized() ==> final(self).sized(),
            old(self).stocked() ==> final(self).stocked(),
    {
        if idx >= self.content.len() {
            return Err(ItemError::SlotEmpty);
        }
        match &mut self.content[idx] {
            Some(ii) => {
                match ii.durability {
                    Some(durability) => {
                        if durability != 0 {
                            ii.durability = Some(durability - 1);
                            return Ok(Some(durability - 1));
                        }
                    },
                    None => {
                        return Ok(None);
                    },
                }
            },
            None => {
                return Err(ItemError::SlotEmpty);
            },
        }
        match self.delete_stack(idx) {
            Ok(broken) => Err(ItemError::ItemDestroyed(broken)),
            Err(e) => Err(e),
        }
    }

    /// Decreases the stack size by one and returns what is left of it.
    /// A stack whose last item is consumed vacates its slot. The slot must not hold a
    /// stack with quantity 0.
    ///
    /// Errors:
    /// * SlotEmpty: Nothing is present in the specified slot.
    /// * StackConsumed: The last item was consumed. Carries what was taken out of the
    ///   slot: a stack of quantity 0 with the key and durability of the consumed one.
    pub fn consume(&mut self, idx: usize) -> (left: Result<usize, ItemError<K, U>>)
        requires
            old(self).slot(idx as int) matches Some(stack) ==> stack.quantity > 0,
        ensures
            final(self).same_setup(old(self)),
            match old(self).slot(idx as int) {
                None => {
                    &&& left matches Err(ItemError::SlotEmpty)
                    &&& final(self).content@ == old(self).content@
                },
                Some(stack) => if stack.quantity == 1 {
                    &&& left matches Err(ItemError::StackConsumed(gone))
                    &&& gone.taken_from(stack, 0)
                    &&& final(self).content@ == slots_after_removal(
                        old(self).content@,
                        idx as int,
                        old(self).move_to_front,
                    )
                } else {
                    &&& left == Ok::<usize, ItemError<K, U>>((stack.quantity - 1) as usize)
                    &&& final(self).content@ == old(self).content@.update(
                        idx as int,
                        Some(ItemInstance { quantity: (stack.quantity - 1) as usize, ..stack }),
                    )
                },
            },
            old(self).sized() ==> final(self).sized(),
            old(self).stocked() ==> final(self).stocked(),
    {
        if idx >= self.content.len() {
            return Err(ItemError::SlotEmpty);
        }
        match &mut self.content[idx] {
            Some(ii) => {
                ii.quantity -= 1;
                if ii.quantity != 0 {
                    return Ok(ii.quantity);
                }
            },
            None => {
                return Err(ItemError::SlotEmpty);
            },
        }
        match self.delete_stack(idx) {
            Ok(gone) => Err(ItemError::StackConsumed(gone)),
            Err(e) => Err(e),
        }
    }

    /// Checks if the inventory contains at least one stack of the specified key.
    pub fn has(&self, key: &K) -> (found: bool)
        requires
            K::obeys_eq_spec(),
        ensures
            found == holds_key(self.content@, *key),
    {
        let mut i: usize = 0;
        while i < self.content.len()
            invariant
                K::obeys_eq_spec(),
                i <= self.content@.len(),
                forall|j: int| 0 <= j < i ==> !has_key(#[trigger] self.content@[j], *key),
            decreases self.content@.len() - i,
        {
            match &self.content[i] {
                Some(ii) => {
                    if ii.key == *key {
                        return true;
                    }
                },
                None => {},
            }
            i += 1;
        }
        false
    }

    /// Checks if the stacks of the specified key hold at least `quantity` items together.
    pub fn has_quantity(&self, key: &K, quantity: usize) -> (enough: bool)
        requires
            K::obeys_eq_spec(),
        ensures
            enough == (total_quantity(self.content@, *key) >= quantity),
    {
        let mut missing: usize = quantity;
        let mut i: usize = 0;
        while i < self.content.len() && missing > 0
            invariant
                K::obeys_eq_spec(),
                i <= self.content@.len(),
                missing <= quantity,
                missing > 0 ==> missing == quantity - total_quantity(
                    self.content@.take(i as int),
                    *key,
                ),
                missing == 0 ==> total_quantity(self.content@.take(i as int), *key) >= quantity,
            decreases self.content@.len() - i,
        {
            proof {
                lemma_total_take(self.content@, i as int, *key);
            }
            match &self.content[i] {
                Some(ii) => {
                    if ii.key == *key {
                        if ii.quantity >= missing {
                            missing = 0;
                        } else {
                            missing -= ii.quantity;
                        }
                    }
                },
                None => {},
            }
            i += 1;
        }
        proof {
            lemma_total_prefix(self.content@, i as int, *key);
            assert(self.content@.take(self.content@.len() as int) =~= self.content@);
        }
        missing == 0
    }

    /// Checks if the inventory holds, for each key of `wanted`, at least the quantity
    /// that goes with it.
    pub fn has_all(&self, wanted: &Vec<(K, usize)>) -> (enough: bool)
        requires
            K::obeys_eq_spec(),
        ensures
            enough == forall|i: int|
                0 <= i < wanted@.len() ==> total_quantity(
                    self.content@,
                    (#[trigger] wanted@[i]).0,
                ) >= wanted@[i].1,
    {
        let mut i: usize = 0;
        while i < wanted.len()
            invariant
                K::obeys_eq_spec(),
                i <= wanted@.len(),
                forall|j: int|
                    0 <= j < i ==> total_quantity(self.content@, (#[trigger] wanted@[j]).0)
                        >= wanted@[j].1,
            decreases wanted@.len() - i,
        {
            if !self.has_quantity(&wanted[i].0, wanted[i].1) {
                return false;
            }
            i += 1;
        }
        true
    }

    /// Deletes `quantity` items of the specified key, taking them from the lowest
    /// stack with that key first, and returns a new stack of that key and quantity.
    /// Either the whole quantity is deleted or nothing is. No slot may hold a stack with
    /// quantity 0.
    ///
    /// Errors:
    /// * NotEnoughQuantity: The stacks of the specified key hold less than `quantity`
    ///   together. The inventory is left as it was.
    pub fn delete_key(&mut self, key: &K, quantity: usize) -> (taken: Result<
        ItemInstance<K, U>,
        ItemError<K, U>,
    >)
        requires
            K::obeys_eq_spec(),
            old(self).stocked(),
        ensures
            final(self).same_setup(old(self)),
            final(self).content@.len() == old(self).content@.len(),
            if total_quantity(old(self).content@, *key) < quantity {
                &&& taken matches Err(ItemError::NotEnoughQuantity)
                &&& final(self).content@ == old(self).content@
            } else {
                &&& taken matches Ok(stack)
                &&& cloned(*key, stack.key)
                &&& stack.quantity == quantity
                &&& stack.durability is None
                &&& call_ensures(U::default, (), stack.user_data)
                &&& final(self).content@ == slots_after_drain(
                    old(self).content@,
                    *key,
                    quantity as nat,
                    old(self).move_to_front,
                )
                &&& total_quantity(final(self).content@, *key) == total_quantity(
                    old(self).content@,
                    *key,
                ) - quantity
            },
            old(self).sized() ==> final(self).sized(),
            final(self).stocked(),
    {
        if !self.has_quantity(key, quantity) {
            return Err(ItemError::NotEnoughQuantity);
        }
        let mut remaining: usize = quantity;
        let mut idx: usize = 0;
        while remaining > 0
            invariant
                K::obeys_eq_spec(),
                self.same_setup(old(self)),
                self.content@.len() == old(self).content@.len(),
                self.stocked(),
                idx <= self.content@.len(),
                remaining <= quantity,
                total_quantity(self.content@, *key) == total_quantity(old(self).content@, *key)
                    - (quantity - remaining),
                remaining <= total_quantity(self.content@, *key),
                forall|j: int| 0 <= j < idx ==> !has_key(#[trigger] self.content@[j], *key),
                slots_after_drain(
                    self.content@,
                    *key,
                    remaining as nat,
                    self.move_to_front,
                ) == slots_after_drain(
                    old(self).content@,
                    *key,
                    quantity as nat,
                    old(self).move_to_front,
                ),
            decreases remaining, self.content@.len() - idx,
        {
            proof {
                if idx >= self.content@.len() {
                    lemma_total_without_key(self.content@, *key);
                }
            }
            assert(idx < self.content.len());
            let available: usize = match &self.content[idx] {
                Some(ii) => if ii.key == *key {
                    ii.quantity
                } else {
                    0
                },
                None => 0,
            };
            if available == 0 {
                idx += 1;
            } else {
                let part: usize = if available >= remaining {
                    remaining
                } else {
                    available
                };
                proof {
                    let stack = self.content@[idx as int].unwrap();
                    lemma_first_match_is(self.content@, *key, idx as int);
                    if part == available {
                        lemma_total_removal(self.content@, idx as int, self.move_to_front, *key);
                    } else {
                        lemma_total_update(
                            self.content@,
                            idx as int,
                            Some(
                                ItemInstance {
                                    quantity: (stack.quantity - part) as usize,
                                    ..stack
                                },
                            ),
                            *key,
                        );
                    }
                }
                let _ = self.delete(idx, part);
                remaining -= part;
            }
        }
        Ok(ItemInstance::new(key.clone(), quantity))
    }

    /// Inserts the stack into the empty slot at the specified index.
    ///
    /// The slot must exist. Slot restrictions and stack limits are not looked at: the
    /// stack is stored as it is given. A stack with quantity 0 is not stored, since no
    /// slot may hold one: the slot stays empty.
    ///
    /// Errors:
    /// * SlotOccupied: The slot already holds a stack. The inventory is left as it was.
    pub fn insert_into<U2: Default>(
        &mut self,
        idx: usize,
        item: ItemInstance<K, U>,
        _item_defs: &ItemDefinitions<K, S, U2>,
    ) -> (done: Result<(), ItemError<K, U>>)
        requires
            idx < old(self).content@.len(),
        ensures
            final(self).same_setup(old(self)),
            match old(self).content@[idx as int] {
                Some(_) => {
                    &&& done matches Err(ItemError::SlotOccupied)
                    &&& final(self).content@ == old(self).content@
                },
                None => {
                    &&& done is Ok
                    &&& final(self).content@ == slots_after_store(
                        old(self).content@,
                        idx as int,
                        item,
                    )
                },
            },
            old(self).sized() ==> final(self).sized(),
            old(self).stocked() ==> final(self).stocked(),
    {
        if self.content[idx].is_some() {
            Err(ItemError::SlotOccupied)
        } else {
            if item.quantity > 0 {
                self.content[idx] = Some(item);
            }
            Ok(())
        }
    }

    /// Offers the stack to every stack in slot order, each of which takes what a merge
    /// gives it, and hands back what is left.
    fn pour<U2: Default>(
        &mut self,
        item: ItemInstance<K, U>,
        item_defs: &ItemDefinitions<K, S, U2>,
    ) -> (rest: ItemInstance<K, U>)
        requires
            obeys_key_model::<K>(),
            K::obeys_eq_spec(),
            pour_fits(old(self).content@, item, item_defs@),
        ensures
            final(self).same_setup(old(self)),
            slots_poured(final(self).content@, old(self).content@, item, item_defs@),
            rest == (ItemInstance { quantity: rest.quantity, ..item }),
            rest.quantity <= item.quantity,
            total_quantity(final(self).content@, item.key) + rest.quantity == total_quantity(
                old(self).content@,
                item.key,
            ) + item.quantity,
            pour_decided(old(self).content@, item, item_defs@) ==> final(self).content@
                == slots_after_pour(old(self).content@, item, item_defs@),
            pour_decided(old(self).content@, item, item_defs@) ==> rest == rest_after(
                old(self).content@,
                item,
                item_defs@,
                old(self).content@.len(),
            ),
    {
        let ghost slots = self.content@;
        let ghost merged = slots_after_pour(slots, item, item_defs@);
        let ghost decided = pour_decided(slots, item, item_defs@);
        let mut rest = item;
        let mut i: usize = 0;
        while i < self.content.len() && rest.quantity > 0
            invariant
                obeys_key_model::<K>(),
                K::obeys_eq_spec(),
                pour_fits(slots, item, item_defs@),
                decided == pour_decided(slots, item, item_defs@),
                self.same_setup(old(self)),
                merged == slots_after_pour(slots, item, item_defs@),
                self.content@.len() == slots.len(),
                i <= slots.len(),
                rest == (ItemInstance { quantity: rest.quantity, ..item }),
                rest.quantity <= item.quantity,
                total_quantity(self.content@, item.key) + rest.quantity == total_quantity(
                    slots,
                    item.key,
                ) + item.quantity,
                forall|j: int|
                    0 <= j < i ==> slot_poured(
                        #[trigger] self.content@[j],
                        slots[j],
                        item,
                        item_defs@,
                    ),
                forall|j: int| i <= j < slots.len() ==> #[trigger] self.content@[j] == slots[j],
                decided ==> rest == rest_after(slots, item, item_defs@, i as nat),
                decided ==> forall|j: int| 0 <= j < i ==> #[trigger] self.content@[j] == merged[j],
            decreases slots.len() - i,
        {
            let ghost held = self.content@;
            proof {
                assert(held[i as int] == slots[i as int]);
                assert(pour_fits_at(slots, item, item_defs@, i as int));
                // Where the answer of `==` on the user data never matters, it does
                // not matter at this slot.
                if decided && !U::obeys_eq_spec() {
                    assert(shares_no_key_at(slots, item, item_defs@, i as int));
                }
            }
            match &mut self.content[i] {
                Some(ii) => {
                    if ii.key == rest.key {
                        ii.merge(&mut rest, item_defs);
                    }
                },
                None => {},
            }
            proof {
                lemma_total_update(held, i as int, self.content@[i as int], item.key);
                assert(self.content@ =~= held.update(i as int, self.content@[i as int]));
            }
            i += 1;
        }
        proof {
            if decided {
                // Once nothing is left, the slots that were not reached take nothing.
                assert forall|j: int| i <= j < slots.len() implies #[trigger] self.content@[j]
                    == merged[j] by {
                    lemma_rest_stays_empty(slots, item, item_defs@, i as nat, j as nat);
                }
                if i < slots.len() {
                    lemma_rest_stays_empty(slots, item, item_defs@, i as nat, slots.len());
                }
                assert(self.content@ =~= merged);
            }
        }
        rest
    }

    /// Inserts the stack at the first available inventory space.
    ///
    /// The stack is first offered to every stack in slot order, each of which takes what
    /// a merge gives it, which must stay within machine limits. What is left goes
    /// into the slot that `first_empty_slot` reports: an empty slot, or a new slot by
    /// which the inventory grows where that slot lies just past the current ones.
    /// Where it reports none, a dynamically sized inventory that has space grows by one
    /// slot to hold what is left. A stack with quantity 0 changes nothing.
    ///
    /// The slots after the call and the result are stated exactly where `==` on the
    /// user data obeys its specification, or where no stack shares with the incoming
    /// one a key that the catalog knows. For other user data, of which `()` is one, it
    /// cannot be told whether stacks with a shared key take anything. Whatever `==`
    /// does, the call succeeds wherever there is room, the inventory keeps its
    /// invariant, no stack shrinks or moves, a stack that grows stays within its stack
    /// limit, and a success adds the quantity of the incoming stack to what the
    /// inventory holds of its key.
    ///
    /// Errors:
    /// * InventoryFull: Something is left of the stack and there is no slot for it.
    ///   What the stacks took stays with them; what is left is dropped.
    pub fn insert<U2: Default>(
        &mut self,
        item: ItemInstance<K, U>,
        item_defs: &ItemDefinitions<K, S, U2>,
    ) -> (done: Result<(), ItemError<K, U>>)
        requires
            obeys_key_model::<K>(),
            K::obeys_eq_spec(),
            pour_fits(old(self).content@, item, item_defs@),
        ensures
            final(self).same_setup(old(self)),
            pour_decided(old(self).content@, item, item_defs@) ==> final(self).content@ == old(
                self,
            ).slots_after_insert(item, item_defs@),
            pour_decided(old(self).content@, item, item_defs@) ==> (done is Ok <==> old(
                self,
            ).rest_of(item, item_defs@).quantity == 0 || old(self).room() is Some),
            old(self).room() is Some ==> done is Ok,
            done matches Err(e) ==> e is InventoryFull,
            old(self).content@.len() <= final(self).content@.len() <= old(self).content@.len()
                + 1,
            forall|i: int|
                0 <= i < old(self).content@.len() && old(self).content@[i] is Some ==> slot_poured(
                    #[trigger] final(self).content@[i],
                    old(self).content@[i],
                    item,
                    item_defs@,
                ),
            done is Ok && item.key.eq_spec(&item.key) ==> total_quantity(
                final(self).content@,
                item.key,
            ) == total_quantity(old(self).content@, item.key) + item.quantity,
            done is Err ==> total_quantity(final(self).content@, item.key) < total_quantity(
                old(self).content@,
                item.key,
            ) + item.quantity,
            old(self).sized() ==> final(self).sized(),
            old(self).stocked() ==> final(self).stocked(),
    {
        let ghost slots = self.content@;
        let rest = self.pour(item, item_defs);
        let ghost merged = self.content@;
        proof {
            lemma_first_hole_by_shape(slots, merged);
            assert(self.first_empty() == old(self).first_empty());
            assert(self.room() == old(self).room());
        }
        if rest.quantity == 0 {
            return Ok(());
        }
        match self.first_empty_slot() {
            Some(slot) => {
                if slot >= self.content.len() {
                    self.content.push(None);
                    proof {
                        lemma_total_push(merged, None, item.key);
                    }
                }
                let ghost ready = self.content@;
                let done = self.insert_into(slot, rest, item_defs);
                proof {
                    lemma_total_update(ready, slot as int, Some(rest), item.key);
                    if pour_decided(slots, item, item_defs@) {
                        assert(self.content@ =~= old(self).slots_after_insert(item, item_defs@));
                    }
                }
                done
            },
            None => {
                match self.sizing_mode {
                    InventorySizingMode::Fixed { size: _ } => Err(ItemError::InventoryFull),
                    InventorySizingMode::Dynamic { min_size: _, max_size: _ } => {
                        if self.has_space() {
                            self.content.push(None);
                            let last: usize = self.content.len() - 1;
                            let done = self.insert_into(last, rest, item_defs);
                            proof {
                                lemma_total_push(merged, Some(rest), item.key);
                                assert(self.content@ =~= merged.push(Some(rest)));
                            }
                            done
                        } else {
                            Err(ItemError::InventoryFull)
                        }
                    },
                }
            },
        }
    }

    /// Transfers a specified quantity of item from one slot of this inventory to an
    /// empty slot of the provided target inventory, which must exist whenever the
    /// source slot can give the quantity. `_with_overflow` is reserved: the quantity is
    /// never spread over several slots.
    ///
    /// The quantity leaves the source before the target slot is looked at: it is lost
    /// if the target slot is occupied. A quantity of 0 moves nothing: the target stays
    /// as it was.
    ///
    /// Errors:
    /// * SlotEmpty: Nothing is present in the source slot. Both inventories are untouched.
    /// * NotEnoughQuantity: The source stack holds less than `quantity`. Both inventories
    ///   are untouched.
    /// * SlotOccupied: The target slot already holds a stack. The target is untouched.
    pub fn transfer<U2: Default>(
        &mut self,
        from_idx: usize,
        target: &mut Inventory<K, S, U>,
        to_idx: usize,
        quantity: usize,
        _with_overflow: bool,
        item_defs: &ItemDefinitions<K, S, U2>,
    ) -> (done: Result<(), ItemError<K, U>>)
        requires
            old(self).slot(from_idx as int) matches Some(stack) && stack.quantity >= quantity
                ==> to_idx < old(target).content@.len(),
        ensures
            final(self).same_setup(old(self)),
            final(target).same_setup(old(target)),
            match old(self).slot(from_idx as int) {
                None => {
                    &&& done matches Err(ItemError::SlotEmpty)
                    &&& final(self).content@ == old(self).content@
                    &&& final(target).content@ == old(target).content@
                },
                Some(stack) => if stack.quantity < quantity {
                    &&& done matches Err(ItemError::NotEnoughQuantity)
                    &&& final(self).content@ == old(self).content@
                    &&& final(target).content@ == old(target).content@
                } else {
                    &&& final(self).content@ == slots_after_delete(
                        old(self).content@,
                        from_idx as int,
                        quantity,
                        old(self).move_to_front,
                    )
                    &&& match old(target).content@[to_idx as int] {
                        Some(_) => {
                            &&& done matches Err(ItemError::SlotOccupied)
                            &&& final(target).content@ == old(target).content@
                        },
                        None => if quantity == 0 {
                            &&& done is Ok
                            &&& final(target).content@ == old(target).content@
                        } else {
                            &&& done is Ok
                            &&& final(target).content@[to_idx as int] matches Some(moved)
                            &&& moved.taken_from(stack, quantity)
                            &&& final(target).content@ == old(target).content@.update(
                                to_idx as int,
                                final(target).content@[to_idx as int],
                            )
                        },
                    }
                },
            },
            old(self).sized() ==> final(self).sized(),
            old(self).stocked() ==> final(self).stocked(),
            old(target).sized() ==> final(target).sized(),
            old(target).stocked() ==> final(target).stocked(),
    {
        match self.delete(from_idx, quantity) {
            Ok(moved) => target.insert_into(to_idx, moved, item_defs),
            Err(e) => Err(e),
        }
    }

    /// Transfers a whole stack from the specified slot into an empty slot of the
    /// provided target inventory, which must exist whenever the source slot is
    /// occupied. `with_overflow` is reserved.
    ///
    /// The stack leaves the source before the target slot is looked at: it is lost
    /// if the target slot is occupied.
    ///
    /// Errors:
    /// * SlotEmpty: Nothing is present in the source slot. Both inventories are untouched.
    /// * SlotOccupied: The target slot already holds a stack. The target is untouched.
    pub fn transfer_stack<U2: Default>(
        &mut self,
        from_idx: usize,
        target: &mut Inventory<K, S, U>,
        to_idx: usize,
        with_overflow: bool,
        item_defs: &ItemDefinitions<K, S, U2>,
    ) -> (done: Result<(), ItemError<K, U>>)
        requires
            old(self).slot(from_idx as int) is Some ==> to_idx < old(target).content@.len(),
        ensures
            final(self).same_setup(old(self)),
            final(target).same_setup(old(target)),
            match old(self).slot(from_idx as int) {
                None => {
                    &&& done matches Err(ItemError::SlotEmpty)
                    &&& final(self).content@ == old(self).content@
                    &&& final(target).content@ == old(target).content@
                },
                Some(stack) => {
                    &&& final(self).content@ == slots_after_removal(
                        old(self).content@,
                        from_idx as int,
                        old(self).move_to_front,
                    )
                    &&& match old(target).content@[to_idx as int] {
                        Some(_) => {
                            &&& done matches Err(ItemError::SlotOccupied)
                            &&& final(target).content@ == old(target).content@
                        },
                        None => if stack.quantity == 0 {
                            &&& done is Ok
                            &&& final(target).content@ == old(target).content@
                        } else {
                            &&& done is Ok
                            &&& final(target).content@[to_idx as int] matches Some(moved)
                            &&& moved.taken_from(stack, stack.quantity)
                            &&& final(target).content@ == old(target).content@.update(
                                to_idx as int,
                                final(target).content@[to_idx as int],
                            )
                        },
                    }
                },
            },
            old(self).sized() ==> final(self).sized(),
            old(self).stocked() ==> final(self).stocked(),
            old(target).sized() ==> final(target).sized(),
            old(target).stocked() ==> final(target).stocked(),
    {
        if from_idx >= self.content.len() {
            return Err(ItemError::SlotEmpty);
        }
        let quantity: usize = match &self.content[from_idx] {
            Some(ii) => ii.quantity,
            None => {
                return Err(ItemError::SlotEmpty);
            },
        };
        self.transfer(from_idx, target, to_idx, quantity, with_overflow, item_defs)
    }

    /// Moves a specified quantity of item from a slot to an empty slot of this
    /// inventory, which must exist whenever the source slot can give the quantity.
    /// `_with_overflow` is reserved.
    ///
    /// The quantity leaves the source slot first, so that a stack may be moved as a
    /// whole into the slot it comes from. It is lost if the destination is occupied
    /// once the source has been taken from. A quantity of 0 moves nothing.
    ///
    /// Errors:
    /// * SlotEmpty: Nothing is present in the source slot. The inventory is untouched.
    /// * NotEnoughQuantity: The source stack holds less than `quantity`. The inventory
    ///   is untouched.
    /// * SlotOccupied: The destination holds a stack after the source was taken from.
    pub fn move_item<U2: Default>(
        &mut self,
        from_idx: usize,
        to_idx: usize,
        quantity: usize,
        _with_overflow: bool,
        item_defs: &ItemDefinitions<K, S, U2>,
    ) -> (done: Result<(), ItemError<K, U>>)
        requires
            old(self).slot(from_idx as int) matches Some(stack) && stack.quantity >= quantity
                ==> to_idx < old(self).content@.len(),
        ensures
            final(self).same_setup(old(self)),
            match old(self).slot(from_idx as int) {
                None => {
                    &&& done matches Err(ItemError::SlotEmpty)
                    &&& final(self).content@ == old(self).content@
                },
                Some(stack) => if stack.quantity < quantity {
                    &&& done matches Err(ItemError::NotEnoughQuantity)
                    &&& final(self).content@ == old(self).content@
                } else {
                    let taken = slots_after_delete(
                        old(self).content@,
                        from_idx as int,
                        quantity,
                        old(self).move_to_front,
                    );
                    match taken[to_idx as int] {
                        Some(_) => {
                            &&& done matches Err(ItemError::SlotOccupied)
                            &&& final(self).content@ == taken
                        },
                        None => if quantity == 0 {
                            &&& done is Ok
                            &&& final(self).content@ == taken
                        } else {
                            &&& done is Ok
                            &&& final(self).content@[to_idx as int] matches Some(moved)
                            &&& moved.taken_from(stack, quantity)
                            &&& final(self).content@ == taken.update(
                                to_idx as int,
                                final(self).content@[to_idx as int],
                            )
                        },
                    }
                },
            },
            old(self).sized() ==> final(self).sized(),
            old(self).stocked() ==> final(self).stocked(),
    {
        match self.delete(from_idx, quantity) {
            Ok(moved) => self.insert_into(to_idx, moved, item_defs),
            Err(e) => Err(e),
        }
    }

    /// Moves a full stack of item from a slot to an empty slot of this inventory,
    /// which must exist whenever the source slot is occupied. `with_overflow` is
    /// reserved.
    ///
    /// The stack leaves the source slot first. It is lost if the destination is
    /// occupied once the source slot has been vacated.
    ///
    /// Errors:
    /// * SlotEmpty: Nothing is present in the source slot. The inventory is untouched.
    /// * SlotOccupied: The destination holds a stack after the source was vacated.
    pub fn move_stack<U2: Default>(
        &mut self,
        from_idx: usize,
        to_idx: usize,
        with_overflow: bool,
        item_defs: &ItemDefinitions<K, S, U2>,
    ) -> (done: Result<(), ItemError<K, U>>)
        requires
            old(self).slot(from_idx as int) is Some ==> to_idx < old(self).content@.len(),
        ensures
            final(self).same_setup(old(self)),
            match old(self).slot(from_idx as int) {
                None => {
                    &&& done matches Err(ItemError::SlotEmpty)
                    &&& final(self).content@ == old(self).content@
                },
                Some(stack) => {
                    let taken = slots_after_removal(
                        old(self).content@,
                        from_idx as int,
                        old(self).move_to_front,
                    );
                    match taken[to_idx as int] {
                        Some(_) => {
                            &&& done matches Err(ItemError::SlotOccupied)
                            &&& final(self).content@ == taken
                        },
                        None => if stack.quantity == 0 {
                            &&& done is Ok
                            &&& final(self).content@ == taken
                        } else {
                            &&& done is Ok
                            &&& final(self).content@[to_idx as int] matches Some(moved)
                            &&& moved.taken_from(stack, stack.quantity)
                            &&& final(self).content@ == taken.update(
                                to_idx as int,
                                final(self).content@[to_idx as int],
                            )
                        },
                    }
                },
            },
            old(self).sized() ==> final(self).sized(),
            old(self).stocked() ==> final(self).stocked(),
    {
        if from_idx >= self.content.len() {
            return Err(ItemError::SlotEmpty);
        }
        let quantity: usize = match &self.content[from_idx] {
            Some(ii) => ii.quantity,
            None => {
                return Err(ItemError::SlotEmpty);
            },
        };
        self.move_item(from_idx, to_idx, quantity, with_overflow, item_defs)
    }

    /// Gets a mutable reference to the stack at the specified index, if the slot exists
    /// and holds one. What the caller writes through it becomes the content of the slot.
    pub fn get_mut(&mut self, idx: usize) -> (found: Option<&mut ItemInstance<K, U>>)
        ensures
            final(self).same_setup(old(self)),
            match old(self).slot(idx as int) {
                None => {
                    &&& found is None
                    &&& final(self).content@ == old(self).content@
                },
                Some(stack) => {
                    &&& found matches Some(held)
                    &&& *held == stack
                    &&& final(self).content@ == old(self).content@.update(
                        idx as int,
                        Some(*final(held)),
                    )
                },
            },
            old(self).sized() ==> final(self).sized(),
    {
        if idx < self.content.len() {
            self.content[idx].as_mut()
        } else {
            None
        }
    }

    /// Finds the stacks of the specified key. Returns immutable references to them, in
    /// slot order.
    pub fn get_key(&self, key: &K) -> (found: Vec<&ItemInstance<K, U>>)
        requires
            K::obeys_eq_spec(),
        ensures
            found@.len() == stacks_of(self.content@, *key).len(),
            forall|k: int|
                0 <= k < found@.len() ==> *(#[trigger] found@[k]) == stacks_of(
                    self.content@,
                    *key,
                )[k],
    {
        let mut found: Vec<&ItemInstance<K, U>> = Vec::new();
        let mut i: usize = 0;
        while i < self.content.len()
            invariant
                K::obeys_eq_spec(),
                i <= self.content@.len(),
                found@.len() == stacks_of(self.content@.take(i as int), *key).len(),
                forall|k: int|
                    0 <= k < found@.len() ==> *(#[trigger] found@[k]) == stacks_of(
                        self.content@.take(i as int),
                        *key,
                    )[k],
            decreases self.content@.len() - i,
        {
            assert(self.content@.take(i + 1).drop_last() =~= self.content@.take(i as int));
            match &self.content[i] {
                Some(ii) => {
                    if ii.key == *key {
                        found.push(ii);
                    }
                },
                None => {},
            }
            i += 1;
        }
        assert(self.content@.take(i as int) =~= self.content@);
        found
    }

    /// Finds the stacks of the specified key. Returns mutable references to them, in
    /// slot order. What the caller writes through them becomes the content of their slots.
    pub fn get_key_mut(&mut self, key: &K) -> (found: Vec<&mut ItemInstance<K, U>>)
        requires
            K::obeys_eq_spec(),
        ensures
            final(self).same_setup(old(self)),
            found@.len() == stacks_of(old(self).content@, *key).len(),
            forall|k: int|
                0 <= k < found@.len() ==> *(#[trigger] found@[k]) == stacks_of(
                    old(self).content@,
                    *key,
                )[k],
            final(self).content@ == slots_with_stacks(
                old(self).content@,
                *key,
                Seq::new(found@.len(), |k: int| *final(found@[k])),
            ),
            final(self).content@.len() == old(self).content@.len(),
            old(self).sized() ==> final(self).sized(),
    {
        let found = stacks_mut(self.content.as_mut_slice(), key);
        proof {
            lemma_slots_with_stacks_len(
                old(self).content@,
                *key,
                Seq::new(found@.len(), |k: int| *final(found@[k])),
            );
        }
        found
    }

    /// Gets an immutable reference to what the slot at the specified index holds.
    /// A slot that does not exist holds nothing.
    pub fn get(&self, idx: usize) -> (found: &Option<ItemInstance<K, U>>)
        ensures
            *found == self.slot(idx as int),
    {
        if idx < self.content.len() {
            &self.content[idx]
        } else {
            &None
        }
    }
}

} // verus!
