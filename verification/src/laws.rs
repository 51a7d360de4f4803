//! What holds across several operations of an inventory.

use crate::inventory::{Inventory, InventorySizingMode, MoveToFrontMode};
use crate::item::{ItemDefinition, ItemInstance, SlotType};
use crate::slots::{
    all_stocked, pour_amount, pour_decided, pour_fits, pour_fits_at, rest_after,
    shares_no_key_at, slots_after_delete, slots_after_pour,
    slots_after_removal, slots_after_store,
};
use vstd::prelude::*;
use vstd::std_specs::cmp::PartialEqSpec;

verus! {

/// Vacating a slot never changes the slot count, whatever the compaction policy:
/// without compaction a hole is left, with compaction an empty slot joins the tail.
pub proof fn lemma_removal_keeps_slot_count<T>(
    content: Seq<Option<T>>,
    idx: int,
    mode: MoveToFrontMode,
)
    requires
        0 <= idx < content.len(),
    ensures
        slots_after_removal(content, idx, mode).len() == content.len(),
{
}

/// Taking items out of a stack never leaves a stack with quantity 0 behind: a stack
/// that is used up vacates its slot.
pub proof fn lemma_delete_leaves_no_empty_stack<K, U: Default>(
    content: Seq<Option<ItemInstance<K, U>>>,
    idx: int,
    quantity: usize,
    mode: MoveToFrontMode,
)
    requires
        all_stocked(content),
        0 <= idx < content.len(),
        content[idx] matches Some(stack) && stack.quantity >= quantity,
    ensures
        all_stocked(slots_after_delete(content, idx, quantity, mode)),
        slots_after_delete(content, idx, quantity, mode).len() == content.len(),
{
}

/// Storing a stack in an empty slot never puts a stack with quantity 0 there: such a
/// stack is not stored.
pub proof fn lemma_store_leaves_no_empty_stack<K, U: Default>(
    content: Seq<Option<ItemInstance<K, U>>>,
    idx: int,
    item: ItemInstance<K, U>,
)
    requires
        all_stocked(content),
        0 <= idx < content.len(),
    ensures
        all_stocked(slots_after_store(content, idx, item)),
        slots_after_store(content, idx, item).len() == content.len(),
{
}

/// Whatever the stacks take of an incoming stack, what is left of it keeps its key,
/// durability and user data.
pub proof fn lemma_rest_keeps_identity<K: PartialEq, U: Default + PartialEq, S, D: Default>(
    content: Seq<Option<ItemInstance<K, U>>>,
    item: ItemInstance<K, U>,
    defs: Map<K, ItemDefinition<K, S, D>>,
    n: nat,
)
    ensures
        rest_after(content, item, defs, n) == (ItemInstance {
            quantity: rest_after(content, item, defs, n).quantity,
            ..item
        }),
    decreases n,
{
    if n > 0 {
        lemma_rest_keeps_identity(content, item, defs, (n - 1) as nat);
    }
}

/// What is left of an incoming stack never grows from one slot to the next: a slot
/// takes nothing or a part of what is left.
pub proof fn lemma_rest_never_grows<K: PartialEq, U: Default + PartialEq, S, D: Default>(
    content: Seq<Option<ItemInstance<K, U>>>,
    item: ItemInstance<K, U>,
    defs: Map<K, ItemDefinition<K, S, D>>,
    n: nat,
    m: nat,
)
    requires
        pour_decided(content, item, defs),
        pour_fits(content, item, defs),
        n <= m <= content.len(),
    ensures
        rest_after(content, item, defs, m).quantity <= rest_after(content, item, defs, n).quantity,
        n < m ==> 0 <= pour_amount(
            content[m - 1],
            rest_after(content, item, defs, (m - 1) as nat),
            defs,
        ) <= rest_after(content, item, defs, (m - 1) as nat).quantity,
    decreases m,
{
    if n < m {
        lemma_rest_never_grows(content, item, defs, n, (m - 1) as nat);
        lemma_rest_keeps_identity(content, item, defs, (m - 1) as nat);
        let rest = rest_after(content, item, defs, (m - 1) as nat);
        let slot = content[m - 1];
        if slot is Some && rest.quantity > 0 {
            let stack = slot.unwrap();
            assert(stack.shares_key(rest, defs) == stack.shares_key(item, defs));
            assert(pour_fits_at(content, item, defs, m - 1));
            if !U::obeys_eq_spec() {
                assert(shares_no_key_at(content, item, defs, m - 1));
            }
        }
        assert(0 <= pour_amount(slot, rest, defs) <= rest.quantity);
    }
}

/// Where all of an incoming stack is left after it was offered to every slot, no
/// stack took anything: the slots are as they were.
pub proof fn lemma_nothing_left_out_nothing_taken<
    K: PartialEq,
    U: Default + PartialEq,
    S,
    D: Default,
>(
    content: Seq<Option<ItemInstance<K, U>>>,
    item: ItemInstance<K, U>,
    defs: Map<K, ItemDefinition<K, S, D>>,
)
    requires
        pour_decided(content, item, defs),
        pour_fits(content, item, defs),
        rest_after(content, item, defs, content.len()).quantity == item.quantity,
    ensures
        slots_after_pour(content, item, defs) == content,
{
    assert forall|i: int| 0 <= i < content.len() implies slots_after_pour(content, item, defs)[i]
        == content[i] by {
        let before = rest_after(content, item, defs, i as nat);
        let after = rest_after(content, item, defs, (i + 1) as nat);
        lemma_rest_never_grows(content, item, defs, 0, i as nat);
        lemma_rest_never_grows(content, item, defs, i as nat, (i + 1) as nat);
        lemma_rest_never_grows(content, item, defs, (i + 1) as nat, content.len());
        assert(before.quantity == item.quantity && after.quantity == item.quantity);
        assert(pour_amount(content[i], before, defs) == 0);
    }
    assert(slots_after_pour(content, item, defs) =~= content);
}

/// Inserting keeps the slot count within the sizing mode, whatever is inserted: the
/// slots stay as many as they were, or a dynamically sized inventory below its maximum
/// has one more.
pub proof fn lemma_insert_keeps_sizing<
    K: PartialEq,
    S: SlotType,
    U: Default + PartialEq,
    D: Default,
>(inv: Inventory<K, S, U>, item: ItemInstance<K, U>, defs: Map<K, ItemDefinition<K, S, D>>)
    requires
        inv.sized(),
    ensures
        ({
            let before = inv.content@.len();
            let after = inv.slots_after_insert(item, defs).len();
            &&& before <= after <= before + 1
            &&& match inv.sizing_mode {
                InventorySizingMode::Fixed { size } => after == size,
                InventorySizingMode::Dynamic { min_size, max_size } => min_size <= after
                    <= max_size,
            }
        }),
{
}

/// Inserting never leaves a stack with quantity 0 behind, whatever is inserted: an
/// incoming stack of quantity 0, or one that the stacks took completely, fills no slot.
pub proof fn lemma_insert_leaves_no_empty_stack<
    K: PartialEq,
    S: SlotType,
    U: Default + PartialEq,
    D: Default,
>(inv: Inventory<K, S, U>, item: ItemInstance<K, U>, defs: Map<K, ItemDefinition<K, S, D>>)
    requires
        inv.stocked(),
        pour_decided(inv.content@, item, defs),
        pour_fits(inv.content@, item, defs),
    ensures
        all_stocked(inv.slots_after_insert(item, defs)),
{
    let merged = slots_after_pour(inv.content@, item, defs);
    assert forall|i: int| 0 <= i < merged.len() implies match #[trigger] merged[i] {
        Some(stack) => stack.quantity > 0,
        None => true,
    } by {
        let content = inv.content@;
        if let Some(stack) = content[i] {
            let rest = rest_after(content, item, defs, i as nat);
            let amount = pour_amount(content[i], rest, defs);
            lemma_rest_never_grows(content, item, defs, i as nat, (i + 1) as nat);
            lemma_rest_keeps_identity(content, item, defs, i as nat);
            assert(pour_fits_at(content, item, defs, i));
            if !U::obeys_eq_spec() {
                assert(shares_no_key_at(content, item, defs, i));
                assert(stack.shares_key(rest, defs) == stack.shares_key(item, defs));
            }
            assert(stack.quantity > 0);
            assert(0 <= amount && stack.quantity + amount <= usize::MAX);
        }
    }
}

/// Inserting a stack and deleting the whole stack of the slot it went to is a round
/// trip: where no stack took anything from the inserted one, that slot holds the
/// inserted stack as it was given, and what `delete_stack` hands back for the slot has
/// its quantity, its durability and a clone of its key. Where the slot was there
/// before the insertion, `delete_stack` leaves the slots as they were before it.
pub proof fn lemma_insert_then_delete_stack<
    K: PartialEq + Clone,
    S: SlotType,
    U: Default + PartialEq,
    D: Default,
>(
    inv: Inventory<K, S, U>,
    item: ItemInstance<K, U>,
    defs: Map<K, ItemDefinition<K, S, D>>,
    taken: ItemInstance<K, U>,
)
    requires
        pour_decided(inv.content@, item, defs),
        item.quantity > 0,
        pour_fits(inv.content@, item, defs),
        inv.room() is Some,
        inv.rest_of(item, defs).quantity == item.quantity,
        ({
            let held = inv.slots_after_insert(item, defs)[inv.room().unwrap()];
            held is Some && taken.taken_from(held.unwrap(), held.unwrap().quantity)
        }),
    ensures
        0 <= inv.room().unwrap() < inv.slots_after_insert(item, defs).len(),
        inv.slots_after_insert(item, defs)[inv.room().unwrap()] == Some(item),
        taken.quantity == item.quantity,
        taken.durability == item.durability,
        cloned(item.key, taken.key),
        inv.room().unwrap() < inv.content@.len() ==> slots_after_removal(
            inv.slots_after_insert(item, defs),
            inv.room().unwrap(),
            inv.move_to_front,
        ) == inv.content@,
{
    let idx = inv.room().unwrap();
    lemma_rest_keeps_identity(inv.content@, item, defs, inv.content@.len());
    lemma_nothing_left_out_nothing_taken(inv.content@, item, defs);
    if idx < inv.content@.len() {
        assert(inv.content@[idx] is None);
        assert(slots_after_removal(
            inv.slots_after_insert(item, defs),
            idx,
            inv.move_to_front,
        ) =~= inv.content@);
    }
}

} // verus!
