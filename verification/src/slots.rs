//! The mathematics of slot sequences: what a sequence of slots holds of one key and
//! what it looks like after stacks are taken out of it or poured into it.

use crate::inventory::MoveToFrontMode;
use crate::item::{ItemDefinition, ItemInstance};
use vstd::prelude::*;
use vstd::std_specs::cmp::PartialEqSpec;

verus! {

/// Whether no slot of `content` holds a stack with quantity 0.
pub open spec fn all_stocked<K, U: Default>(content: Seq<Option<ItemInstance<K, U>>>) -> bool {
    forall|i: int|
        0 <= i < content.len() ==> match #[trigger] content[i] {
            Some(stack) => stack.quantity > 0,
            None => true,
        }
}

/// The slots left after the slot at `idx` is vacated under the policy `mode`.
pub open spec fn slots_after_removal<T>(
    content: Seq<Option<T>>,
    idx: int,
    mode: MoveToFrontMode,
) -> Seq<Option<T>>
    recommends
        0 <= idx < content.len(),
{
    match mode {
        MoveToFrontMode::Off => content.update(idx, None),
        MoveToFrontMode::TakeLast => content.update(idx, content.last()).drop_last().push(None),
        MoveToFrontMode::Offset => content.remove(idx).push(None),
    }
}

/// The slots left after `quantity` items are taken out of the stack in the occupied slot
/// `idx`: the stack shrinks, and a stack that is used up vacates its slot.
pub open spec fn slots_after_delete<K, U: Default>(
    content: Seq<Option<ItemInstance<K, U>>>,
    idx: int,
    quantity: usize,
    mode: MoveToFrontMode,
) -> Seq<Option<ItemInstance<K, U>>>
    recommends
        0 <= idx < content.len(),
        content[idx] is Some,
        content[idx].unwrap().quantity >= quantity,
{
    let stack = content[idx].unwrap();
    if stack.quantity == quantity {
        slots_after_removal(content, idx, mode)
    } else {
        content.update(
            idx,
            Some(ItemInstance { quantity: (stack.quantity - quantity) as usize, ..stack }),
        )
    }
}

/// The slots after `item` is stored in the empty slot `idx`. A stack with quantity 0
/// is not stored: nothing of it is there to hold.
pub open spec fn slots_after_store<K, U: Default>(
    content: Seq<Option<ItemInstance<K, U>>>,
    idx: int,
    item: ItemInstance<K, U>,
) -> Seq<Option<ItemInstance<K, U>>>
    recommends
        0 <= idx < content.len(),
        content[idx] is None,
{
    if item.quantity == 0 {
        content
    } else {
        content.update(idx, Some(item))
    }
}

/// Whether `idx` is the lowest index of an empty slot of `content`.
pub open spec fn is_first_hole<T>(content: Seq<Option<T>>, idx: int) -> bool {
    &&& 0 <= idx < content.len()
    &&& content[idx] is None
    &&& forall|j: int| 0 <= j < idx ==> (#[trigger] content[j]) is Some
}

/// The lowest index of an empty slot of `content`, if it has one.
pub open spec fn first_hole<T>(content: Seq<Option<T>>) -> Option<int> {
    if exists|i: int| is_first_hole(content, i) {
        Some(choose|i: int| is_first_hole(content, i))
    } else {
        None
    }
}

/// An empty slot with no empty slot before it is the first hole.
pub proof fn lemma_first_hole_is<T>(content: Seq<Option<T>>, idx: int)
    requires
        is_first_hole(content, idx),
    ensures
        first_hole(content) == Some(idx),
{
}

/// The quantity that a slot holds of the item `key`.
pub open spec fn slot_quantity<K: PartialEq, U: Default>(
    slot: Option<ItemInstance<K, U>>,
    key: K,
) -> nat {
    match slot {
        Some(stack) => if stack.key.eq_spec(&key) {
            stack.quantity as nat
        } else {
            0
        },
        None => 0,
    }
}

/// The sum of the quantities of all stacks of `content` with the key `key`.
pub open spec fn total_quantity<K: PartialEq, U: Default>(
    content: Seq<Option<ItemInstance<K, U>>>,
    key: K,
) -> nat
    decreases content.len(),
{
    if content.len() == 0 {
        0
    } else {
        total_quantity(content.drop_last(), key) + slot_quantity(content.last(), key)
    }
}

/// Whether some stack of `content` has the key `key`.
pub open spec fn holds_key<K: PartialEq, U: Default>(
    content: Seq<Option<ItemInstance<K, U>>>,
    key: K,
) -> bool {
    exists|i: int| 0 <= i < content.len() && has_key(#[trigger] content[i], key)
}

/// Whether `slot` holds a stack with the key `key`.
pub open spec fn has_key<K: PartialEq, U: Default>(
    slot: Option<ItemInstance<K, U>>,
    key: K,
) -> bool {
    slot matches Some(stack) && stack.key.eq_spec(&key)
}

/// The stacks of `content` with the key `key`, in slot order.
pub open spec fn stacks_of<K: PartialEq, U: Default>(
    content: Seq<Option<ItemInstance<K, U>>>,
    key: K,
) -> Seq<ItemInstance<K, U>>
    decreases content.len(),
{
    if content.len() == 0 {
        Seq::empty()
    } else if has_key(content.last(), key) {
        stacks_of(content.drop_last(), key).push(content.last().unwrap())
    } else {
        stacks_of(content.drop_last(), key)
    }
}

/// The slots of `content` with its stacks of the key `key` replaced, in slot order, by
/// `stacks`.
pub open spec fn slots_with_stacks<K: PartialEq, U: Default>(
    content: Seq<Option<ItemInstance<K, U>>>,
    key: K,
    stacks: Seq<ItemInstance<K, U>>,
) -> Seq<Option<ItemInstance<K, U>>>
    decreases content.len(),
{
    if content.len() == 0 {
        content
    } else if has_key(content.last(), key) {
        slots_with_stacks(content.drop_last(), key, stacks.drop_last()).push(Some(stacks.last()))
    } else {
        slots_with_stacks(content.drop_last(), key, stacks).push(content.last())
    }
}

/// Whether `idx` is the lowest index of a stack of `content` with the key `key`.
pub open spec fn is_first_match<K: PartialEq, U: Default>(
    content: Seq<Option<ItemInstance<K, U>>>,
    key: K,
    idx: int,
) -> bool {
    &&& 0 <= idx < content.len()
    &&& has_key(content[idx], key)
    &&& forall|j: int| 0 <= j < idx ==> !has_key(#[trigger] content[j], key)
}

/// The lowest index of a stack of `content` with the key `key`, if there is one.
pub open spec fn first_match<K: PartialEq, U: Default>(
    content: Seq<Option<ItemInstance<K, U>>>,
    key: K,
) -> Option<int> {
    if exists|i: int| is_first_match(content, key, i) {
        Some(choose|i: int| is_first_match(content, key, i))
    } else {
        None
    }
}

/// The slots left after `quantity` items of `key` are drained from `content`: the
/// lowest stack with that key gives what it has, vacating its slot when it is used
/// up, then the next lowest, until the quantity is reached.
pub open spec fn slots_after_drain<K: PartialEq, U: Default>(
    content: Seq<Option<ItemInstance<K, U>>>,
    key: K,
    quantity: nat,
    mode: MoveToFrontMode,
) -> Seq<Option<ItemInstance<K, U>>>
    decreases quantity,
{
    match first_match(content, key) {
        Some(idx) => {
            let stack = content[idx].unwrap();
            if quantity == 0 || stack.quantity == 0 {
                content
            } else if quantity < stack.quantity {
                content.update(
                    idx,
                    Some(ItemInstance { quantity: (stack.quantity - quantity) as usize, ..stack }),
                )
            } else {
                slots_after_drain(
                    slots_after_removal(content, idx, mode),
                    key,
                    (quantity - stack.quantity) as nat,
                    mode,
                )
            }
        },
        None => content,
    }
}

/// The quantity that `slot` takes when what is left of an incoming stack reaches it:
/// what a merge moves, once the incoming stack still holds something.
pub open spec fn pour_amount<K: PartialEq, U: Default + PartialEq, S, D: Default>(
    slot: Option<ItemInstance<K, U>>,
    rest: ItemInstance<K, U>,
    defs: Map<K, ItemDefinition<K, S, D>>,
) -> int {
    match slot {
        Some(stack) => if rest.quantity > 0 {
            stack.merge_amount(rest, defs)
        } else {
            0
        },
        None => 0,
    }
}

/// What is left of `item` after it was offered to the first `n` slots of `content`
/// in turn.
pub open spec fn rest_after<K: PartialEq, U: Default + PartialEq, S, D: Default>(
    content: Seq<Option<ItemInstance<K, U>>>,
    item: ItemInstance<K, U>,
    defs: Map<K, ItemDefinition<K, S, D>>,
    n: nat,
) -> ItemInstance<K, U>
    decreases n,
{
    if n == 0 {
        item
    } else {
        let rest = rest_after(content, item, defs, (n - 1) as nat);
        ItemInstance {
            quantity: (rest.quantity - pour_amount(content[n - 1], rest, defs)) as usize,
            ..rest
        }
    }
}

/// The slots after `item` was offered to each of them in turn: every stack has grown
/// by what it took.
pub open spec fn slots_after_pour<K: PartialEq, U: Default + PartialEq, S, D: Default>(
    content: Seq<Option<ItemInstance<K, U>>>,
    item: ItemInstance<K, U>,
    defs: Map<K, ItemDefinition<K, S, D>>,
) -> Seq<Option<ItemInstance<K, U>>> {
    Seq::new(
        content.len(),
        |i: int|
            match content[i] {
                Some(stack) => Some(
                    ItemInstance {
                        quantity: (stack.quantity + pour_amount(
                            content[i],
                            rest_after(content, item, defs, i as nat),
                            defs,
                        )) as usize,
                        ..stack
                    },
                ),
                None => None,
            },
    )
}

/// Whether `item` can be offered to the slot `idx` within machine limits, once it was
/// offered to the slots before: the stack of the slot can merge with what is left of
/// `item`. Where `==` on the user data does not obey its specification, what is left
/// cannot be told, and the stack can merge with all of `item`.
pub open spec fn pour_fits_at<K: PartialEq, U: Default + PartialEq, S, D: Default>(
    content: Seq<Option<ItemInstance<K, U>>>,
    item: ItemInstance<K, U>,
    defs: Map<K, ItemDefinition<K, S, D>>,
    idx: int,
) -> bool {
    match content[idx] {
        Some(stack) => if U::obeys_eq_spec() {
            let rest = rest_after(content, item, defs, idx as nat);
            rest.quantity > 0 ==> stack.merge_fits(rest, defs)
        } else {
            stack.merge_fits(item, defs)
        },
        None => true,
    }
}

/// Whether `item` can be offered to each slot in turn within machine limits.
pub open spec fn pour_fits<K: PartialEq, U: Default + PartialEq, S, D: Default>(
    content: Seq<Option<ItemInstance<K, U>>>,
    item: ItemInstance<K, U>,
    defs: Map<K, ItemDefinition<K, S, D>>,
) -> bool {
    forall|i: int| 0 <= i < content.len() ==> #[trigger] pour_fits_at(content, item, defs, i)
}

/// Whether the slot `idx` holds no stack that shares with `item` a key that the
/// catalog knows.
pub open spec fn shares_no_key_at<K: PartialEq, U: Default + PartialEq, S, D: Default>(
    content: Seq<Option<ItemInstance<K, U>>>,
    item: ItemInstance<K, U>,
    defs: Map<K, ItemDefinition<K, S, D>>,
    idx: int,
) -> bool {
    match content[idx] {
        Some(stack) => !stack.shares_key(item, defs),
        None => true,
    }
}

/// Whether what pouring `item` over `content` does can be told: `==` on the user data
/// obeys its specification, or its answer never matters, since no stack shares with
/// `item` a key that the catalog knows.
pub open spec fn pour_decided<K: PartialEq, U: Default + PartialEq, S, D: Default>(
    content: Seq<Option<ItemInstance<K, U>>>,
    item: ItemInstance<K, U>,
    defs: Map<K, ItemDefinition<K, S, D>>,
) -> bool {
    U::obeys_eq_spec() || forall|i: int|
        0 <= i < content.len() ==> #[trigger] shares_no_key_at(content, item, defs, i)
}

/// Whether `after` is what `before` may be once `item` was offered to the slot: an
/// empty slot is still empty, and a stack is the same stack with no less in it. A
/// stack that holds more shares a key with `item` and stays within its stack limit.
pub open spec fn slot_poured<K: PartialEq, U: Default + PartialEq, S, D: Default>(
    after: Option<ItemInstance<K, U>>,
    before: Option<ItemInstance<K, U>>,
    item: ItemInstance<K, U>,
    defs: Map<K, ItemDefinition<K, S, D>>,
) -> bool {
    match before {
        Some(stack) => {
            &&& after matches Some(grown)
            &&& grown == (ItemInstance { quantity: grown.quantity, ..stack })
            &&& grown.quantity >= stack.quantity
            &&& grown.quantity > stack.quantity ==> stack.shares_key(item, defs)
            &&& grown.quantity > stack.quantity ==> match defs[stack.key].maximum_stack {
                Some(cap) => grown.quantity <= cap,
                None => true,
            }
        },
        None => after is None,
    }
}

/// Whether `after` has the slots of `before`, each of them as it may be once `item`
/// was offered to it.
pub open spec fn slots_poured<K: PartialEq, U: Default + PartialEq, S, D: Default>(
    after: Seq<Option<ItemInstance<K, U>>>,
    before: Seq<Option<ItemInstance<K, U>>>,
    item: ItemInstance<K, U>,
    defs: Map<K, ItemDefinition<K, S, D>>,
) -> bool {
    &&& after.len() == before.len()
    &&& forall|i: int|
        0 <= i < before.len() ==> slot_poured(#[trigger] after[i], before[i], item, defs)
}

/// Sequences with the same empty slots have the same first hole.
pub proof fn lemma_first_hole_by_shape<T>(a: Seq<Option<T>>, b: Seq<Option<T>>)
    requires
        a.len() == b.len(),
        forall|i: int| 0 <= i < a.len() ==> ((#[trigger] a[i]) is None <==> b[i] is None),
    ensures
        first_hole(a) == first_hole(b),
{
    if exists|i: int| is_first_hole(a, i) {
        let found = choose|i: int| is_first_hole(a, i);
        assert forall|j: int| 0 <= j < found implies (#[trigger] b[j]) is Some by {
            assert(a[j] is Some);
        }
        lemma_first_hole_is(b, found);
    } else if exists|i: int| is_first_hole(b, i) {
        let found = choose|i: int| is_first_hole(b, i);
        assert(is_first_hole(a, found));
    }
}

/// Once nothing is left of the incoming stack, nothing is left later either.
pub proof fn lemma_rest_stays_empty<K: PartialEq, U: Default + PartialEq, S, D: Default>(
    content: Seq<Option<ItemInstance<K, U>>>,
    item: ItemInstance<K, U>,
    defs: Map<K, ItemDefinition<K, S, D>>,
    n: nat,
    m: nat,
)
    requires
        n <= m,
        rest_after(content, item, defs, n).quantity == 0,
    ensures
        rest_after(content, item, defs, m) == rest_after(content, item, defs, n),
    decreases m,
{
    if n < m {
        lemma_rest_stays_empty(content, item, defs, n, (m - 1) as nat);
    }
}

/// Replacing the stacks of a key neither adds nor removes a slot.
pub proof fn lemma_slots_with_stacks_len<K: PartialEq, U: Default>(
    content: Seq<Option<ItemInstance<K, U>>>,
    key: K,
    stacks: Seq<ItemInstance<K, U>>,
)
    ensures
        slots_with_stacks(content, key, stacks).len() == content.len(),
    decreases content.len(),
{
    if content.len() > 0 {
        if has_key(content.last(), key) {
            lemma_slots_with_stacks_len(content.drop_last(), key, stacks.drop_last());
        } else {
            lemma_slots_with_stacks_len(content.drop_last(), key, stacks);
        }
    }
}

/// A stack with the key and no such stack before it is the first match.
pub proof fn lemma_first_match_is<K: PartialEq, U: Default>(
    content: Seq<Option<ItemInstance<K, U>>>,
    key: K,
    idx: int,
)
    requires
        is_first_match(content, key, idx),
    ensures
        first_match(content, key) == Some(idx),
{
}

/// Appending a slot adds what it holds of the key.
pub proof fn lemma_total_push<K: PartialEq, U: Default>(
    content: Seq<Option<ItemInstance<K, U>>>,
    slot: Option<ItemInstance<K, U>>,
    key: K,
)
    ensures
        total_quantity(content.push(slot), key) == total_quantity(content, key) + slot_quantity(
            slot,
            key,
        ),
{
    assert(content.push(slot).drop_last() =~= content);
}

/// Replacing a slot exchanges what the old one held of the key for what the new one holds.
pub proof fn lemma_total_update<K: PartialEq, U: Default>(
    content: Seq<Option<ItemInstance<K, U>>>,
    idx: int,
    slot: Option<ItemInstance<K, U>>,
    key: K,
)
    requires
        0 <= idx < content.len(),
    ensures
        total_quantity(content.update(idx, slot), key) == total_quantity(content, key)
            - slot_quantity(content[idx], key) + slot_quantity(slot, key),
    decreases content.len(),
{
    let updated = content.update(idx, slot);
    if idx == content.len() - 1 {
        assert(updated.drop_last() =~= content.drop_last());
    } else {
        lemma_total_update(content.drop_last(), idx, slot, key);
        assert(updated.drop_last() =~= content.drop_last().update(idx, slot));
    }
}

/// Taking a slot out of the sequence subtracts what it held of the key.
pub proof fn lemma_total_remove<K: PartialEq, U: Default>(
    content: Seq<Option<ItemInstance<K, U>>>,
    idx: int,
    key: K,
)
    requires
        0 <= idx < content.len(),
    ensures
        total_quantity(content.remove(idx), key) == total_quantity(content, key) - slot_quantity(
            content[idx],
            key,
        ),
    decreases content.len(),
{
    if idx < content.len() - 1 {
        lemma_total_remove(content.drop_last(), idx, key);
        assert(content.remove(idx).drop_last() =~= content.drop_last().remove(idx));
    }
}

/// Vacating a slot subtracts what it held of the key, whatever the compaction policy.
pub proof fn lemma_total_removal<K: PartialEq, U: Default>(
    content: Seq<Option<ItemInstance<K, U>>>,
    idx: int,
    mode: MoveToFrontMode,
    key: K,
)
    requires
        0 <= idx < content.len(),
    ensures
        total_quantity(slots_after_removal(content, idx, mode), key) == total_quantity(
            content,
            key,
        ) - slot_quantity(content[idx], key),
{
    let none = None::<ItemInstance<K, U>>;
    match mode {
        MoveToFrontMode::Off => {
            lemma_total_update(content, idx, none, key);
        },
        MoveToFrontMode::TakeLast => {
            let swapped = content.update(idx, content.last());
            lemma_total_update(content, idx, content.last(), key);
            lemma_total_push(swapped.drop_last(), none, key);
        },
        MoveToFrontMode::Offset => {
            lemma_total_remove(content, idx, key);
            lemma_total_push(content.remove(idx), none, key);
        },
    }
}

/// The first `n + 1` slots hold what the first `n` hold and what slot `n` holds.
pub proof fn lemma_total_take<K: PartialEq, U: Default>(
    content: Seq<Option<ItemInstance<K, U>>>,
    n: int,
    key: K,
)
    requires
        0 <= n < content.len(),
    ensures
        total_quantity(content.take(n + 1), key) == total_quantity(content.take(n), key)
            + slot_quantity(content[n], key),
{
    assert(content.take(n + 1).drop_last() =~= content.take(n));
}

/// A prefix never holds more of a key than the whole sequence.
pub proof fn lemma_total_prefix<K: PartialEq, U: Default>(
    content: Seq<Option<ItemInstance<K, U>>>,
    n: int,
    key: K,
)
    requires
        0 <= n <= content.len(),
    ensures
        total_quantity(content.take(n), key) <= total_quantity(content, key),
    decreases content.len() - n,
{
    if n == content.len() {
        assert(content.take(n) =~= content);
    } else {
        lemma_total_take(content, n, key);
        lemma_total_prefix(content, n + 1, key);
    }
}

/// A sequence without a stack of the key holds nothing of it.
pub proof fn lemma_total_without_key<K: PartialEq, U: Default>(
    content: Seq<Option<ItemInstance<K, U>>>,
    key: K,
)
    requires
        forall|j: int| 0 <= j < content.len() ==> !has_key(#[trigger] content[j], key),
    ensures
        total_quantity(content, key) == 0,
    decreases content.len(),
{
    if content.len() > 0 {
        lemma_total_without_key(content.drop_last(), key);
    }
}

} // verus!
