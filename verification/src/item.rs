//! Item definitions, item stacks and the catalog that maps keys to definitions.

use std::collections::HashMap;
use std::hash::Hash;
use vstd::prelude::*;
use vstd::std_specs::cmp::PartialEqSpec;
use vstd::std_specs::convert::FromSpecImpl;
use vstd::std_specs::hash::obeys_key_model;

verus! {

/// The static properties shared by every stack of one kind of item.
#[derive(Clone, Debug)]
pub struct ItemDefinition<K, S, D: Default> {
    /// The key identifying this item definition.
    pub key: K,
    /// The type / item group that this item definition is part of.
    pub slot_type: S,
    /// The display name.
    pub name: String,
    /// The name used to find the item by name instead of by key.
    pub friendly_name: String,
    /// The display description.
    pub description: String,
    /// The largest quantity one stack may hold. `None` means unlimited.
    pub maximum_stack: Option<usize>,
    /// The durability new stacks start with. `None` means unbreakable.
    pub maximum_durability: Option<usize>,
    /// Custom data attached to the definition.
    pub user_data: D,
}

/// A stack of items of one kind.
#[derive(Clone, Debug)]
pub struct ItemInstance<K, U: Default> {
    /// The key of the `ItemDefinition` describing this stack.
    pub key: K,
    /// The number of items in the stack.
    pub quantity: usize,
    /// The remaining durability, if the item can break.
    pub durability: Option<usize>,
    /// Custom data attached to this stack.
    pub user_data: U,
}

/// The catalog: every known `ItemDefinition`, found by key.
#[derive(Clone)]
pub struct ItemDefinitions<K: Hash + Eq, S, D: Default> {
    /// The definitions.
    pub defs: HashMap<K, ItemDefinition<K, S, D>>,
}

impl<K: Hash + Eq, S, D: Default> View for ItemDefinitions<K, S, D> {
    type V = Map<K, ItemDefinition<K, S, D>>;

    open spec fn view(&self) -> Map<K, ItemDefinition<K, S, D>> {
        self.defs@
    }
}

/// Whether a clone of a `T` always is the value that it was made from.
pub open spec fn clones_exactly<T: Clone>() -> bool {
    forall|a: T, b: T| #[trigger] cloned(a, b) ==> a == b
}

/// The catalog that holds each definition of `defs` under its key. Of two definitions
/// with the same key the later one stays.
pub open spec fn catalog_of<K, S, D: Default>(defs: Seq<ItemDefinition<K, S, D>>) -> Map<
    K,
    ItemDefinition<K, S, D>,
>
    decreases defs.len(),
{
    if defs.len() == 0 {
        Map::empty()
    } else {
        catalog_of(defs.drop_last()).insert(defs.last().key, defs.last())
    }
}

impl<K, S, D: Default> ItemDefinition<K, S, D> {
    /// Creates a definition that carries default user data.
    pub fn new(
        key: K,
        slot_type: S,
        name: String,
        friendly_name: String,
        description: String,
        maximum_stack: Option<usize>,
        maximum_durability: Option<usize>,
    ) -> (def: Self)
        ensures
            def.key == key,
            def.slot_type == slot_type,
            def.name == name,
            def.friendly_name == friendly_name,
            def.description == description,
            def.maximum_stack == maximum_stack,
            def.maximum_durability == maximum_durability,
            call_ensures(D::default, (), def.user_data),
    {
        ItemDefinition {
            key,
            slot_type,
            name,
            friendly_name,
            description,
            maximum_stack,
            maximum_durability,
            user_data: D::default(),
        }
    }
}

impl<K: Hash + Eq, S, D: Default> ItemDefinitions<K, S, D> {
    /// Creates a catalog out of definitions that are already mapped by key.
    pub fn new(defs: HashMap<K, ItemDefinition<K, S, D>>) -> (catalog: Self)
        ensures
            catalog.defs == defs,
    {
        ItemDefinitions { defs }
    }
}

impl<K: Hash + Eq, S, D: Default> Default for ItemDefinitions<K, S, D> {
    /// Creates an empty catalog.
    fn default() -> (catalog: Self)
        ensures
            catalog@ == Map::<K, ItemDefinition<K, S, D>>::empty(),
    {
        ItemDefinitions { defs: HashMap::new() }
    }
}

/// A catalog holds a hash map, of which there is no value in specifications: what
/// `from` builds is stated in its own contract, over the view of the catalog.
impl<K: Hash + Eq + Clone, S, D: Default> FromSpecImpl<
    Vec<ItemDefinition<K, S, D>>,
> for ItemDefinitions<K, S, D> {
    open spec fn obeys_from_spec() -> bool {
        false
    }

    open spec fn from_spec(t: Vec<ItemDefinition<K, S, D>>) -> Self {
        arbitrary()
    }
}

impl<K: Hash + Eq + Clone, S, D: Default> From<
    Vec<ItemDefinition<K, S, D>>,
> for ItemDefinitions<K, S, D> {
    /// Builds the catalog that holds each definition under a clone of its key. Of two
    /// definitions with the same key the later one stays.
    fn from(t: Vec<ItemDefinition<K, S, D>>) -> (catalog: Self)
        ensures
            obeys_key_model::<K>() && clones_exactly::<K>() ==> catalog@ == catalog_of(t@),
    {
        let ghost all = t@;
        let mut defs: HashMap<K, ItemDefinition<K, S, D>> = HashMap::new();
        for def in iter: t
            invariant
                iter.seq() == all,
                obeys_key_model::<K>() && clones_exactly::<K>() ==> defs@ == catalog_of(
                    all.take(iter.index() as int),
                ),
        {
            proof {
                let done = iter.index() as int;
                assert(all.take(done + 1).drop_last() =~= all.take(done));
            }
            let key = def.key.clone();
            assert(cloned(def.key, key));
            defs.insert(key, def);
        }
        proof {
            assert(all.take(all.len() as int) =~= all);
        }
        ItemDefinitions { defs }
    }
}

impl<K, U: Default> ItemInstance<K, U> {
    /// Creates a stack of `quantity` items that cannot break and carries default user data.
    pub fn new(key: K, quantity: usize) -> (stack: Self)
        ensures
            stack.key == key,
            stack.quantity == quantity,
            stack.durability is None,
            call_ensures(U::default, (), stack.user_data),
    {
        ItemInstance { key, quantity, durability: None, user_data: U::default() }
    }

    /// Whether `self` is what taking `quantity` items out of `source` hands back:
    /// a stack of that quantity with a clone of the key, the durability of `source`
    /// and default user data.
    pub open spec fn taken_from(self, source: Self, quantity: usize) -> bool where K: Clone {
        &&& cloned(source.key, self.key)
        &&& self.quantity == quantity
        &&& self.durability == source.durability
        &&& call_ensures(U::default, (), self.user_data)
    }
}

impl<K: PartialEq, U: Default + PartialEq> ItemInstance<K, U> {
    /// Whether `self` and `other` have equal keys that the catalog knows.
    pub open spec fn shares_key<S, D: Default>(
        self,
        other: Self,
        defs: Map<K, ItemDefinition<K, S, D>>,
    ) -> bool {
        self.key.eq_spec(&other.key) && defs.contains_key(self.key)
    }

    /// Whether `other` may be poured into `self`: they have equal keys that the
    /// catalog knows, and equal user data.
    pub open spec fn stacks_with<S, D: Default>(
        self,
        other: Self,
        defs: Map<K, ItemDefinition<K, S, D>>,
    ) -> bool {
        self.shares_key(other, defs) && self.user_data.eq_spec(&other.user_data)
    }

    /// Whether it cannot be ruled out that `other` is poured into `self`: they share
    /// a key and, where `==` on the user data obeys its specification, have equal
    /// user data.
    pub open spec fn may_stack_with<S, D: Default>(
        self,
        other: Self,
        defs: Map<K, ItemDefinition<K, S, D>>,
    ) -> bool {
        self.shares_key(other, defs) && (U::obeys_eq_spec() ==> self.user_data.eq_spec(
            &other.user_data,
        ))
    }

    /// Whether it can be told what a merge of `other` into `self` moves: `==` on the
    /// user data obeys its specification, or its answer does not matter, since the
    /// stacks share no key that the catalog knows.
    pub open spec fn merge_decided<S, D: Default>(
        self,
        other: Self,
        defs: Map<K, ItemDefinition<K, S, D>>,
    ) -> bool {
        U::obeys_eq_spec() || !self.shares_key(other, defs)
    }

    /// The quantity that goes from `other` into `self` where `other` is poured into
    /// it: up to the stack limit of the definition, or everything without one.
    pub open spec fn poured_amount<S, D: Default>(
        self,
        other: Self,
        defs: Map<K, ItemDefinition<K, S, D>>,
    ) -> int {
        match defs[self.key].maximum_stack {
            Some(cap) => if cap - self.quantity <= other.quantity {
                cap - self.quantity
            } else {
                other.quantity as int
            },
            None => other.quantity as int,
        }
    }

    /// The quantity that a merge moves from `other` into `self`.
    pub open spec fn merge_amount<S, D: Default>(
        self,
        other: Self,
        defs: Map<K, ItemDefinition<K, S, D>>,
    ) -> int {
        if self.stacks_with(other, defs) {
            self.poured_amount(other, defs)
        } else {
            0
        }
    }

    /// Whether a merge of `other` into `self` stays within machine limits: where
    /// it cannot be ruled out that `other` is poured into `self`, `self` does not
    /// exceed its stack limit or, without a limit, both fit in one stack.
    pub open spec fn merge_fits<S, D: Default>(
        self,
        other: Self,
        defs: Map<K, ItemDefinition<K, S, D>>,
    ) -> bool {
        self.may_stack_with(other, defs) ==> match defs[self.key].maximum_stack {
            Some(cap) => self.quantity <= cap,
            None => self.quantity + other.quantity <= usize::MAX,
        }
    }
}

impl<K: Eq + Hash, U: Default + PartialEq> ItemInstance<K, U> {
    /// Moves as much quantity from `other` into `self` as the stack limit allows.
    ///
    /// Nothing moves unless both stacks have equal keys and equal user data and the
    /// catalog knows the key. The stack limit of the definition then bounds what `self`
    /// may hold, and `self` must not exceed it already; without a limit everything
    /// moves, and the sum must fit in a `usize`. A stack that gave everything is left
    /// with quantity 0: it is up to the caller to drop it.
    ///
    /// How much moves is stated exactly where `==` on the user data obeys its
    /// specification, or where the stacks share no key that the catalog knows. For
    /// other user data, of which `()` is one, it cannot be told whether stacks with a
    /// shared key merge. Whatever `==` does, the sum of both quantities stays, `self`
    /// takes nothing or what pouring gives, and `self` stays within the stack limit.
    pub fn merge<S, U2: Default>(
        &mut self,
        other: &mut Self,
        item_defs: &ItemDefinitions<K, S, U2>,
    )
        requires
            obeys_key_model::<K>(),
            K::obeys_eq_spec(),
            old(self).merge_fits(*old(other), item_defs@),
        ensures
            old(self).merge_decided(*old(other), item_defs@) ==> final(self).quantity == old(
                self,
            ).quantity + old(self).merge_amount(*old(other), item_defs@),
            final(self).quantity == old(self).quantity || (old(self).shares_key(
                *old(other),
                item_defs@,
            ) && final(self).quantity == old(self).quantity + old(self).poured_amount(
                *old(other),
                item_defs@,
            )),
            final(self).quantity + final(other).quantity == old(self).quantity + old(
                other,
            ).quantity,
            old(self).may_stack_with(*old(other), item_defs@) ==> match item_defs@[old(
                self,
            ).key].maximum_stack {
                Some(cap) => final(self).quantity <= cap,
                None => true,
            },
            final(self).key == old(self).key,
            final(self).durability == old(self).durability,
            final(self).user_data == old(self).user_data,
            final(other).key == old(other).key,
            final(other).durability == old(other).durability,
            final(other).user_data == old(other).user_data,
    {
        if self.key == other.key && self.user_data == other.user_data {
            if let Some(def) = item_defs.defs.get(&self.key) {
                let can_take: usize = match def.maximum_stack {
                    Some(cap) => {
                        let room: usize = cap - self.quantity;
                        if room <= other.quantity {
                            room
                        } else {
                            other.quantity
                        }
                    },
                    None => other.quantity,
                };
                self.quantity += can_take;
                other.quantity -= can_take;
            }
        }
    }
}

/// A trait defining which items can be inserted into each inventory slot type.
pub trait SlotType {
    /// Checks if the provided item type can be inserted in this slot type.
    fn can_insert_into(&self, item_type: &Self) -> bool;
}

impl SlotType for () {
    fn can_insert_into(&self, _item_type: &Self) -> (allowed: bool)
        ensures
            allowed,
    {
        true
    }
}

} // verus!
