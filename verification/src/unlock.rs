//! Elements that are kept behind a lock until they are unlocked.

use std::collections::HashMap;
use std::hash::Hash;
use vstd::prelude::*;

verus! {

/// An unlockable element.
/// It can be unlocked to access the inner value once the conditions that it carries are
/// met and the unlockables that it depends on were unlocked.
///
/// # Generics
/// - U: Key of the unlockable
/// - K: The thing that is unlocked
/// - S: A condition on stats
/// - I: A condition on items
#[derive(Debug, Clone)]
pub struct Unlockable<U, K, S, I> {
    /// The key of this unlockable.
    pub id: U,
    /// The thing we want to unlock access to.
    pub inner: K,
    /// Whether we unlocked it or not.
    pub is_unlocked: bool,
    /// The stat conditions required to unlock this element.
    pub unlock_stat_conditions: Vec<S>,
    /// The item conditions required to unlock this element.
    pub unlock_item_conditions: Vec<I>,
    /// A list of other unlockables upon which this one depends.
    /// If Unlockable B depends on A, then A must be unlocked before B can be unlocked.
    pub unlock_dependencies: Vec<U>,
}

/// A structure holding all unlockables.
#[derive(Debug, Clone)]
pub struct Unlockables<U: Hash + Eq, K, S, I> {
    /// The unlockables we are holding.
    pub unlockables: HashMap<U, Unlockable<U, K, S, I>>,
}

impl<U, K, S, I> Unlockable<U, K, S, I> {
    /// Creates an unlockable without conditions or dependencies.
    pub fn new(id: U, inner: K, is_unlocked: bool) -> (unlockable: Self)
        ensures
            unlockable.id == id,
            unlockable.inner == inner,
            unlockable.is_unlocked == is_unlocked,
            unlockable.unlock_stat_conditions@ == Seq::<S>::empty(),
            unlockable.unlock_item_conditions@ == Seq::<I>::empty(),
            unlockable.unlock_dependencies@ == Seq::<U>::empty(),
    {
        Unlockable {
            id,
            inner,
            is_unlocked,
            unlock_stat_conditions: Vec::new(),
            unlock_item_conditions: Vec::new(),
            unlock_dependencies: Vec::new(),
        }
    }

    /// Returns Some with the inner value if is_unlocked = true.
    /// Otherwise returns None.
    pub fn try_get(&self) -> (inner: Option<&K>)
        ensures
            inner == if self.is_unlocked {
                Some(&self.inner)
            } else {
                None
            },
    {
        if self.is_unlocked {
            Some(&self.inner)
        } else {
            None
        }
    }

    /// Returns Some with the inner value if is_unlocked = true.
    /// Otherwise returns None. What the caller writes through the reference becomes the
    /// inner value.
    pub fn try_get_mut(&mut self) -> (inner: Option<&mut K>)
        ensures
            final(self).id == old(self).id,
            final(self).is_unlocked == old(self).is_unlocked,
            final(self).unlock_stat_conditions == old(self).unlock_stat_conditions,
            final(self).unlock_item_conditions == old(self).unlock_item_conditions,
            final(self).unlock_dependencies == old(self).unlock_dependencies,
            if old(self).is_unlocked {
                &&& inner matches Some(held)
                &&& *held == old(self).inner
                &&& final(self).inner == *final(held)
            } else {
                &&& inner is None
                &&& final(self).inner == old(self).inner
            },
    {
        if self.is_unlocked {
            Some(&mut self.inner)
        } else {
            None
        }
    }

    /// Returns the inner value without checking the lock.
    pub fn get(&self) -> (inner: &K)
        ensures
            *inner == self.inner,
    {
        &self.inner
    }

    /// Returns the inner value without checking the lock. What the caller writes
    /// through the reference becomes the inner value.
    pub fn get_mut(&mut self) -> (inner: &mut K)
        ensures
            *inner == old(self).inner,
            final(self).inner == *final(inner),
            final(self).id == old(self).id,
            final(self).is_unlocked == old(self).is_unlocked,
            final(self).unlock_stat_conditions == old(self).unlock_stat_conditions,
            final(self).unlock_item_conditions == old(self).unlock_item_conditions,
            final(self).unlock_dependencies == old(self).unlock_dependencies,
    {
        &mut self.inner
    }

    /// Inserts a new value without changing the lock.
    pub fn set(&mut self, new: K)
        ensures
            *final(self) == (Unlockable { inner: new, ..*old(self) }),
    {
        self.inner = new;
    }

    /// Locks the inner value: `try_get` and `try_get_mut` give nothing from now on.
    pub fn lock(&mut self)
        ensures
            *final(self) == (Unlockable { is_unlocked: false, ..*old(self) }),
    {
        self.is_unlocked = false;
    }

    /// Unlocks the inner value: `try_get` and `try_get_mut` give it from now on.
    pub fn unlock(&mut self)
        ensures
            *final(self) == (Unlockable { is_unlocked: true, ..*old(self) }),
    {
        self.is_unlocked = true;
    }

    /// Verifies if the inner value is unlocked.
    pub fn is_unlocked(&self) -> (unlocked: bool)
        ensures
            unlocked == self.is_unlocked,
    {
        self.is_unlocked
    }
}

impl<U: Hash + Eq, K, S, I> Unlockables<U, K, S, I> {
    /// Creates the structure out of unlockables that are already mapped by key.
    pub fn new(unlockables: HashMap<U, Unlockable<U, K, S, I>>) -> (all: Self)
        ensures
            all.unlockables == unlockables,
    {
        Unlockables { unlockables }
    }
}

impl<U: Hash + Eq, K, S, I> Default for Unlockables<U, K, S, I> {
    /// Creates a structure that holds no unlockable.
    fn default() -> (all: Self)
        ensures
            all.unlockables@ == Map::<U, Unlockable<U, K, S, I>>::empty(),
    {
        Unlockables { unlockables: HashMap::new() }
    }
}

} // verus!
