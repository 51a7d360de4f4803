//! Tiers and levels that can be attached to any element.

use vstd::prelude::*;

verus! {

/// Tiered element.
/// Simply adds a numerical value to any element.
pub struct Tiered<T> {
    /// The numerical tier.
    pub tier: u32,
    /// The element that has a tier.
    pub element: T,
}

/// A levelable element.
/// It can be anything: an item, a player, a monster, a skill.
pub struct Leveled<T: LevelFor> {
    /// The experience that this has accumulated.
    pub accumulated_xp: u32,
    /// The inner element that is leveled.
    pub element: T,
}

/// A trait that can calculate the level for something that can accumulate experience.
pub trait LevelFor {
    /// Returns the level that you have using the amount of experience.
    fn level_for_xp(&self, xp: u32) -> u32;
}

impl<T: LevelFor> Leveled<T> {
    /// The current level: what the element makes of the accumulated experience.
    pub fn level(&self) -> (level: u32)
        ensures
            call_ensures(T::level_for_xp, (&self.element, self.accumulated_xp), level),
    {
        self.element.level_for_xp(self.accumulated_xp)
    }
}

} // verus!
