//! Transitions from items into other items, such as crafting.

use vstd::prelude::*;

verus! {

/// What happens when the transition is stopped or conditions aren't met anymore for it to
/// continue.
#[derive(Clone, Debug)]
pub enum ConditionLostReaction {
    /// Nothing happens, the transition continues.
    Ignore,
    /// The transition pauses and keeps its progress.
    Pause,
    /// The transition is cancelled and all progress is lost.
    /// If the inputs were consumed at the start, they are not returned.
    Cancel,
}

} // verus!
