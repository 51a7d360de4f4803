//! Gameplay building blocks: item stacks, a shared item catalog and slot-based inventories,
//! with the small types that games hang on them.
//!
//! - `item`: item definitions, the catalog that finds them by key, item stacks and how
//!   they merge.
//! - `inventory`: the inventory and its operations.
//! - `slots`: the mathematics of slot sequences that the contracts of the inventory
//!   are stated in.
//! - `laws`: what holds across several operations.
//! - `loot_tree`: weighted random picks.
//! - `tier`, `unlock`, `user`, `user_group`, `faction`, `item_transition`: small types.
//!
//! The contracts speak of `==` on keys and user data through the specification that
//! `vstd` gives it (`obeys_eq_spec`, `eq_spec`), and of the catalog through the model
//! that `vstd` has of hash maps (`obeys_key_model`). Keys must obey both. User data
//! may be of any type. The contracts of merging and inserting are exact where its `==`
//! obeys its specification, and where its answer does not matter because no stack
//! shares a key with the incoming one. Otherwise, as for `()`, of whose `==` `vstd`
//! says nothing, they state what holds of every outcome.

pub mod faction;
pub mod inventory;
pub mod item;
pub mod item_transition;
pub mod laws;
pub mod loot_tree;
pub mod slots;
pub mod tier;
pub mod unlock;
pub mod user;
pub mod user_group;

pub use crate::faction::{FactionError, FactionFlags, FactionResult};
pub use crate::inventory::{Inventory, InventorySizingMode, ItemError, MoveToFrontMode};
pub use crate::item::{ItemDefinition, ItemDefinitions, ItemInstance, SlotType};
pub use crate::item_transition::ConditionLostReaction;
pub use crate::loot_tree::{LootTree, LootTreeBuilder, LootTreeNode};
pub use crate::tier::{LevelFor, Leveled, Tiered};
pub use crate::unlock::{Unlockable, Unlockables};
pub use crate::user::{User, UserRepository};
pub use crate::user_group::{UserGroup, UserGroupSettings};
