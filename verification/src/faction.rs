//! Factions: teams with the ability to claim ownership over terrain.

use vstd::prelude::*;

verus! {

/// Flags that modify how a faction behaves and how the claimed terrain behaves.
pub struct FactionFlags {
    /// You can steal terrain from this faction.
    pub claimable: bool,
    /// Player attacks are enabled in claimed terrain.
    pub pvp_enabled: bool,
    /// You lose power on death in claimed terrain.
    pub power_loss_in_territory: bool,
    /// You can gain power in claimed terrain.
    pub power_gain_in_territory: bool,
    /// If true, will not destroy the faction once all players leaved the faction.
    pub permanent: bool,
}

/// Result of faction methods that can fail.
pub type FactionResult = Result<(), FactionError>;

/// Errors that can occur while using factions.
#[derive(Debug)]
pub enum FactionError {
    /// You don't have enough power to claim terrain.
    NotEnoughPower,
    /// You cannot claim this terrain.
    Unclaimable,
    /// The pvp is not allowed in this terrain.
    PvpDenied,
    /// You cannot use an item in this terrain.
    UseDenied,
}

} // verus!
