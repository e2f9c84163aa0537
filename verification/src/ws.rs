//! The parts of a paceman.gg run record that the decisions read.

use vstd::prelude::*;

verus! {

/// A run event reported for a random-seed run.
#[derive(PartialEq, Eq, Structural, Debug, Clone, Copy)]
pub enum EventId {
    RsgEnterNether,
    RsgEnterBastion,
    RsgEnterFortress,
    RsgFirstPortal,
    RsgEnterStronghold,
    RsgEnterEnd,
    RsgCredits,
    RsgTowerStart,
    RsgFindingStronghold,
    RsgObtainBlazeRod,
    RsgObtainObsidian,
    RsgObtainCryingObsidian,
    RsgLootBastion,
    /// Any event that none of the decisions reads.
    Other,
}

/// An advancement reported for an all-advancements run.
#[derive(PartialEq, Eq, Structural, Debug, Clone, Copy)]
pub enum AdvancementId {
    AdventureAdventuringTime,
    NetherAllEffects,
    NetherCreateFullBeacon,
    /// Any advancement that none of the decisions reads.
    Other,
}

/// One event of a run: what happened and the in-game time in milliseconds.
#[derive(PartialEq, Eq, Structural, Debug, Clone, Copy)]
pub struct Event {
    pub event_id: EventId,
    pub igt: u64,
}

/// One completed advancement of a run and its in-game time in milliseconds.
#[derive(PartialEq, Eq, Structural, Debug, Clone, Copy)]
pub struct Advancement {
    pub event_id: AdvancementId,
    pub igt: u64,
}

} // verus!
