//! Whether an advancement is pace, a completion, or neither.

use vstd::prelude::*;

use crate::dispatcher::consts::TOTAL_ADVANCEMENTS_116;
use crate::ws::{Advancement, AdvancementId};

verus! {

#[derive(PartialEq, Eq, Structural, Debug, Clone, Copy)]
pub enum EventType {
    NonPaceEvent,
    PaceEvent,
    Unknown,
}

impl EventType {
    /// The kind of a run's last advancement, given how many advancements the
    /// run has completed.
    pub open spec fn of_advancement(id: AdvancementId, completed: usize) -> EventType {
        match id {
            AdvancementId::AdventureAdventuringTime | AdvancementId::NetherAllEffects
            | AdvancementId::NetherCreateFullBeacon => EventType::PaceEvent,
            _ => if completed == TOTAL_ADVANCEMENTS_116 {
                EventType::NonPaceEvent
            } else {
                EventType::Unknown
            },
        }
    }

    pub fn from_advancement(last_advancement: &Advancement, completed: usize) -> (r: Self)
        ensures
            r == EventType::of_advancement(last_advancement.event_id, completed),
    {
        match last_advancement.event_id {
            AdvancementId::AdventureAdventuringTime | AdvancementId::NetherAllEffects
            | AdvancementId::NetherCreateFullBeacon => EventType::PaceEvent,
            _ => {
                if completed == TOTAL_ADVANCEMENTS_116 {
                    EventType::NonPaceEvent
                } else {
                    EventType::Unknown
                }
            },
        }
    }
}

} // verus!
