//! The split a run has reached.

use vstd::prelude::*;

use crate::cache::split::Split;
use crate::ws::Event;

verus! {

#[derive(PartialEq, Eq, Structural, Debug, Clone, Copy)]
pub struct RunInfo {
    pub split: Split,
}

impl Default for RunInfo {
    fn default() -> (r: Self)
        ensures
            r == (RunInfo { split: Split::TowerStart }),
    {
        Self { split: Split::TowerStart }
    }
}

impl RunInfo {
    /// The split that the run's last event reaches, if any.
    pub fn from_last_event(last_event: &Event) -> (r: Option<Self>)
        ensures
            r == match Split::from_event(last_event.event_id) {
                Some(split) => Some(RunInfo { split }),
                None => None,
            },
    {
        let split = match Split::from_event_id(&last_event.event_id) {
            Some(s) => s,
            None => return None,
        };
        Some(RunInfo { split })
    }
}

} // verus!
