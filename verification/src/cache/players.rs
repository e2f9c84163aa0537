//! A whitelisted runner's thresholds in the all-advancements category.

use vstd::prelude::*;

use crate::cache::aa_split::AaSplit;

verus! {

/// A runner's thresholds, in minutes, per split.
#[derive(PartialEq, Eq, Structural, Debug, Clone, Copy)]
pub struct PlayerSplitsData {
    pub adventuring_time: u32,
    pub beaconator: u32,
    pub hdwgh: u32,
    pub finish: Option<u32>,
}

impl PlayerSplitsData {
    /// The threshold for a split; the finish has one only where it is set.
    pub open spec fn threshold(self, split: AaSplit) -> Option<u32> {
        match split {
            AaSplit::AdventuringTime => Some(self.adventuring_time),
            AaSplit::Beaconator => Some(self.beaconator),
            AaSplit::HDWGH => Some(self.hdwgh),
            AaSplit::Finish => self.finish,
        }
    }

    pub fn default() -> (r: Self)
        ensures
            r == (PlayerSplitsData { adventuring_time: 0, beaconator: 0, hdwgh: 0, finish: None }),
    {
        Self { adventuring_time: 0, beaconator: 0, hdwgh: 0, finish: None }
    }

    pub fn get(&self, split: &AaSplit) -> (r: Option<u32>)
        ensures
            r == self.threshold(*split),
    {
        match split {
            AaSplit::AdventuringTime => Some(self.adventuring_time),
            AaSplit::Beaconator => Some(self.beaconator),
            AaSplit::HDWGH => Some(self.hdwgh),
            _ => self.finish,
        }
    }
}

} // verus!
