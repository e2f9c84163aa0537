//! The splits of the all-advancements category.

use vstd::prelude::*;

use crate::text::{chars_eq_str, chars_of};

verus! {

#[derive(PartialEq, Eq, Structural, Debug, Clone, Copy)]
pub enum AaSplit {
    AdventuringTime,
    Beaconator,
    HDWGH,
    Finish,
}

impl AaSplit {
    /// The split named `s` in a command option.
    pub open spec fn from_param(s: Seq<char>) -> Option<AaSplit> {
        if s == "adventuring_time"@ {
            Some(AaSplit::AdventuringTime)
        } else if s == "beaconator"@ {
            Some(AaSplit::Beaconator)
        } else if s == "hdwgh"@ {
            Some(AaSplit::HDWGH)
        } else {
            None
        }
    }

    pub fn from_command_param(param: &str) -> (r: Option<AaSplit>)
        ensures
            r == AaSplit::from_param(param@),
    {
        let v = chars_of(param);
        if chars_eq_str(&v, "adventuring_time") {
            Some(AaSplit::AdventuringTime)
        } else if chars_eq_str(&v, "beaconator") {
            Some(AaSplit::Beaconator)
        } else if chars_eq_str(&v, "hdwgh") {
            Some(AaSplit::HDWGH)
        } else {
            None
        }
    }
}

} // verus!
