//! The split that an all-advancements run has reached.

use vstd::prelude::*;

use crate::cache::aa_split::AaSplit;
use crate::dispatcher::consts::TOTAL_ADVANCEMENTS_116;
use crate::ws::{Advancement, AdvancementId};

verus! {

/// What the split decision reads of an all-advancements run record.
pub struct AaRecord {
    /// The advancements completed so far.
    pub completed: Vec<AdvancementId>,
    /// How many thunderstorms are still needed.
    pub thunder: usize,
    /// How many phantoms are still needed.
    pub phantoms: usize,
    pub shells: u32,
    pub has_enchanted_golden_apple: bool,
    pub skulls: u32,
    pub gold_blocks: u32,
    pub ancient_debris: u32,
}

#[derive(PartialEq, Eq, Structural, Debug, Clone, Copy)]
pub struct AaRunInfo {
    pub split: AaSplit,
}

/// The split a run has reached with this last advancement: a completion of
/// all advancements is a finish; adventuring time is pace when at least 30
/// advancements are done and the run has what the rest needs; beaconator and
/// "how did we get here" are pace when at least 50 are done, adventuring time
/// is among them, and the run has what the rest needs.
pub open spec fn aa_run_split(
    completed: Seq<AdvancementId>,
    thunder: usize,
    phantoms: usize,
    shells: u32,
    notch: bool,
    skulls: u32,
    gold_blocks: u32,
    debris: u32,
    last: AdvancementId,
) -> Option<AaSplit> {
    let n = completed.len();
    let thunder_check = thunder == 0;
    let phantom_check = phantoms == 0;
    let at_check = completed.contains(AdvancementId::AdventureAdventuringTime);
    match last {
        AdvancementId::AdventureAdventuringTime => if n < 30 {
            None
        } else if n == TOTAL_ADVANCEMENTS_116 {
            Some(AaSplit::Finish)
        } else if !(thunder_check && shells >= 1 && notch && phantom_check && skulls == 3 && gold_blocks >= 1) {
            None
        } else {
            Some(AaSplit::AdventuringTime)
        },
        AdvancementId::NetherCreateFullBeacon => if n < 50 {
            None
        } else if n == TOTAL_ADVANCEMENTS_116 {
            Some(AaSplit::Finish)
        } else if !(thunder_check && at_check && debris >= 1 && phantom_check) {
            None
        } else {
            Some(AaSplit::Beaconator)
        },
        AdvancementId::NetherAllEffects => if n < 50 {
            None
        } else if n == TOTAL_ADVANCEMENTS_116 {
            Some(AaSplit::Finish)
        } else if !(thunder_check && at_check && debris >= 1 && phantom_check) {
            None
        } else {
            Some(AaSplit::HDWGH)
        },
        _ => if n == TOTAL_ADVANCEMENTS_116 {
            Some(AaSplit::Finish)
        } else {
            None
        },
    }
}

/// The split that a run record has reached with its last advancement.
pub fn get_run_info(response: &AaRecord, last_advancement: &Advancement) -> (r: Option<AaRunInfo>)
    ensures
        r == match aa_run_split(
            response.completed@,
            response.thunder,
            response.phantoms,
            response.shells,
            response.has_enchanted_golden_apple,
            response.skulls,
            response.gold_blocks,
            response.ancient_debris,
            last_advancement.event_id,
        ) {
            Some(split) => Some(AaRunInfo { split }),
            None => None,
        },
{
    let num_advancements = response.completed.len();
    let thunder_check = response.thunder == 0;
    let notch_check = response.has_enchanted_golden_apple;
    let phantom_check = response.phantoms == 0;
    let shells_check = response.shells >= 1;
    let skulls_check = response.skulls == 3;
    let gold_blocks_check = response.gold_blocks >= 1;
    let debris_check = response.ancient_debris >= 1;
    let mut adventuring_time_check = false;
    for i in 0..response.completed.len()
        invariant
            adventuring_time_check == exists|j: int| 0 <= j < i && response.completed@[j]
                == AdvancementId::AdventureAdventuringTime,
    {
        if response.completed[i] == AdvancementId::AdventureAdventuringTime {
            adventuring_time_check = true;
        }
    }
    assert(adventuring_time_check == response.completed@.contains(AdvancementId::AdventureAdventuringTime));
    match last_advancement.event_id {
        AdvancementId::AdventureAdventuringTime => {
            if num_advancements < 30 {
                return None;
            }
            if num_advancements == TOTAL_ADVANCEMENTS_116 {
                return Some(AaRunInfo { split: AaSplit::Finish });
            }
            if !(thunder_check && shells_check && notch_check && phantom_check && skulls_check
                && gold_blocks_check) {
                return None;
            }
            Some(AaRunInfo { split: AaSplit::AdventuringTime })
        },
        AdvancementId::NetherCreateFullBeacon => {
            if num_advancements < 50 {
                return None;
            }
            if num_advancements == TOTAL_ADVANCEMENTS_116 {
                return Some(AaRunInfo { split: AaSplit::Finish });
            }
            if !(thunder_check && adventuring_time_check && debris_check && phantom_check) {
                return None;
            }
            Some(AaRunInfo { split: AaSplit::Beaconator })
        },
        AdvancementId::NetherAllEffects => {
            if num_advancements < 50 {
                return None;
            }
            if num_advancements == TOTAL_ADVANCEMENTS_116 {
                return Some(AaRunInfo { split: AaSplit::Finish });
            }
            if !(thunder_check && adventuring_time_check && debris_check && phantom_check) {
                return None;
            }
            Some(AaRunInfo { split: AaSplit::HDWGH })
        },
        _ => {
            if num_advancements == TOTAL_ADVANCEMENTS_116 {
                return Some(AaRunInfo { split: AaSplit::Finish });
            }
            None
        },
    }
}

/// Each split follows its own advancement. A run that has every
/// advancement is a finish, whatever came last, and only such a run is; a
/// pace split is the split of the advancement that came last (adventuring
/// time, the full beacon, or all effects for "how did we get here"), reached
/// with enough advancements done (but not all), no thunderstorm or phantom left to get,
/// and, past adventuring time, adventuring time done; and with what the
/// split needs, each advancement gives its own split.
pub proof fn lemma_aa_split_follows_last_advancement(
    completed: Seq<AdvancementId>,
    thunder: usize,
    phantoms: usize,
    shells: u32,
    notch: bool,
    skulls: u32,
    gold_blocks: u32,
    debris: u32,
    last: AdvancementId,
)
    ensures
        ({
            let r = aa_run_split(completed, thunder, phantoms, shells, notch, skulls, gold_blocks, debris, last);
            let n = completed.len();
            let total = TOTAL_ADVANCEMENTS_116 as nat;
            let at_done = completed.contains(AdvancementId::AdventureAdventuringTime);
            &&& (r == Some(AaSplit::Finish) <==> n == total)
            &&& (r == Some(AaSplit::AdventuringTime) ==> last == AdvancementId::AdventureAdventuringTime && 30 <= n
                && n != total && thunder == 0 && phantoms == 0)
            &&& (r == Some(AaSplit::Beaconator) ==> last == AdvancementId::NetherCreateFullBeacon && 50 <= n && n != total
                && at_done && thunder == 0 && phantoms == 0)
            &&& (r == Some(AaSplit::HDWGH) ==> last == AdvancementId::NetherAllEffects && 50 <= n && n != total && at_done
                && thunder == 0 && phantoms == 0)
            &&& (last == AdvancementId::AdventureAdventuringTime && 30 <= n && n != total && thunder == 0 && shells >= 1
                && notch && phantoms == 0 && skulls == 3 && gold_blocks >= 1 ==> r == Some(AaSplit::AdventuringTime))
            &&& (last == AdvancementId::NetherCreateFullBeacon && 50 <= n && n != total && thunder == 0 && phantoms == 0
                && at_done && debris >= 1 ==> r == Some(AaSplit::Beaconator))
            &&& (last == AdvancementId::NetherAllEffects && 50 <= n && n != total && thunder == 0 && phantoms == 0
                && at_done && debris >= 1 ==> r == Some(AaSplit::HDWGH))
        }),
{
}

} // verus!

