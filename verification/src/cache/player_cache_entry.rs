//! A whitelisted runner's pace thresholds in the 1.15 category.

use vstd::prelude::*;

use crate::cache::guild_cache_entry::Split;

verus! {

/// A runner's thresholds, in minutes, per split.
#[derive(PartialEq, Eq, Structural, Debug, Clone, Copy)]
pub struct PlayerCacheEntry {
    pub enter_nether: u8,
    pub enter_fortress: u8,
    pub blind: u8,
    pub eye_spy: u8,
    pub end_enter: u8,
    pub finish: Option<u8>,
}

impl Default for PlayerCacheEntry {
    fn default() -> (r: Self)
        ensures
            r == (PlayerCacheEntry {
                enter_nether: 0,
                enter_fortress: 0,
                blind: 0,
                eye_spy: 0,
                end_enter: 0,
                finish: None,
            }),
    {
        PlayerCacheEntry {
            enter_nether: 0,
            enter_fortress: 0,
            blind: 0,
            eye_spy: 0,
            end_enter: 0,
            finish: None,
        }
    }
}

impl PlayerCacheEntry {
    /// The threshold for a split.
    pub open spec fn threshold(self, split: Split) -> u8 {
        match split {
            Split::EnterNether => self.enter_nether,
            Split::EnterFortress => self.enter_fortress,
            Split::Blind => self.blind,
            Split::EyeSpy => self.eye_spy,
            Split::EndEnter => self.end_enter,
        }
    }

    pub fn get(&self, split: &Split) -> (r: Option<u8>)
        ensures
            r == Some(self.threshold(*split)),
    {
        match split {
            Split::EnterNether => Some(self.enter_nether),
            Split::EnterFortress => Some(self.enter_fortress),
            Split::Blind => Some(self.blind),
            Split::EyeSpy => Some(self.eye_spy),
            Split::EndEnter => Some(self.end_enter),
        }
    }
}

} // verus!
