//! The splits of the tower-start category.

use vstd::prelude::*;
use vstd::string::*;

use crate::cache::consts::{END_EMOJI, PORTAL_EMOJI};
use crate::text::{chars_eq_str, chars_of};
use crate::ws::EventId;

verus! {

#[derive(PartialEq, Eq, Structural, Debug, Clone, Copy)]
pub enum Split {
    TowerStart,
    FindingStronghold,
    EndEnter,
}

impl Split {
    /// The short code of the split, as it stands in role names.
    pub open spec fn code(self) -> Seq<char> {
        match self {
            Split::TowerStart => "T"@,
            Split::FindingStronghold => "FS"@,
            Split::EndEnter => "EE"@,
        }
    }

    /// The split whose short code is `s`.
    pub open spec fn from_code(s: Seq<char>) -> Option<Split> {
        if s == "T"@ {
            Some(Split::TowerStart)
        } else if s == "FS"@ {
            Some(Split::FindingStronghold)
        } else if s == "EE"@ {
            Some(Split::EndEnter)
        } else {
            None
        }
    }

    /// The split named `s` in a command option.
    pub open spec fn from_param(s: Seq<char>) -> Option<Split> {
        if s == "tower_start"@ {
            Some(Split::TowerStart)
        } else if s == "finding_stronghold"@ {
            Some(Split::FindingStronghold)
        } else if s == "end_enter"@ {
            Some(Split::EndEnter)
        } else {
            None
        }
    }

    /// The split that an event reaches.
    pub open spec fn from_event(e: EventId) -> Option<Split> {
        match e {
            EventId::RsgTowerStart => Some(Split::TowerStart),
            EventId::RsgFindingStronghold => Some(Split::FindingStronghold),
            EventId::RsgEnterEnd => Some(Split::EndEnter),
            _ => None,
        }
    }

    /// The description of the split in messages.
    pub open spec fn description(self) -> Seq<char> {
        match self {
            Split::TowerStart => "Tower Start"@,
            Split::FindingStronghold => "Finding Stronghold"@,
            Split::EndEnter => "Enter End"@,
        }
    }

    /// The emoji shown with the split.
    pub open spec fn emoji(self) -> Seq<char> {
        match self {
            Split::TowerStart => PORTAL_EMOJI@,
            Split::FindingStronghold => PORTAL_EMOJI@,
            Split::EndEnter => END_EMOJI@,
        }
    }

    pub fn from_str(split: &str) -> (r: Option<Split>)
        ensures
            r == Split::from_code(split@),
    {
        let v = chars_of(split);
        if chars_eq_str(&v, "T") {
            Some(Split::TowerStart)
        } else if chars_eq_str(&v, "FS") {
            Some(Split::FindingStronghold)
        } else if chars_eq_str(&v, "EE") {
            Some(Split::EndEnter)
        } else {
            None
        }
    }

    pub fn from_event_id(event_id: &EventId) -> (r: Option<Split>)
        ensures
            r == Split::from_event(*event_id),
    {
        match event_id {
            EventId::RsgTowerStart => Some(Split::TowerStart),
            EventId::RsgFindingStronghold => Some(Split::FindingStronghold),
            EventId::RsgEnterEnd => Some(Split::EndEnter),
            _ => None,
        }
    }

    pub fn from_command_param(param: &str) -> (r: Option<Split>)
        ensures
            r == Split::from_param(param@),
    {
        let v = chars_of(param);
        if chars_eq_str(&v, "tower_start") {
            Some(Split::TowerStart)
        } else if chars_eq_str(&v, "finding_stronghold") {
            Some(Split::FindingStronghold)
        } else if chars_eq_str(&v, "end_enter") {
            Some(Split::EndEnter)
        } else {
            None
        }
    }

    pub fn desc(&self) -> (r: String)
        ensures
            r@ == self.description(),
    {
        match self {
            Split::TowerStart => String::from_str("Tower Start"),
            Split::FindingStronghold => String::from_str("Finding Stronghold"),
            Split::EndEnter => String::from_str("Enter End"),
        }
    }

    pub fn get_emoji(&self) -> (r: Option<String>)
        ensures
            r matches Some(e) && e@ == self.emoji(),
    {
        match self {
            Split::TowerStart => Some(String::from_str(PORTAL_EMOJI)),
            Split::FindingStronghold => Some(String::from_str(PORTAL_EMOJI)),
            Split::EndEnter => Some(String::from_str(END_EMOJI)),
        }
    }

    pub fn to_str(&self) -> (r: String)
        ensures
            r@ == self.code(),
    {
        match self {
            Split::TowerStart => String::from_str("T"),
            Split::FindingStronghold => String::from_str("FS"),
            Split::EndEnter => String::from_str("EE"),
        }
    }
}

/// Reading back the code that `to_str` writes gives the same split.
pub proof fn lemma_code_round_trip(s: Split)
    ensures
        Split::from_code(s.code()) == Some(s),
{
    reveal_strlit("T");
    reveal_strlit("FS");
    reveal_strlit("EE");
    assert("T"@.len() == 1 && "FS"@.len() == 2 && "EE"@.len() == 2);
    assert("FS"@[0] != "EE"@[0]);
}

} // verus!
