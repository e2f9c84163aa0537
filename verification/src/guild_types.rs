//! Guild data of the structures category: splits that depend on which
//! nether structure a run enters, and runners' thresholds.

use vstd::prelude::*;
use vstd::string::*;

use crate::text::{chars_eq_str, chars_of};
use crate::ws::EventId;

verus! {

/// A nether structure.
#[derive(PartialEq, Eq, Structural, Debug, Clone, Copy)]
pub enum Structure {
    Bastion,
    Fortress,
}

#[derive(PartialEq, Eq, Structural, Debug, Clone, Copy)]
pub enum Split {
    FirstStructure,
    SecondStructure,
    Blind,
    EyeSpy,
    EndEnter,
}

impl Split {
    /// The short code of the split, as it stands in role names.
    pub open spec fn code(self) -> Seq<char> {
        match self {
            Split::FirstStructure => "FS"@,
            Split::SecondStructure => "SS"@,
            Split::Blind => "B"@,
            Split::EyeSpy => "E"@,
            Split::EndEnter => "EE"@,
        }
    }

    /// The split whose short code is `s`.
    pub open spec fn from_code(s: Seq<char>) -> Option<Split> {
        if s == "FS"@ {
            Some(Split::FirstStructure)
        } else if s == "SS"@ {
            Some(Split::SecondStructure)
        } else if s == "B"@ {
            Some(Split::Blind)
        } else if s == "E"@ {
            Some(Split::EyeSpy)
        } else if s == "EE"@ {
            Some(Split::EndEnter)
        } else {
            None
        }
    }

    /// The split named `s` in a command option.
    pub open spec fn from_param(s: Seq<char>) -> Option<Split> {
        if s == "first_structure"@ {
            Some(Split::FirstStructure)
        } else if s == "second_structure"@ {
            Some(Split::SecondStructure)
        } else if s == "blind"@ {
            Some(Split::Blind)
        } else if s == "eye_spy"@ {
            Some(Split::EyeSpy)
        } else if s == "end_enter"@ {
            Some(Split::EndEnter)
        } else {
            None
        }
    }

    /// The split that an event reaches by itself (structure splits depend
    /// on the rest of the run).
    pub open spec fn from_event(e: EventId) -> Option<Split> {
        match e {
            EventId::RsgFirstPortal => Some(Split::Blind),
            EventId::RsgEnterStronghold => Some(Split::EyeSpy),
            EventId::RsgEnterEnd => Some(Split::EndEnter),
            _ => None,
        }
    }

    /// The description of the split in messages, which for a structure
    /// split names the structure.
    pub open spec fn description(self, structure: Option<Structure>) -> Option<Seq<char>> {
        match self {
            Split::FirstStructure | Split::SecondStructure => match structure {
                Some(Structure::Bastion) => Some("Enter Bastion"@),
                Some(Structure::Fortress) => Some("Enter Fortress"@),
                None => None,
            },
            Split::Blind => Some("First Portal"@),
            Split::EyeSpy => Some("Enter Stronghold"@),
            Split::EndEnter => Some("Enter End"@),
        }
    }

    /// The short description of the split in role menus.
    pub open spec fn alt_description(self) -> Seq<char> {
        match self {
            Split::FirstStructure => "Structure 1"@,
            Split::SecondStructure => "Structure 2"@,
            Split::Blind => "Blind"@,
            Split::EyeSpy => "Eye Spy"@,
            Split::EndEnter => "End Enter"@,
        }
    }

    pub fn from_str(split: &str) -> (r: Option<Split>)
        ensures
            r == Split::from_code(split@),
    {
        let v = chars_of(split);
        if chars_eq_str(&v, "FS") {
            Some(Split::FirstStructure)
        } else if chars_eq_str(&v, "SS") {
            Some(Split::SecondStructure)
        } else if chars_eq_str(&v, "B") {
            Some(Split::Blind)
        } else if chars_eq_str(&v, "E") {
            Some(Split::EyeSpy)
        } else if chars_eq_str(&v, "EE") {
            Some(Split::EndEnter)
        } else {
            None
        }
    }

    pub fn from_event_id(event_id: &EventId) -> (r: Option<Split>)
        ensures
            r == Split::from_event(*event_id),
    {
        match event_id {
            EventId::RsgFirstPortal => Some(Split::Blind),
            EventId::RsgEnterStronghold => Some(Split::EyeSpy),
            EventId::RsgEnterEnd => Some(Split::EndEnter),
            _ => None,
        }
    }

    pub fn from_command_param(param: &str) -> (r: Option<Split>)
        ensures
            r == Split::from_param(param@),
    {
        let v = chars_of(param);
        if chars_eq_str(&v, "first_structure") {
            Some(Split::FirstStructure)
        } else if chars_eq_str(&v, "second_structure") {
            Some(Split::SecondStructure)
        } else if chars_eq_str(&v, "blind") {
            Some(Split::Blind)
        } else if chars_eq_str(&v, "eye_spy") {
            Some(Split::EyeSpy)
        } else if chars_eq_str(&v, "end_enter") {
            Some(Split::EndEnter)
        } else {
            None
        }
    }

    pub fn desc(&self, structure: &Option<Structure>) -> (r: Option<String>)
        ensures
            match r {
                Some(d) => self.description(*structure) == Some(d@),
                None => self.description(*structure) is None,
            },
    {
        match self {
            Split::FirstStructure | Split::SecondStructure => match structure {
                Some(Structure::Bastion) => Some(String::from_str("Enter Bastion")),
                Some(Structure::Fortress) => Some(String::from_str("Enter Fortress")),
                None => None,
            },
            Split::Blind => Some(String::from_str("First Portal")),
            Split::EyeSpy => Some(String::from_str("Enter Stronghold")),
            Split::EndEnter => Some(String::from_str("Enter End")),
        }
    }

    pub fn alt_desc(&self) -> (r: String)
        ensures
            r@ == self.alt_description(),
    {
        match self {
            Split::FirstStructure => String::from_str("Structure 1"),
            Split::SecondStructure => String::from_str("Structure 2"),
            Split::Blind => String::from_str("Blind"),
            Split::EyeSpy => String::from_str("Eye Spy"),
            Split::EndEnter => String::from_str("End Enter"),
        }
    }

    pub fn to_str(&self) -> (r: String)
        ensures
            r@ == self.code(),
    {
        match self {
            Split::FirstStructure => String::from_str("FS"),
            Split::SecondStructure => String::from_str("SS"),
            Split::Blind => String::from_str("B"),
            Split::EyeSpy => String::from_str("E"),
            Split::EndEnter => String::from_str("EE"),
        }
    }
}

/// Reading back the code that `to_str` writes gives the same split.
pub proof fn lemma_code_round_trip(s: Split)
    ensures
        Split::from_code(s.code()) == Some(s),
{
    reveal_strlit("FS");
    reveal_strlit("SS");
    reveal_strlit("B");
    reveal_strlit("E");
    reveal_strlit("EE");
    assert("FS"@.len() == 2 && "SS"@.len() == 2 && "B"@.len() == 1 && "E"@.len() == 1 && "EE"@.len() == 2);
    assert("FS"@[0] != "SS"@[0] && "FS"@[0] != "EE"@[0] && "SS"@[0] != "EE"@[0]);
    assert("B"@[0] != "E"@[0]);
}

/// A runner's thresholds, in minutes, per split.
#[derive(PartialEq, Eq, Structural, Debug, Clone, Copy)]
pub struct PlayerSplitsData {
    pub first_structure: u8,
    pub second_structure: u8,
    pub blind: u8,
    pub eye_spy: u8,
    pub end_enter: u8,
    pub finish: Option<u8>,
}

impl PlayerSplitsData {
    /// The threshold for a split.
    pub open spec fn threshold(self, split: Split) -> u8 {
        match split {
            Split::FirstStructure => self.first_structure,
            Split::SecondStructure => self.second_structure,
            Split::Blind => self.blind,
            Split::EyeSpy => self.eye_spy,
            Split::EndEnter => self.end_enter,
        }
    }

    pub open spec fn zero() -> PlayerSplitsData {
        PlayerSplitsData {
            first_structure: 0,
            second_structure: 0,
            blind: 0,
            eye_spy: 0,
            end_enter: 0,
            finish: None,
        }
    }

    pub fn default() -> (r: Self)
        ensures
            r == PlayerSplitsData::zero(),
    {
        Self {
            first_structure: 0,
            second_structure: 0,
            blind: 0,
            eye_spy: 0,
            end_enter: 0,
            finish: None,
        }
    }

    pub fn get(&self, split: &Split) -> (r: Option<u8>)
        ensures
            r == Some(self.threshold(*split)),
    {
        match split {
            Split::FirstStructure => Some(self.first_structure),
            Split::SecondStructure => Some(self.second_structure),
            Split::Blind => Some(self.blind),
            Split::EyeSpy => Some(self.eye_spy),
            Split::EndEnter => Some(self.end_enter),
        }
    }
}

/// A runner's thresholds and the last pace message sent for the runner.
#[derive(PartialEq, Eq, Structural, Debug, Clone, Copy)]
pub struct PlayerData {
    pub splits: PlayerSplitsData,
    pub last_pace_message: Option<u64>,
}

impl PlayerData {
    pub fn default() -> (r: Self)
        ensures
            r == (PlayerData { splits: PlayerSplitsData::zero(), last_pace_message: None }),
    {
        Self { splits: PlayerSplitsData::default(), last_pace_message: None }
    }
}

} // verus!
