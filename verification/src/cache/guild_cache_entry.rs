//! The cached configuration of one guild, and the splits of the 1.15
//! category.

use vstd::prelude::*;
use vstd::string::*;

use crate::cache::consts::{
    END_EMOJI, FORT_EMOJI, NETHER_EMOJI, PACEMANBOT_RUNNER_NAMES_CHANNEL, PORTAL_EMOJI, SH_EMOJI,
};
use crate::cache::role_cache_entry::RoleCacheEntry;
use crate::cache::runner_splits::RunnerSplits;
use crate::name_map::NameMap;
use crate::text::{chars_eq_str, chars_of, push_str, string_of};
use crate::ws::EventId;

verus! {

/// The cached configuration of a guild.
pub struct GuildCacheEntry {
    pub name: String,
    pub pace_channel: u64,
    pub lb_channel: Option<u64>,
    pub player_whitelist: NameMap<RunnerSplits>,
    pub roles: Vec<RoleCacheEntry>,
}

/// Some channel is the runner-names channel, which makes a guild private.
pub open spec fn names_private(names: Seq<Seq<char>>) -> bool {
    exists|i: int| 0 <= i < names.len() && names[i] == PACEMANBOT_RUNNER_NAMES_CHANNEL@
}

/// The message for a guild whose channels could not be read.
pub open spec fn no_channels_message(name: Seq<char>) -> Seq<char> {
    "failed to get channels from guild name: "@ + name
}

pub open spec fn string_views(v: Seq<String>) -> Seq<Seq<char>> {
    v.map_values(|s: String| s@)
}

impl GuildCacheEntry {
    /// Whether a guild with these channels is private: whether it has the
    /// runner-names channel. `None` stands for channels that could not be read.
    pub fn is_private(name: String, channels: Option<Vec<String>>) -> (r: Result<bool, String>)
        ensures
            channels is None ==> (r matches Err(e) && e@ == no_channels_message(name@)),
            channels matches Some(c) ==> r == Ok::<bool, String>(names_private(string_views(c@))),
    {
        match channels {
            Some(c) => Ok(GuildCacheEntry::is_private_from_channels(&c)),
            None => {
                let mut m: Vec<char> = Vec::new();
                push_str(&mut m, "failed to get channels from guild name: ");
                push_str(&mut m, name.as_str());
                Err(string_of(&m))
            },
        }
    }

    /// Whether some channel is the runner-names channel.
    pub fn is_private_from_channels(channels: &Vec<String>) -> (r: bool)
        ensures
            r == names_private(string_views(channels@)),
    {
        let mut i: usize = 0;
        while i < channels.len()
            invariant
                i <= channels.len(),
                forall|j: int| 0 <= j < i ==> channels@[j]@ != PACEMANBOT_RUNNER_NAMES_CHANNEL@,
            decreases channels.len() - i,
        {
            let v = chars_of(channels[i].as_str());
            if chars_eq_str(&v, PACEMANBOT_RUNNER_NAMES_CHANNEL) {
                assert(string_views(channels@)[i as int] == PACEMANBOT_RUNNER_NAMES_CHANNEL@);
                return true;
            }
            i = i + 1;
        }
        assert forall|j: int| 0 <= j < channels@.len() implies string_views(channels@)[j]
            != PACEMANBOT_RUNNER_NAMES_CHANNEL@ by {
            assert(string_views(channels@)[j] == channels@[j]@);
        }
        false
    }
}

#[derive(PartialEq, Eq, Structural, Debug, Clone, Copy)]
pub enum Split {
    EnterNether,
    EnterFortress,
    Blind,
    EyeSpy,
    EndEnter,
}

impl Split {
    /// The short code of the split, as it stands in role names.
    pub open spec fn code(self) -> Seq<char> {
        match self {
            Split::EnterNether => "NE"@,
            Split::EnterFortress => "F"@,
            Split::Blind => "B"@,
            Split::EyeSpy => "E"@,
            Split::EndEnter => "EE"@,
        }
    }

    /// The split whose short code is `s`.
    pub open spec fn from_code(s: Seq<char>) -> Option<Split> {
        if s == "NE"@ {
            Some(Split::EnterNether)
        } else if s == "F"@ {
            Some(Split::EnterFortress)
        } else if s == "B"@ {
            Some(Split::Blind)
        } else if s == "E"@ {
            Some(Split::EyeSpy)
        } else if s == "EE"@ {
            Some(Split::EndEnter)
        } else {
            None
        }
    }

    /// The split named `s` in a command option.
    pub open spec fn from_param(s: Seq<char>) -> Option<Split> {
        if s == "enter_nether"@ {
            Some(Split::EnterNether)
        } else if s == "enter_fortress"@ {
            Some(Split::EnterFortress)
        } else if s == "blind"@ {
            Some(Split::Blind)
        } else if s == "eye_spy"@ {
            Some(Split::EyeSpy)
        } else if s == "end_enter"@ {
            Some(Split::EndEnter)
        } else {
            None
        }
    }

    /// The split that an event reaches.
    pub open spec fn from_event(e: EventId) -> Option<Split> {
        match e {
            EventId::RsgEnterNether => Some(Split::EnterNether),
            EventId::RsgEnterFortress => Some(Split::EnterFortress),
            EventId::RsgFirstPortal => Some(Split::Blind),
            EventId::RsgEnterStronghold => Some(Split::EyeSpy),
            EventId::RsgEnterEnd => Some(Split::EndEnter),
            _ => None,
        }
    }

    /// The description of the split in messages.
    pub open spec fn description(self) -> Seq<char> {
        match self {
            Split::EnterNether => "Enter Nether"@,
            Split::EnterFortress => "Enter Fortress"@,
            Split::Blind => "First Portal"@,
            Split::EyeSpy => "Enter Stronghold"@,
            Split::EndEnter => "Enter End"@,
        }
    }

    /// The emoji shown with the split.
    pub open spec fn emoji(self) -> Seq<char> {
        match self {
            Split::EnterNether => NETHER_EMOJI@,
            Split::EnterFortress => FORT_EMOJI@,
            Split::Blind => PORTAL_EMOJI@,
            Split::EyeSpy => SH_EMOJI@,
            Split::EndEnter => END_EMOJI@,
        }
    }

    pub fn from_str(split: &str) -> (r: Option<Split>)
        ensures
            r == Split::from_code(split@),
    {
        let v = chars_of(split);
        if chars_eq_str(&v, "NE") {
            Some(Split::EnterNether)
        } else if chars_eq_str(&v, "F") {
            Some(Split::EnterFortress)
        } else if chars_eq_str(&v, "B") {
            Some(Split::Blind)
        } else if chars_eq_str(&v, "E") {
            Some(Split::EyeSpy)
        } else if chars_eq_str(&v, "EE") {
            Some(Split::EndEnter)
        } else {
            None
        }
    }

    pub fn from_event_id(event_id: &EventId) -> (r: Option<Split>)
        ensures
            r == Split::from_event(*event_id),
    {
        match event_id {
            EventId::RsgEnterNether => Some(Split::EnterNether),
            EventId::RsgEnterFortress => Some(Split::EnterFortress),
            EventId::RsgFirstPortal => Some(Split::Blind),
            EventId::RsgEnterStronghold => Some(Split::EyeSpy),
            EventId::RsgEnterEnd => Some(Split::EndEnter),
            _ => None,
        }
    }

    pub fn from_command_param(param: &str) -> (r: Option<Split>)
        ensures
            r == Split::from_param(param@),
    {
        let v = chars_of(param);
        if chars_eq_str(&v, "enter_nether") {
            Some(Split::EnterNether)
        } else if chars_eq_str(&v, "enter_fortress") {
            Some(Split::EnterFortress)
        } else if chars_eq_str(&v, "blind") {
            Some(Split::Blind)
        } else if chars_eq_str(&v, "eye_spy") {
            Some(Split::EyeSpy)
        } else if chars_eq_str(&v, "end_enter") {
            Some(Split::EndEnter)
        } else {
            None
        }
    }

    pub fn desc(&self) -> (r: String)
        ensures
            r@ == self.description(),
    {
        match self {
            Split::EnterNether => String::from_str("Enter Nether"),
            Split::EnterFortress => String::from_str("Enter Fortress"),
            Split::Blind => String::from_str("First Portal"),
            Split::EyeSpy => String::from_str("Enter Stronghold"),
            Split::EndEnter => String::from_str("Enter End"),
        }
    }

    pub fn get_emoji(&self) -> (r: Option<String>)
        ensures
            r matches Some(e) && e@ == self.emoji(),
    {
        match self {
            Split::EnterNether => Some(String::from_str(NETHER_EMOJI)),
            Split::EnterFortress => Some(String::from_str(FORT_EMOJI)),
            Split::Blind => Some(String::from_str(PORTAL_EMOJI)),
            Split::EyeSpy => Some(String::from_str(SH_EMOJI)),
            Split::EndEnter => Some(String::from_str(END_EMOJI)),
        }
    }

    pub fn to_str(&self) -> (r: String)
        ensures
            r@ == self.code(),
    {
        match self {
            Split::EnterNether => String::from_str("NE"),
            Split::EnterFortress => String::from_str("F"),
            Split::Blind => String::from_str("B"),
            Split::EyeSpy => String::from_str("E"),
            Split::EndEnter => String::from_str("EE"),
        }
    }
}

/// Reading back the code that `to_str` writes gives the same split.
pub proof fn lemma_code_round_trip(s: Split)
    ensures
        Split::from_code(s.code()) == Some(s),
{
    reveal_strlit("NE");
    reveal_strlit("F");
    reveal_strlit("B");
    reveal_strlit("E");
    reveal_strlit("EE");
    assert("NE"@.len() == 2 && "F"@.len() == 1 && "B"@.len() == 1 && "E"@.len() == 1 && "EE"@.len() == 2);
    assert("NE"@[0] != "EE"@[0]);
    assert("F"@[0] != "B"@[0] && "F"@[0] != "E"@[0] && "B"@[0] != "E"@[0]);
}

} // verus!
