//! What the bot does with a run record in each guild: which records and
//! guilds it skips, which roles a split pings, and whether a finish is sent
//! and goes to the leaderboard.

use vstd::prelude::*;

use crate::cache::guild_cache_entry::Split;
use crate::cache::player_cache_entry::PlayerCacheEntry;
use crate::cache::role_cache_entry::{igt_minutes, RoleCacheEntry};
use crate::cache::runner_splits::RunnerSplits;
use crate::dispatcher::utils::millis_to_mins_secs;
use crate::name_map::NameMap;
use crate::text::{chars_eq_str, chars_of, lowercase, to_lowercase};
use crate::ws::{Event, EventId};

verus! {

/// Records of a game version other than 1.16.1 are skipped; a record
/// without a version is not.
pub open spec fn supported_version(v: Option<Seq<char>>) -> bool {
    match v {
        Some(s) => s == "1.16.1"@,
        None => true,
    }
}

/// Whether a record of this game version is handled.
pub fn is_supported_version(game_version: &Option<String>) -> (r: bool)
    ensures
        r == supported_version(
            match game_version {
                Some(s) => Some(s@),
                None => None,
            },
        ),
{
    match game_version {
        Some(s) => {
            let v = chars_of(s.as_str());
            chars_eq_str(&v, "1.16.1")
        },
        None => true,
    }
}

/// The kind of a run's last event.
#[derive(PartialEq, Eq, Structural, Debug, Clone, Copy)]
pub enum EventKind {
    /// A split that pace-roles ping for.
    Pace,
    /// The credits: a finish.
    Finish,
    /// Anything else, which stops the handling of the record.
    Unknown,
}

pub open spec fn event_kind(e: EventId) -> EventKind {
    if Split::from_event(e) is Some {
        EventKind::Pace
    } else if e == EventId::RsgCredits {
        EventKind::Finish
    } else {
        EventKind::Unknown
    }
}

/// The kind of a run's last event.
pub fn kind_of_event(last_event: &Event) -> (r: EventKind)
    ensures
        r == event_kind(last_event.event_id),
{
    match Split::from_event_id(&last_event.event_id) {
        Some(_) => EventKind::Pace,
        None => {
            if last_event.event_id == EventId::RsgCredits {
                EventKind::Finish
            } else {
                EventKind::Unknown
            }
        },
    }
}

/// What is done with a record in one guild.
#[derive(PartialEq, Eq, Structural, Debug, Clone, Copy)]
pub enum GuildStep {
    /// The runner is not live and the guild is public.
    SkipNotLive,
    /// The guild is private and the runner is not on its whitelist.
    SkipNotWhitelisted,
    /// The guild is public and does not know the runner yet: the runner is
    /// added with default thresholds, then the event is handled.
    AddRunner,
    /// The event is handled.
    Handle,
}

pub open spec fn guild_step(live: bool, is_private: bool, whitelisted: bool) -> GuildStep {
    if !live && !is_private {
        GuildStep::SkipNotLive
    } else if whitelisted {
        GuildStep::Handle
    } else if is_private {
        GuildStep::SkipNotWhitelisted
    } else {
        GuildStep::AddRunner
    }
}

/// What is done with a record in a guild: public guilds only hear of live
/// runners, and private guilds only of the runners they whitelist.
pub fn decide_guild(live: bool, is_private: bool, whitelisted: bool) -> (r: GuildStep)
    ensures
        r == guild_step(live, is_private, whitelisted),
{
    if !live && !is_private {
        GuildStep::SkipNotLive
    } else if whitelisted {
        GuildStep::Handle
    } else if is_private {
        GuildStep::SkipNotWhitelisted
    } else {
        GuildStep::AddRunner
    }
}

/// The whitelist key of a runner: the uuid where the whitelist has it, else
/// the lower-case name where it has that; `None` where it has neither.
pub open spec fn whitelist_key(m: Map<Seq<char>, RunnerSplits>, nickname: Seq<char>, uuid: Seq<char>) -> Option<Seq<char>> {
    if m.contains_key(uuid) {
        Some(uuid)
    } else if m.contains_key(lowercase(nickname)) {
        Some(lowercase(nickname))
    } else {
        None
    }
}

/// The key under which the whitelist holds the runner.
pub fn find_whitelist_key(whitelist: &NameMap<RunnerSplits>, nickname: &str, uuid: &str) -> (r: Option<String>)
    ensures
        match r {
            Some(k) => whitelist_key(whitelist.map(), nickname@, uuid@) == Some(k@),
            None => whitelist_key(whitelist.map(), nickname@, uuid@) is None,
        },
{
    if whitelist.contains_key(uuid) {
        return Some(String::from_str(uuid));
    }
    let lower = to_lowercase(nickname);
    if whitelist.contains_key(lower.as_str()) {
        Some(lower)
    } else {
        None
    }
}

/// The roles of `roles` that ping for this split, in order; with
/// `only_runner`, only those that belong to a runner.
pub open spec fn pinged_roles(
    roles: Seq<RoleCacheEntry>,
    player: PlayerCacheEntry,
    split: Split,
    igt: u64,
    is_private: bool,
    nickname: Seq<char>,
    only_runner: bool,
) -> Seq<u64>
    decreases roles.len(),
{
    if roles.len() == 0 {
        Seq::empty()
    } else {
        let rest = pinged_roles(roles.drop_last(), player, split, igt, is_private, nickname, only_runner);
        let r = roles.last();
        if r.pingable(player, split, igt, is_private, nickname) && (!only_runner || r.runner@.len() > 0) {
            rest.push(r.role_id)
        } else {
            rest
        }
    }
}

/// The ids of the roles that the split pings, in order; with `only_runner`,
/// only those of the runners' own roles, which are taken out of the message
/// once it is sent.
pub fn roles_to_ping(
    roles: &Vec<RoleCacheEntry>,
    player_data: &PlayerCacheEntry,
    run_split: &Split,
    last_event: &Event,
    is_private: bool,
    nickname: &str,
    only_runner: bool,
) -> (r: Vec<u64>)
    ensures
        r@ == pinged_roles(roles@, *player_data, *run_split, last_event.igt, is_private, nickname@, only_runner),
{
    let mut out: Vec<u64> = Vec::new();
    assert(roles@.take(0) =~= Seq::<RoleCacheEntry>::empty());
    for i in 0..roles.len()
        invariant
            out@ == pinged_roles(
                roles@.take(i as int),
                *player_data,
                *run_split,
                last_event.igt,
                is_private,
                nickname@,
                only_runner,
            ),
    {
        let role = &roles[i];
        let pinged = role.is_pingable(player_data, run_split, last_event, is_private, nickname);
        let runner = chars_of(role.runner.as_str());
        if pinged && (!only_runner || runner.len() > 0) {
            out.push(role.role_id);
        }
        proof {
            let t = roles@.take(i + 1);
            assert(t.drop_last() =~= roles@.take(i as int));
            assert(t.last() == roles@[i as int]);
        }
    }
    assert(roles@.take(roles.len() as int) =~= roles@);
    out
}

/// What is done with a finish in one guild.
#[derive(PartialEq, Eq, Structural, Debug, Clone, Copy)]
pub enum FinishStep {
    /// The guild is public, the runner has no finish threshold and the run
    /// took 10 minutes or more.
    SkipSlowPublic,
    /// The run is not under the runner's finish threshold.
    SkipOverThreshold,
    /// The finish is sent.
    Send,
}

/// A finish in `minutes` whole minutes: under the runner's threshold where
/// there is one, else sent in private guilds and, in public ones, under 10
/// minutes.
pub open spec fn finish_step(finish: Option<u8>, minutes: nat, is_private: bool) -> FinishStep {
    match finish {
        Some(f) => if minutes >= f {
            FinishStep::SkipOverThreshold
        } else {
            FinishStep::Send
        },
        None => if !is_private && minutes >= 10 {
            FinishStep::SkipSlowPublic
        } else {
            FinishStep::Send
        },
    }
}

/// Whether a finish at `igt` is sent to a guild, for a runner whose finish
/// threshold (in minutes) is `finish`.
pub fn decide_finish(finish: Option<u8>, igt: u64, is_private: bool) -> (r: FinishStep)
    requires
        !(finish is None && is_private && igt_minutes(igt) == 255),
    ensures
        r == finish_step(finish, igt_minutes(igt), is_private),
{
    let (minutes, _seconds) = millis_to_mins_secs(igt);
    let finish_minutes = match finish {
        Some(mins) => mins,
        None => {
            if !is_private && minutes >= 10 {
                return FinishStep::SkipSlowPublic;
            }
            minutes + 1
        },
    };
    if minutes >= finish_minutes {
        return FinishStep::SkipOverThreshold;
    }
    FinishStep::Send
}

/// A sent finish goes to the leaderboard of private guilds that have one.
pub fn updates_leaderboard(is_private: bool, lb_channel: Option<u64>) -> (r: bool)
    ensures
        r == (is_private && lb_channel is Some),
{
    is_private && lb_channel.is_some()
}

} // verus!
