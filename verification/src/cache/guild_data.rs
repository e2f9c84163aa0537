//! The configuration of a guild in the all-advancements category: its
//! channels, its runners and its pace-roles.

use vstd::prelude::*;
use vstd::string::*;

use crate::cache::consts::{PACEMANBOT_CHANNEL, PACEMANBOT_RUNNER_LEADERBOARD_CHANNEL, PACEMANBOT_RUNNER_NAMES_CHANNEL};
use crate::cache::players::PlayerSplitsData;
use crate::components::whitelist::{aa_config_line, extract_name_and_splits_from_line};
use crate::config::config::{channel_views, find_channel, first_channel, is_config_line, message_lines, role_info_views, ChannelInfo, RoleInfo};
use crate::name_map::NameMap;
use crate::text::{
    chars_eq_str, chars_of, decimal, lowercase, push_decimal, push_str, split, starts_with, string_of,
    to_lowercase, views,
};

verus! {

/// The runners that the configuration lines name, by lower-case name, a
/// later line for the same name replacing an earlier one; or the first
/// line's error.
pub open spec fn aa_guild_players(lines: Seq<Seq<char>>) -> Result<Map<Seq<char>, PlayerSplitsData>, Seq<char>>
    decreases lines.len(),
{
    if lines.len() == 0 {
        Ok(Map::empty())
    } else {
        match aa_guild_players(lines.drop_last()) {
            Err(e) => Err(e),
            Ok(m) => if !is_config_line(lines.last()) {
                Ok(m)
            } else {
                match aa_config_line(lines.last()) {
                    Err(e) => Err(e),
                    Ok((n, sp)) => Ok(m.insert(lowercase(n), sp)),
                }
            },
        }
    }
}

/// The guild's roles whose names start with `*`, in order: the pace-roles
/// of the guild.
pub open spec fn starred_roles(roles: Seq<(u64, Seq<char>)>) -> Seq<(u64, Seq<char>)>
    decreases roles.len(),
{
    if roles.len() == 0 {
        Seq::empty()
    } else {
        let rest = starred_roles(roles.drop_last());
        if seq!['*'].is_prefix_of(roles.last().1) {
            rest.push(roles.last())
        } else {
            rest
        }
    }
}

/// What reading a guild's configuration gives: name, pace channel,
/// leaderboard channel, runners, whether the guild is private, and its
/// pace-roles; or the error. `name` and `channels` are `None` where the
/// guild or its channels could not be read, and `first` is the text of the
/// first message of the runner-names channel, where it has one.
pub open spec fn aa_guild_config(
    guild_id: u64,
    name: Option<Seq<char>>,
    channels: Option<Seq<(Seq<char>, u64)>>,
    first: Option<Seq<char>>,
    roles: Seq<(u64, Seq<char>)>,
) -> Result<(Seq<char>, u64, Option<u64>, Map<Seq<char>, PlayerSplitsData>, bool, Seq<(u64, Seq<char>)>), Seq<char>> {
    match name {
        None => Err("GuildDataError: construct guild from guild id: "@ + decimal(guild_id as nat)),
        Some(n) => match channels {
            None => Err("GuildDataError: get channels from guild name: "@ + n),
            Some(c) => match first_channel(c, PACEMANBOT_CHANNEL@) {
                None => Err("GuildDataError: find #pacemanbot in guild name: "@ + n),
                Some(pace) => {
                    let is_private = first_channel(c, PACEMANBOT_RUNNER_NAMES_CHANNEL@) is Some;
                    let lb = first_channel(c, PACEMANBOT_RUNNER_LEADERBOARD_CHANNEL@);
                    let players = if !is_private {
                        Ok(Map::empty())
                    } else {
                        match first {
                            None => Err(
                                "GuildDataError: get first message from #pacemanbot-runner-names in guild name: "@ + n
                                    + "."@,
                            ),
                            Some(t) => aa_guild_players(message_lines(t)),
                        }
                    };
                    match players {
                        Err(e) => Err(e),
                        Ok(p) => Ok((n, pace, lb, p, is_private, starred_roles(roles))),
                    }
                },
            },
        },
    }
}

/// A guild's configuration in the all-advancements category. The
/// pace-roles are the guild's roles whose names start with `*`, as they are
/// named; the reading of such a name into a split and a time is not part of
/// this library.
pub struct AaGuildData {
    pub name: String,
    pub pace_channel: u64,
    pub lb_channel: Option<u64>,
    pub players: NameMap<PlayerSplitsData>,
    pub is_private: bool,
    pub pace_roles: Vec<RoleInfo>,
}

proof fn lemma_players_error_sticks(ls: Seq<Seq<char>>, k: int)
    requires
        0 <= k <= ls.len(),
        aa_guild_players(ls.take(k)) is Err,
    ensures
        aa_guild_players(ls) == aa_guild_players(ls.take(k)),
    decreases ls.len() - k,
{
    if k < ls.len() {
        assert(ls.take(k + 1).drop_last() == ls.take(k));
        lemma_players_error_sticks(ls, k + 1);
    } else {
        assert(ls.take(k) == ls);
    }
}

/// Reads the runners of the configuration message, by lower-case name.
fn read_guild_players(content: &str) -> (r: Result<NameMap<PlayerSplitsData>, String>)
    ensures
        match r {
            Ok(m) => aa_guild_players(message_lines(content@)) == Ok::<Map<Seq<char>, PlayerSplitsData>, Seq<char>>(
                m.map(),
            ),
            Err(e) => aa_guild_players(message_lines(content@)) == Err::<Map<Seq<char>, PlayerSplitsData>, Seq<char>>(
                e@,
            ),
        },
{
    let c = chars_of(content);
    let nl: Vec<char> = vec!['\n'];
    assert(nl@ == seq!['\n']);
    let lines = split(&c, &nl);
    let ghost ls = views(lines@);
    let mut players: NameMap<PlayerSplitsData> = NameMap::new();
    assert(players.map() =~= Map::<Seq<char>, PlayerSplitsData>::empty());
    let mut i: usize = 0;
    while i < lines.len()
        invariant
            i <= lines.len(),
            ls == views(lines@),
            ls == message_lines(content@),
            aa_guild_players(ls.take(i as int)) == Ok::<Map<Seq<char>, PlayerSplitsData>, Seq<char>>(players.map()),
        decreases lines.len() - i,
    {
        assert(ls.take(i + 1).drop_last() == ls.take(i as int));
        assert(ls.take(i + 1).last() == lines@[i as int]@);
        let line = string_of(&lines[i]);
        let is_fence = chars_eq_str(&lines[i], "```");
        if is_fence || lines[i].len() == 0 {
            proof {
                if lines@[i as int]@ != "```"@ {
                    assert(lines@[i as int]@ =~= Seq::<char>::empty());
                }
            }
        } else {
            match extract_name_and_splits_from_line(line.as_str()) {
                Ok((name, splits)) => {
                    let key = to_lowercase(name.as_str());
                    players.insert(key, splits);
                },
                Err(e) => {
                    proof {
                        lemma_players_error_sticks(ls, (i + 1) as int);
                    }
                    return Err(e);
                },
            }
        }
        i = i + 1;
    }
    assert(ls.take(lines.len() as int) == ls);
    Ok(players)
}

/// The guild's roles whose names start with `*`, in order.
fn starred(roles: &Vec<RoleInfo>) -> (r: Vec<RoleInfo>)
    ensures
        role_info_views(r@) == starred_roles(role_info_views(roles@)),
{
    let ghost rv = role_info_views(roles@);
    let star: Vec<char> = vec!['*'];
    let mut out: Vec<RoleInfo> = Vec::new();
    assert(rv.take(0) =~= Seq::<(u64, Seq<char>)>::empty());
    for i in 0..roles.len()
        invariant
            rv == role_info_views(roles@),
            star@ == seq!['*'],
            role_info_views(out@) == starred_roles(rv.take(i as int)),
    {
        proof {
            let t = rv.take(i + 1);
            assert(t.drop_last() =~= rv.take(i as int));
            assert(t.last() == rv[i as int]);
        }
        let n = chars_of(roles[i].name.as_str());
        if starts_with(&n, &star) {
            let ghost before = out@;
            out.push(RoleInfo { id: roles[i].id, name: roles[i].name.clone() });
            assert(role_info_views(out@) =~= role_info_views(before).push(rv[i as int]));
        }
    }
    assert(rv.take(roles.len() as int) =~= rv);
    out
}

fn guild_error(what: &str, name: &str, end: &str) -> (r: String)
    ensures
        r@ == what@ + name@ + end@,
{
    let mut m: Vec<char> = Vec::new();
    push_str(&mut m, what);
    push_str(&mut m, name);
    push_str(&mut m, end);
    string_of(&m)
}

impl AaGuildData {
    /// Reads a guild's configuration. `name` and `channels` are `None` where
    /// the guild or its channels could not be read; `first_message` is the
    /// text of the first message of the runner-names channel, where it has
    /// one (it is read only in a private guild).
    pub fn new(
        guild_id: u64,
        name: Option<String>,
        channels: Option<Vec<ChannelInfo>>,
        first_message: Option<String>,
        roles: &Vec<RoleInfo>,
    ) -> (r: Result<AaGuildData, String>)
        ensures
            ({
                let spec = aa_guild_config(
                    guild_id,
                    match name {
                        Some(n) => Some(n@),
                        None => None,
                    },
                    match channels {
                        Some(c) => Some(channel_views(c@)),
                        None => None,
                    },
                    match first_message {
                        Some(t) => Some(t@),
                        None => None,
                    },
                    role_info_views(roles@),
                );
                match r {
                    Ok(g) => spec == Ok::<
                        (Seq<char>, u64, Option<u64>, Map<Seq<char>, PlayerSplitsData>, bool, Seq<(u64, Seq<char>)>),
                        Seq<char>,
                    >(
                        (
                            g.name@,
                            g.pace_channel,
                            g.lb_channel,
                            g.players.map(),
                            g.is_private,
                            role_info_views(g.pace_roles@),
                        ),
                    ),
                    Err(e) => spec == Err::<
                        (Seq<char>, u64, Option<u64>, Map<Seq<char>, PlayerSplitsData>, bool, Seq<(u64, Seq<char>)>),
                        Seq<char>,
                    >(e@),
                }
            }),
    {
        proof {
            reveal_strlit("");
        }
        let name = match name {
            Some(n) => n,
            None => {
                let mut m: Vec<char> = Vec::new();
                push_str(&mut m, "GuildDataError: construct guild from guild id: ");
                push_decimal(&mut m, guild_id);
                return Err(string_of(&m));
            },
        };
        let channels = match channels {
            Some(c) => c,
            None => return Err(guild_error("GuildDataError: get channels from guild name: ", name.as_str(), "")),
        };
        let pace_channel = match find_channel(&channels, PACEMANBOT_CHANNEL) {
            Some(id) => id,
            None => return Err(guild_error("GuildDataError: find #pacemanbot in guild name: ", name.as_str(), "")),
        };
        let is_private = find_channel(&channels, PACEMANBOT_RUNNER_NAMES_CHANNEL).is_some();
        let lb_channel = find_channel(&channels, PACEMANBOT_RUNNER_LEADERBOARD_CHANNEL);
        let players = if is_private {
            match first_message {
                None => {
                    return Err(
                        guild_error(
                            "GuildDataError: get first message from #pacemanbot-runner-names in guild name: ",
                            name.as_str(),
                            ".",
                        ),
                    );
                },
                Some(t) => match read_guild_players(t.as_str()) {
                    Ok(p) => p,
                    Err(e) => return Err(e),
                },
            }
        } else {
            let p: NameMap<PlayerSplitsData> = NameMap::new();
            assert(p.map() =~= Map::<Seq<char>, PlayerSplitsData>::empty());
            p
        };
        let pace_roles = starred(roles);
        Ok(AaGuildData { name, pace_channel, lb_channel, players, is_private, pace_roles })
    }
}

} // verus!
