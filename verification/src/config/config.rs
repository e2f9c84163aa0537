//! Reading a guild's configuration from its channels, the first message of
//! its runner-names channel and its roles.

use vstd::prelude::*;
use vstd::string::*;

use crate::cache::consts::{
    PACEMANBOT_CHANNEL, PACEMANBOT_RUNNER_LEADERBOARD_CHANNEL, PACEMANBOT_RUNNER_NAMES_CHANNEL,
    ROLE_PREFIX, ROLE_PREFIX_115, ROLE_PREFIX_17,
};
use crate::cache::guild_cache_entry::{no_channels_message, GuildCacheEntry, Split};
use crate::cache::role_cache_entry::RoleCacheEntry;
use crate::cache::runner_splits::RunnerSplits;
use crate::config::parsers::{
    config_line, extract_name_or_uuid_and_splits_from_config_line, extract_split_from_pb_role_name,
    extract_split_from_role_name, extract_splits_and_name_from_role_name, pb_role_split, read_role,
    role_fields, try_read_role_fields,
};
use crate::name_map::NameMap;
use crate::text::{
    chars_eq_str, chars_of, contains, lowercase, push_str, seq_contains, split, split_by,
    starts_with, string_of, to_lowercase, views,
};

verus! {

/// A guild channel: its name and id.
pub struct ChannelInfo {
    pub name: String,
    pub id: u64,
}

/// A guild role: its id and name.
pub struct RoleInfo {
    pub id: u64,
    pub name: String,
}

pub open spec fn channel_views(c: Seq<ChannelInfo>) -> Seq<(Seq<char>, u64)> {
    c.map_values(|x: ChannelInfo| (x.name@, x.id))
}

pub open spec fn role_info_views(r: Seq<RoleInfo>) -> Seq<(u64, Seq<char>)> {
    r.map_values(|x: RoleInfo| (x.id, x.name@))
}

/// A pace-role as the contracts see it: split, minutes, seconds, runner,
/// role id and role name.
pub open spec fn role_entry_views(r: Seq<RoleCacheEntry>) -> Seq<(Split, u8, u8, Seq<char>, u64, Seq<char>)> {
    r.map_values(|x: RoleCacheEntry| (x.split, x.minutes, x.seconds, x.runner@, x.id_of(), x.role_name@))
}

impl RoleCacheEntry {
    pub open spec fn id_of(self) -> u64 {
        self.role_id
    }
}

/// The id of the first channel named `name`.
pub open spec fn first_channel(c: Seq<(Seq<char>, u64)>, name: Seq<char>) -> Option<u64>
    decreases c.len(),
{
    if c.len() == 0 {
        None
    } else if c[0].0 == name {
        Some(c[0].1)
    } else {
        first_channel(c.drop_first(), name)
    }
}

/// A line of the runner-names message that holds a runner.
pub open spec fn is_config_line(l: Seq<char>) -> bool {
    l != "```"@ && l != Seq::<char>::empty()
}

/// The runners that the configuration lines name, by lower-case name, a
/// later line for the same name replacing an earlier one; or the first
/// line's error.
pub open spec fn whitelist_from_lines(lines: Seq<Seq<char>>) -> Result<Map<Seq<char>, RunnerSplits>, Seq<char>>
    decreases lines.len(),
{
    if lines.len() == 0 {
        Ok(Map::empty())
    } else {
        match whitelist_from_lines(lines.drop_last()) {
            Err(e) => Err(e),
            Ok(m) => if !is_config_line(lines.last()) {
                Ok(m)
            } else {
                match config_line(lines.last()) {
                    Err(e) => Err(e),
                    Ok((n, sp)) => Ok(m.insert(lowercase(n), sp)),
                }
            },
        }
    }
}

/// The lines of a message.
pub open spec fn message_lines(content: Seq<char>) -> Seq<Seq<char>> {
    split_by(content, seq!['\n'])
}

/// A role that the bot reads as a pace-role of this category.
pub open spec fn is_pace_role_name(n: Seq<char>) -> bool {
    ROLE_PREFIX@.is_prefix_of(n) && !ROLE_PREFIX_115@.is_prefix_of(n) && !ROLE_PREFIX_17@.is_prefix_of(n)
}

/// What reading a pace-role's name gives: split, minutes, seconds and runner,
/// or the error; `None` where reading it panics.
pub open spec fn role_config(name: Seq<char>) -> Option<Result<(Split, u8, u8, Seq<char>), Seq<char>>> {
    if seq_contains(name, "PB"@) {
        match pb_role_split(name) {
            Some(sp) => Some(Ok((sp, 0u8, 0u8, Seq::<char>::empty()))),
            None => Some(Err("failed to extract split from pb role name: "@ + name + "."@)),
        }
    } else if seq_contains(name, "+"@) {
        match read_role(name, true) {
            None => None,
            Some(Ok(x)) => Some(Ok(x)),
            Some(Err(e)) => Some(Err("failed to extract split from pb role name: "@ + name + " due to: "@ + e)),
        }
    } else {
        match read_role(name, false) {
            None => None,
            Some(Ok((sp, m, s, _))) => Some(Ok((sp, m, s, Seq::<char>::empty()))),
            Some(Err(e)) => Some(Err("failed to extract split from role name: "@ + name + " due to: "@ + e)),
        }
    }
}

/// The message for a pace-role that could not be read.
pub open spec fn role_failure_message(role: Seq<char>, guild: Seq<char>, e: Seq<char>) -> Seq<char> {
    "failed to make role data for role: "@ + role + " in guild name: "@ + guild + " due to: "@ + e
}

/// The pace-roles among `roles`, read in order; the first error; or `None`
/// where reading one panics.
pub open spec fn roles_config(roles: Seq<(u64, Seq<char>)>, guild: Seq<char>) -> Option<Result<Seq<(Split, u8, u8, Seq<char>, u64, Seq<char>)>, Seq<char>>>
    decreases roles.len(),
{
    if roles.len() == 0 {
        Some(Ok(Seq::empty()))
    } else {
        match roles_config(roles.drop_last(), guild) {
            None => None,
            Some(Err(e)) => Some(Err(e)),
            Some(Ok(v)) => {
                let (id, n) = roles.last();
                if !is_pace_role_name(n) {
                    Some(Ok(v))
                } else {
                    match role_config(n) {
                        None => None,
                        Some(Err(e)) => Some(Err(role_failure_message(n, guild, e))),
                        Some(Ok((sp, m, s, r))) => Some(Ok(v.push((sp, m, s, r, id, n)))),
                    }
                }
            },
        }
    }
}

pub open spec fn no_pace_channel_message(guild: Seq<char>) -> Seq<char> {
    "failed to find #"@ + PACEMANBOT_CHANNEL@ + " in guild name: "@ + guild
}

pub open spec fn no_first_message_message(guild: Seq<char>) -> Seq<char> {
    "failed to get first message from #"@ + PACEMANBOT_RUNNER_NAMES_CHANNEL@ + " in guild name: "@ + guild + "."@
}

/// Whether reading the guild's configuration gets as far as its roles.
pub open spec fn reaches_roles(channels: Option<Seq<(Seq<char>, u64)>>, message: Option<Seq<char>>) -> bool {
    match channels {
        None => false,
        Some(c) => first_channel(c, PACEMANBOT_CHANNEL@) is Some && (first_channel(
            c,
            PACEMANBOT_RUNNER_NAMES_CHANNEL@,
        ) is Some ==> (message is Some && whitelist_from_lines(message_lines(message.unwrap())) is Ok)),
    }
}

/// What reading a guild's configuration gives: the pace channel, the
/// leaderboard channel, the runners and the pace-roles; or the error.
pub open spec fn guild_config(
    guild: Seq<char>,
    channels: Option<Seq<(Seq<char>, u64)>>,
    message: Option<Seq<char>>,
    roles: Seq<(u64, Seq<char>)>,
) -> Result<(u64, Option<u64>, Map<Seq<char>, RunnerSplits>, Seq<(Split, u8, u8, Seq<char>, u64, Seq<char>)>), Seq<char>> {
    match channels {
        None => Err(no_channels_message(guild)),
        Some(c) => match first_channel(c, PACEMANBOT_CHANNEL@) {
            None => Err(no_pace_channel_message(guild)),
            Some(pace) => {
                let private = first_channel(c, PACEMANBOT_RUNNER_NAMES_CHANNEL@) is Some;
                let lb = first_channel(c, PACEMANBOT_RUNNER_LEADERBOARD_CHANNEL@);
                let players = if !private {
                    Ok(Map::<Seq<char>, RunnerSplits>::empty())
                } else {
                    match message {
                        None => Err(no_first_message_message(guild)),
                        Some(m) => whitelist_from_lines(message_lines(m)),
                    }
                };
                match players {
                    Err(e) => Err(e),
                    Ok(p) => match roles_config(roles, guild) {
                        Some(Ok(rs)) => Ok((pace, lb, p, rs)),
                        Some(Err(e)) => Err(e),
                        None => Err(Seq::<char>::empty()),
                    },
                }
            },
        },
    }
}

/// The id of the first channel named `name`.
pub fn find_channel(channels: &Vec<ChannelInfo>, name: &str) -> (r: Option<u64>)
    ensures
        r == first_channel(channel_views(channels@), name@),
{
    let mut i: usize = 0;
    assert(channel_views(channels@).skip(0) == channel_views(channels@));
    while i < channels.len()
        invariant
            i <= channels.len(),
            first_channel(channel_views(channels@).skip(i as int), name@) == first_channel(
                channel_views(channels@),
                name@,
            ),
        decreases channels.len() - i,
    {
        let ghost rest = channel_views(channels@).skip(i as int);
        assert(rest[0] == (channels@[i as int].name@, channels@[i as int].id));
        assert(rest.drop_first() == channel_views(channels@).skip(i + 1));
        let v = chars_of(channels[i].name.as_str());
        if chars_eq_str(&v, name) {
            return Some(channels[i].id);
        }
        i = i + 1;
    }
    None
}

/// The runners that the lines of the runner-names message name.
pub fn whitelist_from_message(content: &str) -> (r: Result<NameMap<RunnerSplits>, String>)
    ensures
        match r {
            Ok(m) => whitelist_from_lines(message_lines(content@)) == Ok::<Map<Seq<char>, RunnerSplits>, Seq<char>>(m.map()),
            Err(e) => whitelist_from_lines(message_lines(content@)) == Err::<Map<Seq<char>, RunnerSplits>, Seq<char>>(e@),
        },
{
    let c = chars_of(content);
    let mut nl: Vec<char> = Vec::new();
    nl.push('\n');
    let lines = split(&c, &nl);
    assert(nl@ == seq!['\n']);
    let ghost ls = views(lines@);
    let mut players: NameMap<RunnerSplits> = NameMap::new();
    assert(players.map() =~= Map::<Seq<char>, RunnerSplits>::empty());
    let mut i: usize = 0;
    while i < lines.len()
        invariant
            i <= lines.len(),
            ls == views(lines@),
            ls == message_lines(content@),
            whitelist_from_lines(ls.take(i as int)) == Ok::<Map<Seq<char>, RunnerSplits>, Seq<char>>(players.map()),
        decreases lines.len() - i,
    {
        assert(ls.take(i + 1).drop_last() == ls.take(i as int));
        assert(ls.take(i + 1).last() == lines@[i as int]@);
        let line = string_of(&lines[i]);
        let is_fence = chars_eq_str(&lines[i], "```");
        if is_fence || lines[i].len() == 0 {
            proof {
                if lines@[i as int]@ != "```"@ {
                    assert(lines@[i as int]@ =~= Seq::<char>::empty());
                }
            }
        } else {
            match extract_name_or_uuid_and_splits_from_config_line(line.as_str()) {
                Ok((name, splits)) => {
                    let lower = to_lowercase(name.as_str());
                    players.insert(lower, splits);
                },
                Err(e) => {
                    proof {
                        lemma_whitelist_error_sticks(ls, (i + 1) as int);
                    }
                    return Err(e);
                },
            }
        }
        i = i + 1;
    }
    assert(ls.take(lines.len() as int) == ls);
    Ok(players)
}

/// An error in the first lines is the error of all of them.
proof fn lemma_whitelist_error_sticks(ls: Seq<Seq<char>>, k: int)
    requires
        0 <= k <= ls.len(),
        whitelist_from_lines(ls.take(k)) is Err,
    ensures
        whitelist_from_lines(ls) == whitelist_from_lines(ls.take(k)),
    decreases ls.len() - k,
{
    if k < ls.len() {
        assert(ls.take(k + 1).drop_last() == ls.take(k));
        lemma_whitelist_error_sticks(ls, k + 1);
    } else {
        assert(ls.take(k) == ls);
    }
}

pub struct Config;

impl Config {
    /// Reads a pace-role from its name: a PB role, a runner's own ping role
    /// (with `+`), or a timed role.
    pub fn parse_role_config_for_role(role_id: u64, role_name: String) -> (r: Result<RoleCacheEntry, String>)
        requires
            role_config(role_name@) is Some,
        ensures
            match r {
                Ok(e) => role_config(role_name@) == Some(
                    Ok::<(Split, u8, u8, Seq<char>), Seq<char>>((e.split, e.minutes, e.seconds, e.runner@)),
                ) && e.role_id == role_id && e.role_name@ == role_name@,
                Err(m) => role_config(role_name@) == Some(Err::<(Split, u8, u8, Seq<char>), Seq<char>>(m@)),
            },
    {
        let name = chars_of(role_name.as_str());
        let pb = chars_of("PB");
        let plus = chars_of("+");
        if contains(&name, &pb) {
            match extract_split_from_pb_role_name(role_name.as_str()) {
                Some(split) => Ok(RoleCacheEntry {
                    split,
                    minutes: 0,
                    seconds: 0,
                    runner: String::new(),
                    role_id,
                    role_name,
                }),
                None => {
                    let mut m: Vec<char> = Vec::new();
                    push_str(&mut m, "failed to extract split from pb role name: ");
                    push_str(&mut m, role_name.as_str());
                    push_str(&mut m, ".");
                    Err(string_of(&m))
                },
            }
        } else if contains(&name, &plus) {
            match extract_splits_and_name_from_role_name(role_name.as_str()) {
                Ok((split, minutes, seconds, runner)) => Ok(
                    RoleCacheEntry { split, minutes, seconds, runner, role_id, role_name },
                ),
                Err(err) => {
                    let mut m: Vec<char> = Vec::new();
                    push_str(&mut m, "failed to extract split from pb role name: ");
                    push_str(&mut m, role_name.as_str());
                    push_str(&mut m, " due to: ");
                    push_str(&mut m, err.as_str());
                    Err(string_of(&m))
                },
            }
        } else {
            match extract_split_from_role_name(role_name.as_str()) {
                Ok((split, minutes, seconds)) => Ok(
                    RoleCacheEntry { split, minutes, seconds, runner: String::new(), role_id, role_name },
                ),
                Err(err) => {
                    let mut m: Vec<char> = Vec::new();
                    push_str(&mut m, "failed to extract split from role name: ");
                    push_str(&mut m, role_name.as_str());
                    push_str(&mut m, " due to: ");
                    push_str(&mut m, err.as_str());
                    Err(string_of(&m))
                },
            }
        }
    }
}

/// Reads the pace-roles among `roles`, in order.
pub fn roles_from_guild(roles: &Vec<RoleInfo>, guild: &str) -> (r: Result<Vec<RoleCacheEntry>, String>)
    requires
        roles_config(role_info_views(roles@), guild@) is Some,
    ensures
        match r {
            Ok(v) => roles_config(role_info_views(roles@), guild@) == Some(
                Ok::<Seq<(Split, u8, u8, Seq<char>, u64, Seq<char>)>, Seq<char>>(role_entry_views(v@)),
            ),
            Err(e) => roles_config(role_info_views(roles@), guild@) == Some(
                Err::<Seq<(Split, u8, u8, Seq<char>, u64, Seq<char>)>, Seq<char>>(e@),
            ),
        },
{
    let ghost rv = role_info_views(roles@);
    let mut out: Vec<RoleCacheEntry> = Vec::new();
    let mut i: usize = 0;
    proof {
        assert(rv.take(0) =~= Seq::<(u64, Seq<char>)>::empty());
        assert(role_entry_views(out@) =~= Seq::<(Split, u8, u8, Seq<char>, u64, Seq<char>)>::empty());
        lemma_roles_config_prefix(rv, guild@, 0);
    }
    while i < roles.len()
        invariant
            i <= roles.len(),
            rv == role_info_views(roles@),
            roles_config(rv, guild@) is Some,
            roles_config(rv.take(i as int), guild@) == Some(
                Ok::<Seq<(Split, u8, u8, Seq<char>, u64, Seq<char>)>, Seq<char>>(role_entry_views(out@)),
            ),
        decreases roles.len() - i,
    {
        proof {
            lemma_roles_config_prefix(rv, guild@, i + 1);
        }
        assert(rv.take(i + 1).drop_last() == rv.take(i as int));
        assert(rv.take(i + 1).last() == (roles@[i as int].id, roles@[i as int].name@));
        let name = chars_of(roles[i].name.as_str());
        let p = chars_of(ROLE_PREFIX);
        let p115 = chars_of(ROLE_PREFIX_115);
        let p17 = chars_of(ROLE_PREFIX_17);
        if starts_with(&name, &p) && !starts_with(&name, &p115) && !starts_with(&name, &p17) {
            match Config::parse_role_config_for_role(roles[i].id, roles[i].name.clone()) {
                Ok(entry) => {
                    let ghost old_out = out@;
                    out.push(entry);
                    assert(role_entry_views(out@) =~= role_entry_views(old_out).push(
                        (entry.split, entry.minutes, entry.seconds, entry.runner@, entry.role_id, entry.role_name@),
                    ));
                },
                Err(e) => {
                    let mut m: Vec<char> = Vec::new();
                    push_str(&mut m, "failed to make role data for role: ");
                    push_str(&mut m, roles[i].name.as_str());
                    push_str(&mut m, " in guild name: ");
                    push_str(&mut m, guild);
                    push_str(&mut m, " due to: ");
                    push_str(&mut m, e.as_str());
                    proof {
                        lemma_roles_error_sticks(rv, guild@, i + 1);
                    }
                    return Err(string_of(&m));
                },
            }
        }
        i = i + 1;
    }
    assert(rv.take(roles.len() as int) == rv);
    Ok(out)
}

/// Reading all roles gets past a prefix of them without panicking.
proof fn lemma_roles_config_prefix(rv: Seq<(u64, Seq<char>)>, guild: Seq<char>, k: int)
    requires
        0 <= k <= rv.len(),
        roles_config(rv, guild) is Some,
    ensures
        roles_config(rv.take(k), guild) is Some,
    decreases rv.len() - k,
{
    if k < rv.len() {
        lemma_roles_config_prefix(rv, guild, k + 1);
        assert(rv.take(k + 1).drop_last() == rv.take(k));
    } else {
        assert(rv.take(k) == rv);
    }
}

/// An error in the first roles is the error of all of them.
proof fn lemma_roles_error_sticks(rv: Seq<(u64, Seq<char>)>, guild: Seq<char>, k: int)
    requires
        0 <= k <= rv.len(),
        roles_config(rv.take(k), guild) matches Some(Err(_)),
    ensures
        roles_config(rv, guild) == roles_config(rv.take(k), guild),
    decreases rv.len() - k,
{
    if k < rv.len() {
        assert(rv.take(k + 1).drop_last() == rv.take(k));
        lemma_roles_error_sticks(rv, guild, k + 1);
    } else {
        assert(rv.take(k) == rv);
    }
}

impl Config {
    /// Reads a guild's configuration: its `#pacemanbot` channel, its
    /// leaderboard channel, the runners of a private guild (one with a
    /// runner-names channel) from the first message there, and its
    /// pace-roles. `channels` is `None` where they could not be read, and
    /// `message` is that first message, if there is one.
    pub fn parse_config_for_guild(
        name: String,
        channels: Option<Vec<ChannelInfo>>,
        message: Option<String>,
        roles: Vec<RoleInfo>,
    ) -> (r: Result<GuildCacheEntry, String>)
        requires
            reaches_roles(
                match channels {
                    Some(c) => Some(channel_views(c@)),
                    None => None,
                },
                match message {
                    Some(m) => Some(m@),
                    None => None,
                },
            ) ==> roles_config(role_info_views(roles@), name@) is Some,
        ensures
            ({
                let g = guild_config(
                    name@,
                    match channels {
                        Some(c) => Some(channel_views(c@)),
                        None => None,
                    },
                    match message {
                        Some(m) => Some(m@),
                        None => None,
                    },
                    role_info_views(roles@),
                );
                match r {
                    Ok(e) => e.name@ == name@ && g == Ok::<
                        (u64, Option<u64>, Map<Seq<char>, RunnerSplits>, Seq<(Split, u8, u8, Seq<char>, u64, Seq<char>)>),
                        Seq<char>,
                    >((e.pace_channel, e.lb_channel, e.player_whitelist.map(), role_entry_views(e.roles@))),
                    Err(m) => g == Err::<
                        (u64, Option<u64>, Map<Seq<char>, RunnerSplits>, Seq<(Split, u8, u8, Seq<char>, u64, Seq<char>)>),
                        Seq<char>,
                    >(m@),
                }
            }),
    {
        let channels = match channels {
            Some(c) => c,
            None => {
                let mut m: Vec<char> = Vec::new();
                push_str(&mut m, "failed to get channels from guild name: ");
                push_str(&mut m, name.as_str());
                return Err(string_of(&m));
            },
        };
        let pace_channel = match find_channel(&channels, PACEMANBOT_CHANNEL) {
            Some(id) => id,
            None => {
                let mut m: Vec<char> = Vec::new();
                push_str(&mut m, "failed to find #");
                push_str(&mut m, PACEMANBOT_CHANNEL);
                push_str(&mut m, " in guild name: ");
                push_str(&mut m, name.as_str());
                return Err(string_of(&m));
            },
        };
        let is_private = find_channel(&channels, PACEMANBOT_RUNNER_NAMES_CHANNEL).is_some();
        let lb_channel = find_channel(&channels, PACEMANBOT_RUNNER_LEADERBOARD_CHANNEL);
        let mut players: NameMap<RunnerSplits> = NameMap::new();
        assert(players.map() =~= Map::<Seq<char>, RunnerSplits>::empty());
        if is_private {
            match message {
                None => {
                    let mut m: Vec<char> = Vec::new();
                    push_str(&mut m, "failed to get first message from #");
                    push_str(&mut m, PACEMANBOT_RUNNER_NAMES_CHANNEL);
                    push_str(&mut m, " in guild name: ");
                    push_str(&mut m, name.as_str());
                    push_str(&mut m, ".");
                    return Err(string_of(&m));
                },
                Some(content) => {
                    match whitelist_from_message(content.as_str()) {
                        Ok(p) => {
                            players = p;
                        },
                        Err(e) => {
                            return Err(e);
                        },
                    }
                },
            }
        }
        let role_entries = match roles_from_guild(&roles, name.as_str()) {
            Ok(v) => v,
            Err(e) => return Err(e),
        };
        Ok(GuildCacheEntry {
            name,
            pace_channel,
            lb_channel,
            player_whitelist: players,
            roles: role_entries,
        })
    }
}

/// How reading a pace-role's name ends: 0 where it panics, 1 with an error,
/// 2 with a role.
fn role_config_outcome(name: &str) -> (r: u8)
    ensures
        (r == 0) == (role_config(name@) is None),
        (r == 1) == (role_config(name@) matches Some(Err(_))),
        (r == 2) == (role_config(name@) matches Some(Ok(_))),
{
    let n = chars_of(name);
    let pb = chars_of("PB");
    let plus = chars_of("+");
    if contains(&n, &pb) {
        if extract_split_from_pb_role_name(name).is_some() {
            2
        } else {
            1
        }
    } else {
        let with_name = contains(&n, &plus);
        match try_read_role_fields(name, with_name) {
            None => 0,
            Some(Err(_)) => 1,
            Some(Ok((code, _, _, _))) => if Split::from_str(code.as_str()).is_some() {
                2
            } else {
                0
            },
        }
    }
}

proof fn lemma_roles_config_outcome_prefix(roles: Seq<(u64, Seq<char>)>, guild: Seq<char>, i: int)
    requires
        0 <= i <= roles.len(),
    ensures
        roles_config(roles.take(i), guild) is None ==> roles_config(roles, guild) is None,
        roles_config(roles.take(i), guild) matches Some(Err(e)) ==> roles_config(roles, guild) == Some(
            Err::<Seq<(Split, u8, u8, Seq<char>, u64, Seq<char>)>, Seq<char>>(e),
        ),
    decreases roles.len() - i,
{
    if i == roles.len() {
        assert(roles.take(i) =~= roles);
    } else {
        lemma_roles_config_outcome_prefix(roles, guild, i + 1);
        assert(roles.take(i + 1).drop_last() =~= roles.take(i));
    }
}

/// Whether reading the guild's pace-roles in this order can be done without
/// a panic (it stops at the first error).
pub fn roles_readable(roles: &Vec<RoleInfo>, guild: &str) -> (r: bool)
    ensures
        r == (roles_config(role_info_views(roles@), guild@) is Some),
{
    let ghost rv = role_info_views(roles@);
    let p = chars_of(ROLE_PREFIX);
    let p115 = chars_of(ROLE_PREFIX_115);
    let p17 = chars_of(ROLE_PREFIX_17);
    assert(rv.take(0) =~= Seq::<(u64, Seq<char>)>::empty());
    for i in 0..roles.len()
        invariant
            rv == role_info_views(roles@),
            p@ == ROLE_PREFIX@,
            p115@ == ROLE_PREFIX_115@,
            p17@ == ROLE_PREFIX_17@,
            roles_config(rv.take(i as int), guild@) matches Some(Ok(_)),
    {
        proof {
            let t = rv.take(i + 1);
            assert(t.drop_last() =~= rv.take(i as int));
            assert(t.last() == rv[i as int]);
            assert(rv[i as int] == (roles@[i as int].id, roles@[i as int].name@));
            lemma_roles_config_outcome_prefix(rv, guild@, i + 1);
        }
        let name = chars_of(roles[i].name.as_str());
        if starts_with(&name, &p) && !starts_with(&name, &p115) && !starts_with(&name, &p17) {
            let outcome = role_config_outcome(roles[i].name.as_str());
            if outcome == 0 {
                return false;
            } else if outcome == 1 {
                return true;
            }
        }
    }
    assert(rv.take(roles.len() as int) =~= rv);
    true
}

} // verus!
