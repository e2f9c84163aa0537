//! `/migrate`, and the buttons and menus of the role-selection message.

use vstd::prelude::*;
use vstd::string::*;

use crate::cache::consts::PACEMANBOT_RUNNER_NAMES_CHANNEL;
use crate::cache::players::PlayerSplitsData;
use crate::cache::split::Split;
use crate::command::whitelist::{fence, lemma_fence_is_fence};
use crate::components::whitelist::aa_runners_from_lines;
use crate::config::config::{channel_views, find_channel, first_channel, is_config_line, message_lines, ChannelInfo};
use crate::text::{
    chars_of, contains, decimal, ends_with, int_error_message, int_error_text, is_suffix, parse_uint,
    lacks, lemma_split_join, lemma_split_lacking, parse_uint_chars, push_decimal, push_str, seq_contains, split_by,
    starts_with, string_of, IntErrorKind,
};

verus! {

/// The runner-names channel that `/migrate` moves the configuration in, or
/// the error.
pub open spec fn migrate_channel(guild_id: u64, channels: Option<Seq<(Seq<char>, u64)>>) -> Result<u64, Seq<char>> {
    match channels {
        None => Err("MigrateError: get channels for guild id: "@ + decimal(guild_id as nat)),
        Some(c) => match first_channel(c, PACEMANBOT_RUNNER_NAMES_CHANNEL@) {
            Some(id) => Ok(id),
            None => Err("MigrateError: find channel name: pacemanbot-runner-name in guild id: "@ + decimal(guild_id as nat)),
        },
    }
}

/// The channel that `/migrate` reads; `channels` is `None` where the
/// guild's channels could not be read.
pub fn find_migrate_channel(guild_id: u64, channels: &Option<Vec<ChannelInfo>>) -> (r: Result<u64, String>)
    ensures
        ({
            let m = migrate_channel(
                guild_id,
                match channels {
                    Some(c) => Some(channel_views(c@)),
                    None => None,
                },
            );
            match r {
                Ok(id) => m == Ok::<u64, Seq<char>>(id),
                Err(e) => m == Err::<u64, Seq<char>>(e@),
            }
        }),
{
    match channels {
        None => {
            let mut m: Vec<char> = Vec::new();
            push_str(&mut m, "MigrateError: get channels for guild id: ");
            push_decimal(&mut m, guild_id);
            Err(string_of(&m))
        },
        Some(c) => match find_channel(c, PACEMANBOT_RUNNER_NAMES_CHANNEL) {
            Some(id) => Ok(id),
            None => {
                let mut m: Vec<char> = Vec::new();
                push_str(&mut m, "MigrateError: find channel name: pacemanbot-runner-name in guild id: ");
                push_decimal(&mut m, guild_id);
                Err(string_of(&m))
            },
        },
    }
}

/// Text in a code block: it starts and ends with three backticks.
pub open spec fn is_code_block(content: Seq<char>) -> bool {
    "```"@.is_prefix_of(content) && is_suffix("```"@, content)
}

/// The new configuration message that `/migrate` sends for the first
/// message of the runner-names channel (whether the bot wrote it, and its
/// text): the old text in a code block; or the error where there is no
/// message, or the bot already wrote it as a code block.
pub open spec fn migrated(guild_id: u64, first: Option<(bool, Seq<char>)>) -> Result<Seq<char>, Seq<char>> {
    match first {
        None => Err(
            "MigrateError: get first message in #pacemanbot-runner-names in guild id: "@ + decimal(guild_id as nat),
        ),
        Some((bot, content)) => if bot && is_code_block(content) {
            Err("MigrateError: Migration has already been performed for guild id: "@ + decimal(guild_id as nat) + "."@)
        } else {
            Ok("```\n"@ + content + "\n```"@)
        },
    }
}

/// The message that `/migrate` sends.
pub fn migrate_message(guild_id: u64, first: Option<(bool, String)>) -> (r: Result<String, String>)
    ensures
        ({
            let m = migrated(
                guild_id,
                match first {
                    Some((b, c)) => Some((b, c@)),
                    None => None,
                },
            );
            match r {
                Ok(t) => m == Ok::<Seq<char>, Seq<char>>(t@),
                Err(e) => m == Err::<Seq<char>, Seq<char>>(e@),
            }
        }),
{
    match first {
        None => {
            let mut m: Vec<char> = Vec::new();
            push_str(&mut m, "MigrateError: get first message in #pacemanbot-runner-names in guild id: ");
            push_decimal(&mut m, guild_id);
            Err(string_of(&m))
        },
        Some((bot, content)) => {
            let c = chars_of(content.as_str());
            let fence = chars_of("```");
            if bot && starts_with(&c, &fence) && ends_with(&c, &fence) {
                let mut m: Vec<char> = Vec::new();
                push_str(&mut m, "MigrateError: Migration has already been performed for guild id: ");
                push_decimal(&mut m, guild_id);
                push_str(&mut m, ".");
                return Err(string_of(&m));
            }
            let mut m: Vec<char> = Vec::new();
            push_str(&mut m, "```\n");
            push_str(&mut m, content.as_str());
            push_str(&mut m, "\n```");
            Ok(string_of(&m))
        },
    }
}

/// The reply once the configuration is migrated.
pub fn migrate_reply() -> (r: String)
    ensures
        r@ == "Migrated old config from first message in #pacemanbot-runner-names! You can now delete the original first message."@,
{
    String::from_str(
        "Migrated old config from first message in #pacemanbot-runner-names! You can now delete the original first message.",
    )
}

/// What choosing roles in a menu of the role-selection message does: the
/// member's roles that start with `prefix` are removed (all of them, or
/// only the PB ones where a PB role was chosen), then the chosen roles are
/// added.
pub struct SelectRolePlan {
    pub prefix: String,
    pub remove_all: bool,
    pub add: Vec<u64>,
}

/// What choosing the roles `values` (role ids as text, with the names of
/// those roles where they are known) in the menu of `split` does; or the
/// error of the first value that is no id or no known role.
pub open spec fn select_role_plan(
    code: Seq<char>,
    guild_id: u64,
    values: Seq<(Seq<char>, Option<Seq<char>>)>,
) -> Result<(Seq<char>, bool, Seq<u64>), Seq<char>>
    decreases values.len(),
{
    if values.len() == 0 {
        Ok(("*17"@ + code, true, Seq::empty()))
    } else {
        match select_role_plan(code, guild_id, values.drop_last()) {
            Err(e) => Err(e),
            Ok((prefix, remove_all, add)) => {
                let (v, name) = values.last();
                match parse_uint(v, 0xFFFF_FFFF_FFFF_FFFF) {
                    Err(k) => Err(int_error_message(k)),
                    Ok(id) => match name {
                        None => Err(
                            "SelectRoleError: convert role id: "@ + decimal(id) + " to role for guild id: "@ + decimal(
                                guild_id as nat,
                            ) + "."@,
                        ),
                        Some(n) => Ok((prefix, remove_all && !seq_contains(n, "PB"@), add.push(id as u64))),
                    },
                }
            },
        }
    }
}

proof fn lemma_select_error_sticks(code: Seq<char>, guild_id: u64, values: Seq<(Seq<char>, Option<Seq<char>>)>, k: int)
    requires
        0 <= k <= values.len(),
        select_role_plan(code, guild_id, values.take(k)) is Err,
    ensures
        select_role_plan(code, guild_id, values) == select_role_plan(code, guild_id, values.take(k)),
    decreases values.len() - k,
{
    if k < values.len() {
        assert(values.take(k + 1).drop_last() =~= values.take(k));
        lemma_select_error_sticks(code, guild_id, values, k + 1);
    } else {
        assert(values.take(k) =~= values);
    }
}

pub open spec fn value_views(values: Seq<(String, Option<String>)>) -> Seq<(Seq<char>, Option<Seq<char>>)> {
    values.map_values(
        |v: (String, Option<String>)|
            (
                v.0@,
                match v.1 {
                    Some(n) => Some(n@),
                    None => None,
                },
            ),
    )
}

/// What choosing roles in the menu of `split` does. Each value is the
/// chosen role's id as text and the role's name where the guild knows it.
pub fn plan_select_role(split: &Split, guild_id: u64, values: &Vec<(String, Option<String>)>) -> (r: Result<
    SelectRolePlan,
    String,
>)
    ensures
        ({
            let p = select_role_plan(split.code(), guild_id, value_views(values@));
            match r {
                Ok(q) => p == Ok::<(Seq<char>, bool, Seq<u64>), Seq<char>>((q.prefix@, q.remove_all, q.add@)),
                Err(e) => p == Err::<(Seq<char>, bool, Seq<u64>), Seq<char>>(e@),
            }
        }),
{
    let ghost vv = value_views(values@);
    let code = split.to_str();
    let mut prefix: Vec<char> = Vec::new();
    push_str(&mut prefix, "*17");
    push_str(&mut prefix, code.as_str());
    let pb = chars_of("PB");
    let mut remove_all = true;
    let mut add: Vec<u64> = Vec::new();
    assert(vv.take(0) =~= Seq::<(Seq<char>, Option<Seq<char>>)>::empty());
    for i in 0..values.len()
        invariant
            vv == value_views(values@),
            pb@ == "PB"@,
            select_role_plan(split.code(), guild_id, vv.take(i as int)) == Ok::<(Seq<char>, bool, Seq<u64>), Seq<char>>(
                (prefix@, remove_all, add@),
            ),
    {
        proof {
            let t = vv.take(i + 1);
            assert(t.drop_last() =~= vv.take(i as int));
            assert(t.last() == vv[i as int]);
        }
        let v = chars_of(values[i].0.as_str());
        let id = match parse_uint_chars(&v, 0xFFFF_FFFF_FFFF_FFFF) {
            Ok(n) => n,
            Err(k) => {
                proof {
                    lemma_select_error_sticks(split.code(), guild_id, vv, i + 1);
                }
                return Err(int_error_text(k));
            },
        };
        match &values[i].1 {
            None => {
                let mut m: Vec<char> = Vec::new();
                push_str(&mut m, "SelectRoleError: convert role id: ");
                push_decimal(&mut m, id);
                push_str(&mut m, " to role for guild id: ");
                push_decimal(&mut m, guild_id);
                push_str(&mut m, ".");
                proof {
                    lemma_select_error_sticks(split.code(), guild_id, vv, i + 1);
                }
                return Err(string_of(&m));
            },
            Some(n) => {
                let nv = chars_of(n.as_str());
                if contains(&nv, &pb) {
                    remove_all = false;
                }
                add.push(id);
            },
        }
    }
    assert(vv.take(values.len() as int) =~= vv);
    Ok(SelectRolePlan { prefix: string_of(&prefix), remove_all, add })
}

/// The member's PB roles of a split that are removed when a PB role of the
/// split is chosen: those that start with the prefix and hold `PB`.
pub open spec fn member_pb_roles(roles: Seq<(u64, Seq<char>)>, prefix: Seq<char>) -> Seq<u64>
    decreases roles.len(),
{
    if roles.len() == 0 {
        Seq::empty()
    } else {
        let rest = member_pb_roles(roles.drop_last(), prefix);
        let (id, n) = roles.last();
        if prefix.is_prefix_of(n) && seq_contains(n, "PB"@) {
            rest.push(id)
        } else {
            rest
        }
    }
}

pub open spec fn id_name_views(roles: Seq<(u64, String)>) -> Seq<(u64, Seq<char>)> {
    roles.map_values(|r: (u64, String)| (r.0, r.1@))
}

/// The ids of the member's roles (id and name) that are removed when a PB
/// role of the split is chosen.
pub fn pb_roles_of_member(member_roles: &Vec<(u64, String)>, prefix: &str) -> (r: Vec<u64>)
    ensures
        r@ == member_pb_roles(id_name_views(member_roles@), prefix@),
{
    let ghost rv = id_name_views(member_roles@);
    let p = chars_of(prefix);
    let pb = chars_of("PB");
    let mut out: Vec<u64> = Vec::new();
    assert(rv.take(0) =~= Seq::<(u64, Seq<char>)>::empty());
    for i in 0..member_roles.len()
        invariant
            rv == id_name_views(member_roles@),
            p@ == prefix@,
            pb@ == "PB"@,
            out@ == member_pb_roles(rv.take(i as int), prefix@),
    {
        proof {
            let t = rv.take(i + 1);
            assert(t.drop_last() =~= rv.take(i as int));
            assert(t.last() == rv[i as int]);
        }
        let n = chars_of(member_roles[i].1.as_str());
        if starts_with(&n, &p) && contains(&n, &pb) {
            out.push(member_roles[i].0);
        }
    }
    assert(rv.take(member_roles.len() as int) =~= rv);
    out
}

/// The reply once the chosen roles are set.
pub fn roles_updated_reply() -> (r: &'static str)
    ensures
        r@ == "Roles updated"@,
{
    "Roles updated"
}

/// The prefix of the roles that the remove-all button removes.
pub fn removable_roles_prefix() -> (r: &'static str)
    ensures
        r@ == "*115"@,
{
    "*115"
}

/// The reply once the member's pace-roles are removed.
pub fn roles_removed_reply() -> (r: &'static str)
    ensures
        r@ == "PaceManBot roles removed"@,
{
    "PaceManBot roles removed"
}

} // verus!

verus! {

/// A line that is no configuration line, in front of the others, changes
/// nothing that they are read as.
proof fn lemma_aa_runners_skip_front(l: Seq<char>, ls: Seq<Seq<char>>)
    requires
        !is_config_line(l),
    ensures
        aa_runners_from_lines(seq![l] + ls) == aa_runners_from_lines(ls),
    decreases ls.len(),
{
    let all = seq![l] + ls;
    if ls.len() == 0 {
        assert(all =~= seq![l]);
        assert(all.drop_last() =~= Seq::<Seq<char>>::empty());
        assert(all.last() == l);
        assert(aa_runners_from_lines(all.drop_last()) == Ok::<Map<Seq<char>, PlayerSplitsData>, Seq<char>>(
            Map::empty(),
        ));
    } else {
        lemma_aa_runners_skip_front(l, ls.drop_last());
        assert(all.drop_last() =~= seq![l] + ls.drop_last());
        assert(all.last() == ls.last());
        assert(aa_runners_from_lines(all.drop_last()) == aa_runners_from_lines(ls.drop_last()));
    }
}

/// `/migrate` keeps the configuration: the message it writes lists the
/// same runners as the message it copies, and fails on the same line where
/// that one fails.
pub proof fn lemma_migration_keeps_runners(guild_id: u64, bot: bool, content: Seq<char>)
    ensures
        migrated(guild_id, Some((bot, content))) matches Ok(t) ==> aa_runners_from_lines(message_lines(t))
            == aa_runners_from_lines(message_lines(content)),
{
    if migrated(guild_id, Some((bot, content))) is Ok {
        let t = migrated(guild_id, Some((bot, content)))->Ok_0;
        reveal_strlit("```\n");
        reveal_strlit("\n```");
        lemma_fence_is_fence();
        let f = fence();
        assert(t =~= f + seq!['\n'] + (content + seq!['\n'] + f));
        assert(lacks(f, '\n'));
        lemma_split_join(f, '\n', content + seq!['\n'] + f);
        lemma_split_join(content, '\n', f);
        lemma_split_lacking(f, '\n');
        let body = split_by(content, seq!['\n']);
        let ls = seq![f] + body + seq![f];
        assert(message_lines(t) =~= ls);
        assert(!is_config_line(f));
        assert(ls.drop_last() =~= seq![f] + body);
        lemma_aa_runners_skip_front(f, body);
    }
}

} // verus!

