use pacemanbot::cache::guild_cache_entry::{GuildCacheEntry, Split};
use pacemanbot::cache::runner_splits::RunnerSplits;
use pacemanbot::config::config::{find_channel, whitelist_from_message, ChannelInfo, Config, RoleInfo};
use pacemanbot::config::parsers::{
    extract_name_or_uuid_and_splits_from_config_line, extract_split_from_pb_role_name,
    extract_split_from_role_name, extract_splits_and_name_from_role_name, read_role_fields,
};
use pacemanbot::config::config::roles_readable;
use pacemanbot::config::parsers::{role_name_readable, try_read_role_fields};

fn channel(name: &str, id: u64) -> ChannelInfo {
    ChannelInfo { name: name.to_string(), id }
}

fn role(id: u64, name: &str) -> RoleInfo {
    RoleInfo { id, name: name.to_string() }
}

#[test]
fn timed_role_names() {
    assert_eq!(extract_split_from_role_name("*NE3:3").unwrap(), (Split::EnterNether, 3, 30));
    assert_eq!(extract_split_from_role_name("*F10:0").unwrap(), (Split::EnterFortress, 10, 0));
    assert_eq!(extract_split_from_role_name("* EE 9 : 2").unwrap(), (Split::EndEnter, 9, 20));
    assert_eq!(
        extract_split_from_role_name("*bad").err().unwrap(),
        "failed to capture regex for role name: 'bad'."
    );
    assert_eq!(
        extract_split_from_role_name("*NE300:1").err().unwrap(),
        "number too large to fit in target type"
    );
}

#[test]
fn pb_role_names() {
    assert_eq!(extract_split_from_pb_role_name("*NEPB"), Some(Split::EnterNether));
    assert_eq!(extract_split_from_pb_role_name("*EE PB"), Some(Split::EndEnter));
    assert_eq!(extract_split_from_pb_role_name("*XPB"), None);
}

#[test]
fn runner_role_names() {
    let (split, m, s, runner) = extract_splits_and_name_from_role_name("*NE3:0+runner_a").unwrap();
    assert_eq!((split, m, s, runner.as_str()), (Split::EnterNether, 3, 0, "runner_a"));
    assert_eq!(
        extract_splits_and_name_from_role_name("*NE3:0+").err().unwrap(),
        "failed to capture regex for role name: 'NE3:0'."
    );
}

#[test]
fn role_fields_keep_any_split_code() {
    let (code, m, s, _) = read_role_fields("*FS2:3", false).unwrap();
    assert_eq!((code.as_str(), m, s), ("FS", 2, 30));
}

#[test]
fn configuration_lines() {
    let (name, splits) = extract_name_or_uuid_and_splits_from_config_line("  runner : 5/9/12 ").unwrap();
    assert_eq!(name, "runner");
    assert_eq!(splits, RunnerSplits { tower_start: 5, end_enter: 9, finish: Some(12) });
    let (_, splits) = extract_name_or_uuid_and_splits_from_config_line("runner:5/9").unwrap();
    assert_eq!(splits, RunnerSplits { tower_start: 5, end_enter: 9, finish: None });
    assert_eq!(
        extract_name_or_uuid_and_splits_from_config_line("runner:5").err().unwrap(),
        "failed to parse line contents: 'runner:5'."
    );
    assert_eq!(
        extract_name_or_uuid_and_splits_from_config_line("a:b:1/2").err().unwrap(),
        "failed to parse line contents: 'a:b:1/2'."
    );
    assert_eq!(
        extract_name_or_uuid_and_splits_from_config_line("runner:5/x").err().unwrap(),
        "failed to parse to u8 due to: invalid digit found in string"
    );
    assert_eq!(
        extract_name_or_uuid_and_splits_from_config_line("runner:5/256").err().unwrap(),
        "failed to parse to u8 due to: number too large to fit in target type"
    );
}

#[test]
fn whitelist_message_keys_are_lower_case() {
    let m = whitelist_from_message("```\nAlice:1/2\nbob:3/4/5\n```").unwrap();
    assert_eq!(m.get("alice"), Some(RunnerSplits { tower_start: 1, end_enter: 2, finish: None }));
    assert_eq!(m.get("Alice"), None);
    assert_eq!(m.len(), 2);
    assert_eq!(whitelist_from_message("x").err().unwrap(), "failed to parse line contents: 'x'.");
}

#[test]
fn first_channel_of_a_name() {
    let cs = vec![channel("general", 1), channel("pacemanbot", 2), channel("pacemanbot", 3)];
    assert_eq!(find_channel(&cs, "pacemanbot"), Some(2));
    assert_eq!(find_channel(&cs, "other"), None);
}

#[test]
fn pace_roles_read_from_names() {
    let e = Config::parse_role_config_for_role(7, "*NE3:3".to_string()).unwrap();
    assert_eq!((e.split, e.minutes, e.seconds, e.runner.as_str(), e.role_id), (Split::EnterNether, 3, 30, "", 7));
    let e = Config::parse_role_config_for_role(8, "*NEPB".to_string()).unwrap();
    assert_eq!((e.split, e.minutes, e.seconds), (Split::EnterNether, 0, 0));
    let e = Config::parse_role_config_for_role(9, "*B2:0+runner".to_string()).unwrap();
    assert_eq!((e.split, e.runner.as_str()), (Split::Blind, "runner"));
    assert_eq!(
        Config::parse_role_config_for_role(9, "*XPB".to_string()).err().unwrap(),
        "failed to extract split from pb role name: *XPB."
    );
    assert_eq!(
        Config::parse_role_config_for_role(9, "*oops".to_string()).err().unwrap(),
        "failed to extract split from role name: *oops due to: failed to capture regex for role name: 'oops'."
    );
}

fn guild(channels: Option<Vec<ChannelInfo>>, message: Option<&str>, roles: Vec<RoleInfo>) -> Result<GuildCacheEntry, String> {
    Config::parse_config_for_guild("Guild".to_string(), channels, message.map(|m| m.to_string()), roles)
}

#[test]
fn guild_configuration() {
    let channels = vec![
        channel("pacemanbot", 10),
        channel("pacemanbot-runner-names", 11),
        channel("pacemanbot-runner-leaderboard", 12),
    ];
    let roles = vec![role(1, "*NE3:0"), role(2, "*115NE3:0"), role(3, "admin"), role(4, "*FPB")];
    let g = guild(Some(channels), Some("```\nRunner:1/2\n```"), roles).unwrap();
    assert_eq!(g.name, "Guild");
    assert_eq!(g.pace_channel, 10);
    assert_eq!(g.lb_channel, Some(12));
    assert_eq!(g.player_whitelist.get("runner"), Some(RunnerSplits { tower_start: 1, end_enter: 2, finish: None }));
    assert_eq!(g.roles.len(), 2);
    assert_eq!(g.roles[0].role_id, 1);
    assert_eq!(g.roles[1].split, Split::EnterFortress);
    assert_eq!(g.roles[0].role_name, "*NE3:0");
    assert_eq!(g.roles[1].role_name, "*FPB");
}

#[test]
fn guild_configuration_errors() {
    assert_eq!(guild(None, None, vec![]).err().unwrap(), "failed to get channels from guild name: Guild");
    assert_eq!(
        guild(Some(vec![channel("general", 1)]), None, vec![]).err().unwrap(),
        "failed to find #pacemanbot in guild name: Guild"
    );
    let private = vec![channel("pacemanbot", 1), channel("pacemanbot-runner-names", 2)];
    assert_eq!(
        guild(Some(private), None, vec![]).err().unwrap(),
        "failed to get first message from #pacemanbot-runner-names in guild name: Guild."
    );
    let public = vec![channel("pacemanbot", 1)];
    let g = guild(Some(public.clone_channels()), None, vec![]).unwrap();
    assert_eq!(g.player_whitelist.len(), 0);
    assert_eq!(g.lb_channel, None);
    assert_eq!(
        guild(Some(public), None, vec![role(5, "*nope")]).err().unwrap(),
        "failed to make role data for role: *nope in guild name: Guild due to: failed to extract split from role name: *nope due to: failed to capture regex for role name: 'nope'."
    );
}

trait CloneChannels {
    fn clone_channels(&self) -> Vec<ChannelInfo>;
}

impl CloneChannels for Vec<ChannelInfo> {
    fn clone_channels(&self) -> Vec<ChannelInfo> {
        self.iter().map(|c| channel(c.name.as_str(), c.id)).collect()
    }
}

#[test]
fn private_guilds_have_the_runner_names_channel() {
    let names = vec!["general".to_string(), "pacemanbot-runner-names".to_string()];
    assert_eq!(GuildCacheEntry::is_private(String::from("g"), Some(names)), Ok(true));
    assert_eq!(GuildCacheEntry::is_private(String::from("g"), Some(vec!["general".to_string()])), Ok(false));
    assert_eq!(
        GuildCacheEntry::is_private(String::from("g"), None),
        Err("failed to get channels from guild name: g".to_string())
    );
}

#[test]
fn readable_role_names() {
    assert!(try_read_role_fields("*NE3:26", false).is_none());
    assert!(try_read_role_fields("*NE3:25", false).unwrap().is_ok());
    assert!(try_read_role_fields("*oops", false).unwrap().is_err());
    assert!(role_name_readable("*NE3:0", false));
    assert!(!role_name_readable("*QQ3:0", false));
    assert!(role_name_readable("*QQ", false));
    assert!(roles_readable(&vec![role(1, "*NE3:0"), role(2, "*QPB")], "G"));
    assert!(!roles_readable(&vec![role(1, "*NE3:0"), role(2, "*QQ3:0")], "G"));
    assert!(roles_readable(&vec![role(1, "*oops"), role(2, "*QQ3:0")], "G"));
    assert!(roles_readable(&vec![role(1, "*115QQ3:0")], "G"));
}
