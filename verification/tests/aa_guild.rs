use pacemanbot::cache::guild_cache_entry::Split;
use pacemanbot::cache::guild_data::AaGuildData;
use pacemanbot::cache::players::PlayerSplitsData;
use pacemanbot::config::config::{ChannelInfo, RoleInfo};
use pacemanbot::config::parsers::extract_split_from_pb_role_name;
use pacemanbot::dispatcher::pace_event::aa_runner_data;
use pacemanbot::name_map::NameMap;

fn channel(name: &str, id: u64) -> ChannelInfo {
    ChannelInfo { name: name.to_string(), id }
}

fn role(id: u64, name: &str) -> RoleInfo {
    RoleInfo { id, name: name.to_string() }
}

fn splits(a: u32, b: u32, h: u32, f: Option<u32>) -> PlayerSplitsData {
    PlayerSplitsData { adventuring_time: a, beaconator: b, hdwgh: h, finish: f }
}

#[test]
fn a_private_guild_reads_its_runners_by_lower_case_name() {
    let channels = vec![
        channel("general", 1),
        channel("pacemanbot", 2),
        channel("pacemanbot-runner-names", 3),
        channel("pacemanbot-runner-leaderboard", 4),
    ];
    let roles = vec![role(10, "*B2:30"), role(11, "admin"), role(12, "*HPB")];
    let g = AaGuildData::new(
        5,
        Some("G".to_string()),
        Some(channels),
        Some("```\nIts_Saanvi:60/120/180/240\n```".to_string()),
        &roles,
    )
    .ok()
    .unwrap();
    assert_eq!(g.name, "G");
    assert_eq!(g.pace_channel, 2);
    assert_eq!(g.lb_channel, Some(4));
    assert!(g.is_private);
    assert_eq!(g.players.get("its_saanvi"), Some(splits(60, 120, 180, Some(240))));
    assert_eq!(g.players.get("Its_Saanvi"), None);
    assert_eq!(g.pace_roles.len(), 2);
    assert_eq!((g.pace_roles[0].id, g.pace_roles[1].name.as_str()), (10, "*HPB"));
}

#[test]
fn a_public_guild_has_no_runners_to_read() {
    let g = AaGuildData::new(5, Some("G".to_string()), Some(vec![channel("pacemanbot", 2)]), None, &vec![]).ok().unwrap();
    assert!(!g.is_private);
    assert_eq!(g.lb_channel, None);
    assert_eq!(g.players.len(), 0);
}

#[test]
fn guild_configuration_errors_in_order() {
    assert_eq!(
        AaGuildData::new(5, None, None, None, &vec![]).err().unwrap(),
        "GuildDataError: construct guild from guild id: 5"
    );
    assert_eq!(
        AaGuildData::new(5, Some("G".to_string()), None, None, &vec![]).err().unwrap(),
        "GuildDataError: get channels from guild name: G"
    );
    assert_eq!(
        AaGuildData::new(5, Some("G".to_string()), Some(vec![channel("x", 1)]), None, &vec![]).err().unwrap(),
        "GuildDataError: find #pacemanbot in guild name: G"
    );
    let private = vec![channel("pacemanbot", 2), channel("pacemanbot-runner-names", 3)];
    assert_eq!(
        AaGuildData::new(5, Some("G".to_string()), Some(private), None, &vec![]).err().unwrap(),
        "GuildDataError: get first message from #pacemanbot-runner-names in guild name: G."
    );
    let private = vec![channel("pacemanbot", 2), channel("pacemanbot-runner-names", 3)];
    assert_eq!(
        AaGuildData::new(5, Some("G".to_string()), Some(private), Some("bad".to_string()), &vec![]).err().unwrap(),
        "failed to parse line contents: 'bad'."
    );
}

#[test]
fn unknown_runners_are_skipped_in_private_guilds_and_added_in_public_ones() {
    let mut players: NameMap<PlayerSplitsData> = NameMap::new();
    players.insert("its_saanvi".to_string(), splits(1, 2, 3, None));
    assert_eq!(aa_runner_data(&mut players, "Its_Saanvi", true), Some(splits(1, 2, 3, None)));
    assert_eq!(aa_runner_data(&mut players, "Other", true), None);
    assert_eq!(players.len(), 1);
    assert_eq!(aa_runner_data(&mut players, "Other", false), Some(splits(0, 0, 0, None)));
    assert_eq!(players.len(), 2);
    assert_eq!(players.get("other"), Some(splits(0, 0, 0, None)));
}

#[test]
fn pb_role_names_read_back_as_their_split() {
    for sp in [Split::EnterNether, Split::EnterFortress, Split::Blind, Split::EyeSpy, Split::EndEnter] {
        assert_eq!(extract_split_from_pb_role_name(&format!("*{}PB", sp.to_str())), Some(sp));
    }
}
