use pacemanbot::cache::aa_split::AaSplit;
use pacemanbot::cache::guild_cache_entry::Split;
use pacemanbot::cache::player_cache_entry::PlayerCacheEntry;
use pacemanbot::cache::players::PlayerSplitsData as AaSplitsData;
use pacemanbot::cache::role_cache_entry::RoleCacheEntry;
use pacemanbot::cache::runner_splits::RunnerSplits;
use pacemanbot::dispatcher::dispatcher::{
    decide_finish, decide_guild, find_whitelist_key, is_supported_version, kind_of_event, roles_to_ping,
    updates_leaderboard, EventKind, FinishStep, GuildStep,
};
use pacemanbot::dispatcher::leaderboard::update_leaderboard;
use pacemanbot::dispatcher::message::{
    author_name, edited_ping_content, finish_headline, join_mentions, mention_role, pace_headline, pace_metadata,
    ping_content, replace_char, twitch_link,
};
use pacemanbot::dispatcher::pace_event::{aa_roles_to_ping, decide_aa_finish, AaFinishStep, AaRole};
use pacemanbot::name_map::NameMap;
use pacemanbot::ws::{Event, EventId};
use pacemanbot::dispatcher::leaderboard::leaderboard_readable;

fn role(split: Split, minutes: u8, seconds: u8, runner: &str, id: u64, name: &str) -> RoleCacheEntry {
    RoleCacheEntry { split, minutes, seconds, runner: runner.to_string(), role_id: id, role_name: name.to_string() }
}

fn at(id: EventId, igt: u64) -> Event {
    Event { event_id: id, igt }
}

#[test]
fn only_records_of_1_16_1_are_handled() {
    assert!(is_supported_version(&None));
    assert!(is_supported_version(&Some("1.16.1".to_string())));
    assert!(!is_supported_version(&Some("1.17".to_string())));
}

#[test]
fn kinds_of_events() {
    assert_eq!(kind_of_event(&at(EventId::RsgEnterNether, 1)), EventKind::Pace);
    assert_eq!(kind_of_event(&at(EventId::RsgCredits, 1)), EventKind::Finish);
    assert_eq!(kind_of_event(&at(EventId::RsgObtainBlazeRod, 1)), EventKind::Unknown);
}

#[test]
fn guilds_hear_of_live_or_whitelisted_runners() {
    assert_eq!(decide_guild(false, false, true), GuildStep::SkipNotLive);
    assert_eq!(decide_guild(false, true, true), GuildStep::Handle);
    assert_eq!(decide_guild(true, true, false), GuildStep::SkipNotWhitelisted);
    assert_eq!(decide_guild(true, false, false), GuildStep::AddRunner);
    assert_eq!(decide_guild(true, false, true), GuildStep::Handle);
}

#[test]
fn whitelist_keys_prefer_the_uuid() {
    let mut w: NameMap<RunnerSplits> = NameMap::new();
    w.insert("runner".to_string(), RunnerSplits::default());
    w.insert("uuid-1".to_string(), RunnerSplits::default());
    assert_eq!(find_whitelist_key(&w, "Runner", "uuid-1"), Some("uuid-1".to_string()));
    assert_eq!(find_whitelist_key(&w, "Runner", "uuid-2"), Some("runner".to_string()));
    assert_eq!(find_whitelist_key(&w, "Other", "uuid-2"), None);
}

#[test]
fn timed_roles_ping_below_their_time() {
    let player = PlayerCacheEntry::default();
    let r = role(Split::EnterNether, 3, 30, "", 1, "*NE3:3");
    let e = at(EventId::RsgEnterNether, 200000);
    assert!(r.is_pingable(&player, &Split::EnterNether, &e, false, "x"));
    assert!(!r.is_pingable(&player, &Split::EnterNether, &at(EventId::RsgEnterNether, 210000), false, "x"));
    assert!(!r.is_pingable(&player, &Split::EnterNether, &at(EventId::RsgEnterNether, 215000), false, "x"));
    assert!(!r.is_pingable(&player, &Split::Blind, &e, false, "x"));
    assert!(r.is_pingable(&player, &Split::EnterNether, &at(EventId::RsgEnterNether, 179999), false, "x"));
}

#[test]
fn pb_and_runner_roles() {
    let player = PlayerCacheEntry { enter_nether: 4, enter_fortress: 0, blind: 0, eye_spy: 0, end_enter: 0, finish: None };
    let pb = role(Split::EnterNether, 0, 0, "", 2, "*NEPB");
    let e = at(EventId::RsgEnterNether, 200000);
    assert!(pb.is_pingable(&player, &Split::EnterNether, &e, true, "x"));
    assert!(!pb.is_pingable(&player, &Split::EnterNether, &e, false, "x"));
    assert!(!pb.is_pingable(&player, &Split::EnterNether, &at(EventId::RsgEnterNether, 240000), true, "x"));
    let own = role(Split::EnterNether, 5, 0, "Runner", 3, "*NE5:0+Runner");
    assert!(own.is_pingable(&player, &Split::EnterNether, &e, false, "RUNNER"));
    assert!(!own.is_pingable(&player, &Split::EnterNether, &e, false, "someone"));
}

#[test]
fn pinged_roles_in_order() {
    let player = PlayerCacheEntry::default();
    let roles = vec![
        role(Split::EnterNether, 5, 0, "", 1, "*NE5:0"),
        role(Split::EnterNether, 2, 0, "", 2, "*NE2:0"),
        role(Split::EnterNether, 4, 0, "runner", 3, "*NE4:0+runner"),
        role(Split::Blind, 9, 0, "", 4, "*B9:0"),
    ];
    let e = at(EventId::RsgEnterNether, 200000);
    assert_eq!(roles_to_ping(&roles, &player, &Split::EnterNether, &e, false, "runner", false), vec![1, 3]);
    assert_eq!(roles_to_ping(&roles, &player, &Split::EnterNether, &e, false, "runner", true), vec![3]);
}

#[test]
fn finishes_under_the_threshold_are_sent() {
    assert_eq!(decide_finish(None, 600000, false), FinishStep::SkipSlowPublic);
    assert_eq!(decide_finish(None, 599999, false), FinishStep::Send);
    assert_eq!(decide_finish(None, 600000, true), FinishStep::Send);
    assert_eq!(decide_finish(Some(12), 600000, true), FinishStep::Send);
    assert_eq!(decide_finish(Some(10), 600000, true), FinishStep::SkipOverThreshold);
    assert!(updates_leaderboard(true, Some(3)));
    assert!(!updates_leaderboard(false, Some(3)));
    assert!(!updates_leaderboard(true, None));
}

#[test]
fn pace_message_texts() {
    assert_eq!(replace_char("a_b_c", '_', '-'), "a-b-c");
    assert_eq!(author_name("a_b"), "a\u{2cd}b");
    assert_eq!(twitch_link("acc"), "https://twitch.tv/acc");
    assert_eq!(mention_role(42), "<@&42>");
    assert_eq!(join_mentions(&vec![1, 2]), "<@&1> <@&2>");
    assert_eq!(join_mentions(&vec![]), "");
    let meta = pace_metadata(true, 200000, "Enter Nether", "a_b");
    assert_eq!(meta, "\u{1F534} 0:00:20 - Enter Nether a\u{2cd}b");
    assert_eq!(pace_metadata(false, 0, "X", "r"), "\u{26AA} 0:00:00 - X r");
    let ping = ping_content("meta", &vec![1, 2]);
    assert_eq!(ping, "meta\n-# <@&1> <@&2>");
    assert_eq!(edited_ping_content(ping.as_str(), &vec![1], "meta"), "-# <@&2>");
    assert_eq!(edited_ping_content(ping.as_str(), &vec![2], "meta"), "-# <@&1> <@&2>");
    assert_eq!(pace_headline("E", 200000, "Enter Nether"), "E  0:00:20 - Enter Nether");
    assert_eq!(finish_headline(3600000), "\u{1F3C6}  1:00:00 - Finish");
}

#[test]
fn a_first_finish_starts_the_leaderboard() {
    let w = update_leaderboard(None, "runner".to_string(), (9, 30)).unwrap();
    assert!(!w.edit_existing);
    assert_eq!(w.content, "## Runner Leaderboard\n\n`0:00:30`\t\trunner");
}

#[test]
fn the_leaderboard_lists_each_runner_fastest_first() {
    let existing = "## Runner Leaderboard\n\n`1:00:05`\t\talice\n`2:00:00`\t\tbob".to_string();
    let w = update_leaderboard(Some(existing), "carol".to_string(), (1, 30)).unwrap();
    assert!(w.edit_existing);
    assert_eq!(w.content, "## Runner Leaderboard\n\n`0:00:00`\t\talice\n`0:00:30`\t\tcarol\n`0:00:00`\t\tbob");
}

#[test]
fn the_leaderboard_keeps_the_best_time() {
    let existing = "## Runner Leaderboard\n\n`1:00:00`\t\talice".to_string();
    let slower = update_leaderboard(Some(existing.clone()), "alice".to_string(), (2, 0)).unwrap();
    assert_eq!(slower.content, "## Runner Leaderboard\n\n`0:00:00`\t\talice");
    let faster = update_leaderboard(Some(existing), "alice".to_string(), (0, 30)).unwrap();
    assert_eq!(faster.content, "## Runner Leaderboard\n\n`0:00:30`\t\talice");
}

#[test]
fn a_broken_leaderboard_is_refused() {
    let existing = "## Runner Leaderboard\n\nbroken line".to_string();
    assert_eq!(
        update_leaderboard(Some(existing), "a".to_string(), (1, 0)).err().unwrap(),
        "failed to parse leaderboard message."
    );
}

fn aa_role(split: AaSplit, hours: u8, minutes: u8, runner: &str, id: u64, name: &str) -> AaRole {
    AaRole { split, hours, minutes, runner: runner.to_string(), role_id: id, role_name: name.to_string() }
}

#[test]
fn all_advancements_roles() {
    let player = AaSplitsData { adventuring_time: 0, beaconator: 150, hdwgh: 0, finish: None };
    let timed = aa_role(AaSplit::Beaconator, 2, 30, "", 1, "*B2:30");
    assert!(timed.is_pingable(&player, &AaSplit::Beaconator, 8100000, false, "x"));
    assert!(timed.is_pingable(&player, &AaSplit::Beaconator, 10799999, false, "x"));
    assert!(!timed.is_pingable(&player, &AaSplit::Beaconator, 10800000, false, "x"));
    let pb = aa_role(AaSplit::Beaconator, 0, 0, "", 2, "*BPB");
    assert!(pb.is_pingable(&player, &AaSplit::Beaconator, 3600000, true, "x"));
    assert!(!pb.is_pingable(&player, &AaSplit::Beaconator, 7200000, true, "x"));
    assert!(!pb.is_pingable(&player, &AaSplit::Beaconator, 3600000, false, "x"));
    let own = aa_role(AaSplit::HDWGH, 5, 0, "Saanvi", 3, "*H5:0+Saanvi");
    let roles = vec![timed, pb, own];
    assert_eq!(aa_roles_to_ping(&roles, &player, &AaSplit::Beaconator, 3600000, true, "saanvi", false), vec![1, 2]);
    assert_eq!(aa_roles_to_ping(&roles, &player, &AaSplit::HDWGH, 3600000, true, "SAANVI", false), vec![3]);
    assert_eq!(aa_roles_to_ping(&roles, &player, &AaSplit::HDWGH, 3600000, true, "SAANVI", true), vec![3]);
}

#[test]
fn all_advancements_completions() {
    assert_eq!(decide_aa_finish(Some(180), 7200000, true), AaFinishStep::Send);
    assert_eq!(decide_aa_finish(Some(180), 10800000, true), AaFinishStep::SkipOverThreshold);
    assert_eq!(decide_aa_finish(None, 10800000, false), AaFinishStep::SkipSlowPublic);
    assert_eq!(decide_aa_finish(None, 10800000, true), AaFinishStep::Send);
    assert_eq!(decide_aa_finish(None, 10799999, false), AaFinishStep::Send);
}

#[test]
fn readable_leaderboards() {
    assert!(leaderboard_readable("## Runner Leaderboard\n\n`1:00:05`\t\talice"));
    assert!(!leaderboard_readable("## Runner Leaderboard\n\n`1:xx:05`\t\talice"));
    assert!(!leaderboard_readable("## Runner Leaderboard\n\n`1`\t\talice"));
    assert!(leaderboard_readable("## Runner Leaderboard\n\nbroken\n`1`\t\talice"));
    assert!(leaderboard_readable(""));
}

#[test]
fn what_an_update_writes_the_next_update_reads() {
    let first = update_leaderboard(None, "runner".to_string(), (9, 30)).unwrap();
    assert!(leaderboard_readable(&first.content));
    let second = update_leaderboard(Some(first.content), "other".to_string(), (5, 0)).unwrap();
    assert!(second.edit_existing);
    assert!(leaderboard_readable(&second.content));
    assert_eq!(second.content, "## Runner Leaderboard\n\n`0:00:00`\t\trunner\n`0:00:00`\t\tother");
}
