use pacemanbot::cache::players::PlayerSplitsData;
use pacemanbot::cache::runner_splits::RunnerSplits;
use pacemanbot::command::command::{CommandOption, OptionValue};
use pacemanbot::command::utils::get_new_config_contents;
use pacemanbot::command::whitelist::{
    apply_whitelist, parse_whitelist_options, read_runner_message, runner_config_contents, whitelist_reply,
    whitelist_request, ConfigMessage, Whitelist, WhitelistUUID,
};
use pacemanbot::components::whitelist::{
    aa_config_contents, aa_whitelist_request, apply_aa_whitelist, extract_name_and_splits_from_line,
    parse_aa_whitelist_options, read_aa_runner_message,
};
use pacemanbot::components::messages::migrate_message;
use pacemanbot::config::config::ChannelInfo;
use pacemanbot::guild_types::PlayerSplitsData as StructureSplitsData;
use pacemanbot::name_map::NameMap;

fn text(name: &str, value: &str) -> CommandOption {
    CommandOption { name: name.to_string(), value: OptionValue::Text(value.to_string()) }
}

fn num(name: &str, value: u64) -> CommandOption {
    CommandOption { name: name.to_string(), value: OptionValue::Unsigned(value) }
}

fn missing(name: &str) -> CommandOption {
    CommandOption { name: name.to_string(), value: OptionValue::Missing }
}

fn channels() -> Vec<ChannelInfo> {
    vec![
        ChannelInfo { name: "pacemanbot".to_string(), id: 1 },
        ChannelInfo { name: "pacemanbot-runner-names".to_string(), id: 2 },
    ]
}

#[test]
fn whitelist_options_in_order() {
    let opts = vec![text("action", "add_or_update"), text("ign", "Runner"), num("tower_start", 5), num("end_enter", 9), num("finish", 12)];
    let q = parse_whitelist_options(&opts).ok().unwrap();
    assert_eq!((q.action.as_str(), q.ign.as_str()), ("add_or_update", "Runner"));
    assert_eq!(q.splits, RunnerSplits { tower_start: 5, end_enter: 9, finish: Some(12) });
    let opts = vec![text("action", "remove"), missing("tower_start")];
    assert!(parse_whitelist_options(&opts).is_ok());
    let opts = vec![text("action", "add"), missing("tower_start")];
    assert_eq!(parse_whitelist_options(&opts).err().unwrap(), "failed to get value for first structure option.");
    let opts = vec![missing("ign")];
    assert_eq!(parse_whitelist_options(&opts).err().unwrap(), "failed to get value for ign option.");
    let opts = vec![num("action", 1)];
    assert_eq!(parse_whitelist_options(&opts).err().unwrap(), "failed to parse string for action option.");
    let opts = vec![text("colour", "red")];
    assert_eq!(parse_whitelist_options(&opts).err().unwrap(), "unrecognized command option: 'colour'");
}

#[test]
fn whitelist_request_by_name_or_uuid() {
    let opts = vec![text("action", "add"), text("ign", "Runner"), text("uuid", "u-1"), num("tower_start", 3), num("end_enter", 4)];
    let t = whitelist_request(5, Some(channels()), &opts, false).ok().unwrap();
    assert_eq!((t.channel, t.key.as_str()), (2, "Runner"));
    let t = whitelist_request(5, Some(channels()), &opts, true).ok().unwrap();
    assert_eq!(t.key, "u-1");
    assert_eq!(whitelist_request(5, None, &opts, false).err().unwrap(), "failed to get channels for guild id: 5");
    let only_pace = vec![ChannelInfo { name: "pacemanbot".to_string(), id: 1 }];
    assert_eq!(
        whitelist_request(5, Some(only_pace), &opts, false).err().unwrap(),
        "failed to find #pacemanbot-runner-names in guild id: 5"
    );
}

#[test]
fn whitelisting_writes_a_sorted_configuration() {
    let splits = RunnerSplits { tower_start: 5, end_enter: 9, finish: None };
    let w = apply_whitelist(1, "add", "bob".to_string(), splits, None).ok().unwrap();
    assert!(!w.edit_existing);
    assert_eq!(w.content, "```\n\nbob:5/9\n```");
    let existing = ConfigMessage { from_bot: true, content: w.content.clone() };
    let alice = RunnerSplits { tower_start: 1, end_enter: 2, finish: Some(3) };
    let w = apply_whitelist(1, "add", "Alice".to_string(), alice, Some(existing)).ok().unwrap();
    assert!(w.edit_existing);
    assert_eq!(w.content, "```\n\nAlice:1/2/3\nbob:5/9\n```");
    let existing = ConfigMessage { from_bot: true, content: w.content.clone() };
    let w = apply_whitelist(1, "remove", "bob".to_string(), splits, Some(existing)).ok().unwrap();
    assert_eq!(w.content, "```\n\nAlice:1/2/3\n```");
    assert_eq!(whitelist_reply(), "Updated config!");
}

#[test]
fn whitelisting_refusals() {
    let splits = RunnerSplits { tower_start: 5, end_enter: 9, finish: None };
    assert_eq!(
        apply_whitelist(4, "remove", "bob".to_string(), splits, None).err().unwrap(),
        "failed to remove names from in guild id: 4"
    );
    let by_member = ConfigMessage { from_bot: false, content: "```\n```".to_string() };
    assert_eq!(
        apply_whitelist(4, "add", "bob".to_string(), splits, Some(by_member)).err().unwrap(),
        "failed as the first message in #pacemanbot-runner-names is not from the bot."
    );
    let broken = ConfigMessage { from_bot: true, content: "```\nbob\n```".to_string() };
    assert_eq!(
        apply_whitelist(4, "add", "bob".to_string(), splits, Some(broken)).err().unwrap(),
        "failed to parse line contents: 'bob'."
    );
}

#[test]
fn a_written_configuration_reads_back() {
    let mut m: NameMap<RunnerSplits> = NameMap::new();
    m.insert("zed".to_string(), RunnerSplits { tower_start: 9, end_enter: 10, finish: Some(11) });
    m.insert("Amy".to_string(), RunnerSplits { tower_start: 1, end_enter: 2, finish: None });
    let text = runner_config_contents(&m);
    assert_eq!(text, "\nAmy:1/2\nzed:9/10/11");
    let back = read_runner_message(format!("```\n{}\n```", text).as_str()).ok().unwrap();
    assert_eq!(back.len(), 2);
    assert_eq!(back.get("zed"), m.get("zed"));
    assert_eq!(back.get("Amy"), m.get("Amy"));
}

#[test]
fn structure_configuration_text() {
    let mut m: NameMap<StructureSplitsData> = NameMap::new();
    m.insert(
        "b".to_string(),
        StructureSplitsData { first_structure: 1, second_structure: 2, blind: 3, eye_spy: 4, end_enter: 5, finish: Some(6) },
    );
    m.insert("A".to_string(), StructureSplitsData::default());
    assert_eq!(get_new_config_contents(&m), "\nA:0/0/0/0/0\nb:1/2/3/4/5/6");
}

#[test]
fn command_names() {
    assert_eq!(Whitelist.name(), "whitelist_17");
    assert_eq!(WhitelistUUID.name(), "whitelist_uuid_aa");
    assert!(WhitelistUUID.description().contains("uuid"));
    assert!(Whitelist.description().contains("ign"));
}

#[test]
fn all_advancements_options_add_hours_and_minutes() {
    let opts = vec![
        text("action", "add_or_update"),
        text("ign", "Its_Saanvi"),
        num("adventuring_time_hours", 1),
        num("adventuring_time_minutes", 10),
        num("beaconator_hours", 2),
        num("beaconator_minutes", 20),
        num("hdwgh_hours", 3),
        num("hdwgh_minutes", 30),
    ];
    let q = parse_aa_whitelist_options(&opts).unwrap().ok().unwrap();
    assert_eq!(q.splits, PlayerSplitsData { adventuring_time: 70, beaconator: 140, hdwgh: 210, finish: None });
    let mut with_finish = opts;
    with_finish.push(num("finish_hours", 4));
    with_finish.push(num("finish_minutes", 40));
    let q = parse_aa_whitelist_options(&with_finish).unwrap().ok().unwrap();
    assert_eq!(q.splits.finish, Some(280));
    let only_minutes = vec![num("finish_minutes", 5)];
    assert_eq!(parse_aa_whitelist_options(&only_minutes).unwrap().ok().unwrap().splits.finish, Some(5));
}

#[test]
fn all_advancements_option_errors() {
    let opts = vec![text("action", "add_or_update"), missing("adventuring_time_hours")];
    assert_eq!(
        parse_aa_whitelist_options(&opts).unwrap().err().unwrap(),
        "WhitelistError: get value for adventuring time hours option."
    );
    let opts = vec![text("action", "remove"), missing("hdwgh_minutes"), missing("finish_hours")];
    assert!(parse_aa_whitelist_options(&opts).unwrap().is_ok());
    let opts = vec![text("beaconator_minutes", "ten")];
    assert_eq!(
        parse_aa_whitelist_options(&opts).unwrap().err().unwrap(),
        "WhitelistError: parse u64 for beaconator minutes option."
    );
    let opts = vec![CommandOption { name: "finish_hours".to_string(), value: OptionValue::Other }];
    assert_eq!(parse_aa_whitelist_options(&opts).unwrap().err().unwrap(), "WhitelistError: parse u64 for finish hours option.");
    let opts = vec![missing("action")];
    assert_eq!(parse_aa_whitelist_options(&opts).unwrap().err().unwrap(), "WhitelistError: get value for action option.");
    let huge = vec![num("adventuring_time_hours", 100_000_000)];
    assert!(parse_aa_whitelist_options(&huge).is_none());
    let sum = vec![num("beaconator_minutes", 4_294_967_295), num("beaconator_minutes", 1)];
    assert!(parse_aa_whitelist_options(&sum).is_none());
    let wraps = vec![num("hdwgh_minutes", 4_294_967_296 + 5)];
    assert_eq!(parse_aa_whitelist_options(&wraps).unwrap().ok().unwrap().splits.hdwgh, 5);
    let opts = vec![text("speed", "1")];
    assert_eq!(parse_aa_whitelist_options(&opts).unwrap().err().unwrap(), "Unrecognized command option: 'speed'");
}

#[test]
fn all_advancements_request() {
    let opts = vec![text("action", "add"), text("ign", "r")];
    let t = aa_whitelist_request(9, Some(channels()), &opts).unwrap().ok().unwrap();
    assert_eq!((t.channel, t.ign.as_str(), t.action.as_str()), (2, "r", "add"));
    assert_eq!(aa_whitelist_request(9, None, &opts).unwrap().err().unwrap(), "WhitelistError: get channels for guild id: 9");
    let only_pace = vec![ChannelInfo { name: "pacemanbot".to_string(), id: 1 }];
    assert_eq!(
        aa_whitelist_request(9, Some(only_pace), &opts).unwrap().err().unwrap(),
        "WhitelistError: find #pacemanbot-runner-names in guild id: 9"
    );
}

#[test]
fn all_advancements_lines() {
    let (n, s) = extract_name_and_splits_from_line(" Its_Saanvi : 70/140/210/280 ").unwrap();
    assert_eq!(n, "Its_Saanvi");
    assert_eq!(s, PlayerSplitsData { adventuring_time: 70, beaconator: 140, hdwgh: 210, finish: Some(280) });
    assert_eq!(
        extract_name_and_splits_from_line("r:1/2").err().unwrap(),
        "failed to parse line contents: 'r:1/2'."
    );
    assert_eq!(
        extract_name_and_splits_from_line("r:1/2/4294967296").err().unwrap(),
        "failed to parse to u32 due to: number too large to fit in target type"
    );
}

#[test]
fn all_advancements_whitelisting() {
    let s = PlayerSplitsData { adventuring_time: 70, beaconator: 140, hdwgh: 210, finish: None };
    let w = apply_aa_whitelist(7, "add_or_update", "Its_Saanvi".to_string(), s, None).ok().unwrap();
    assert!(!w.edit_existing);
    assert_eq!(w.content, "```\n\nIts_Saanvi:70/140/210\n```");
    let back = read_aa_runner_message(w.content.as_str()).ok().unwrap();
    assert_eq!(back.get("Its_Saanvi"), Some(s));
    let w2 = apply_aa_whitelist(7, "remove", "Its_Saanvi".to_string(), s, Some((true, w.content.clone()))).ok().unwrap();
    assert!(w2.edit_existing);
    assert_eq!(w2.content, "```\n\n```");
    assert_eq!(
        apply_aa_whitelist(7, "remove", "x".to_string(), s, None).err().unwrap(),
        "WhitelistError: No names to remove from in guild id: 7"
    );
    assert_eq!(
        apply_aa_whitelist(7, "add", "x".to_string(), s, Some((false, String::new()))).err().unwrap(),
        "WhitelistError: The first message in #pacemanbot-runner-names is not from the bot."
    );
    let mut m: NameMap<PlayerSplitsData> = NameMap::new();
    m.insert("b".to_string(), s);
    m.insert("a".to_string(), PlayerSplitsData { finish: Some(1), ..s });
    assert_eq!(aa_config_contents(&m), "\na:70/140/210/1\nb:70/140/210");
}

#[test]
fn a_migrated_configuration_lists_the_same_runners() {
    let old = "Its_Saanvi:60/120/180\nother:1/2/3/4";
    let migrated = migrate_message(7, Some((false, old.to_string()))).unwrap();
    assert_eq!(migrated, "```\nIts_Saanvi:60/120/180\nother:1/2/3/4\n```");
    let before = read_aa_runner_message(old).ok().unwrap();
    let after = read_aa_runner_message(&migrated).ok().unwrap();
    assert_eq!(after.len(), 2);
    assert_eq!(before.get("Its_Saanvi"), after.get("Its_Saanvi"));
    assert_eq!(before.get("other"), after.get("other"));
    assert_eq!(
        after.get("other"),
        Some(PlayerSplitsData { adventuring_time: 1, beaconator: 2, hdwgh: 3, finish: Some(4) })
    );
    let broken = migrate_message(7, Some((true, "bad line".to_string()))).unwrap();
    assert_eq!(read_aa_runner_message(&broken).err(), read_aa_runner_message("bad line").err());
}
