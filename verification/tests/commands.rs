use pacemanbot::cache::aa_split::AaSplit;
use pacemanbot::cache::guild_cache_entry::Split;
use pacemanbot::cache::split::Split as TowerSplit;
use pacemanbot::command::command::{CommandOption, OptionValue};
use pacemanbot::command::roles::{
    default_roles, needs_role, parse_range_options, partial_success, pb_roles, pb_roles_to_remove, range_reply,
    range_roles, range_split, remove_pb_roles_reply, remove_roles_reply, split_roles_to_remove, split_to_remove,
    validate_config_reply, with_errors, RemovePBRoles, RemoveRoles, SetupDefaultRoles, SetupPBRoles, SetupRoles,
    ValidateConfig, ROLE_COLOR,
};
use pacemanbot::command::send_message::{
    pace_offer_order, pace_select_options, selection_message_text, sent_message_reply, SendMessage,
};
use pacemanbot::command::setup_pings::{
    aa_setup_pings_plan, parse_pings_options, runner_ping_role_to_remove, setup_pings_plan, PingsPlan,
    PingsRequest, SetupPings,
};
use pacemanbot::components::messages::{
    find_migrate_channel, migrate_message, migrate_reply, pb_roles_of_member, plan_select_role,
    removable_roles_prefix, roles_removed_reply, roles_updated_reply,
};
use pacemanbot::config::config::{ChannelInfo, Config, RoleInfo};
use pacemanbot::settings::{Env, General};
use pacemanbot::command::roles::split_removal_readable;
use pacemanbot::command::roles::{
    aa_pb_roles, aa_pb_roles_reply, aa_range_reply, aa_range_roles, aa_range_split, default_roles_reply,
    parse_aa_range_options, pb_roles_reply,
};
use pacemanbot::command::send_message::selection_readable;

fn role(id: u64, name: &str) -> RoleInfo {
    RoleInfo { id, name: name.to_string() }
}

fn opt(name: &str, value: OptionValue) -> CommandOption {
    CommandOption { name: name.to_string(), value }
}

fn text(s: &str) -> OptionValue {
    OptionValue::Text(s.to_string())
}

#[test]
fn pb_roles_of_this_category_are_removed() {
    let roles = vec![role(1, "*NEPB"), role(2, "*115NEPB"), role(3, "*NEPB+x"), role(4, "*NE3:0"), role(5, "*AAPB")];
    assert_eq!(pb_roles_to_remove(&roles), vec![1]);
    assert_eq!(remove_pb_roles_reply(), "Removed all PB pace-roles!");
}

#[test]
fn the_split_of_remove_roles() {
    let (name, split) = split_to_remove(&vec![opt("split_name", text("enter_nether"))]).unwrap();
    assert_eq!((name.as_str(), split), ("enter_nether", Split::EnterNether));
    assert_eq!(split_to_remove(&vec![]).err().unwrap(), "no options provided.");
    assert_eq!(split_to_remove(&vec![opt("split", text("blind"))]).err().unwrap(), "unrecognized option name.");
    assert_eq!(
        split_to_remove(&vec![opt("split_name", OptionValue::Missing)]).err().unwrap(),
        "failed to get value for option name: 'split_name'."
    );
    assert_eq!(
        split_to_remove(&vec![opt("split_name", OptionValue::Unsigned(1))]).err().unwrap(),
        "failed to convert 'split_name' into '&str'."
    );
    assert_eq!(
        split_to_remove(&vec![opt("split_name", text("bogus"))]).err().unwrap(),
        "unrecognized split name: 'bogus'."
    );
}

#[test]
fn timed_roles_of_a_split_are_removed_and_unreadable_ones_reported() {
    let roles = vec![role(1, "*NE3:0"), role(2, "*F3:0"), role(3, "*bad"), role(4, "*NEPB"), role(5, "*NE4:3")];
    let (ids, errors) = split_roles_to_remove(&roles, &Split::EnterNether);
    assert_eq!(ids, vec![1, 5]);
    assert_eq!(errors, vec!["failed to extract split from role name: '*bad': failed to capture regex for role name: 'bad'.".to_string()]);
    assert_eq!(with_errors("content", &vec!["a".to_string(), "b".to_string()]), "content\n\ta\n\tb");
    assert_eq!(with_errors("content", &vec![]), "content");
    assert_eq!(partial_success(&errors), format!("succeded but with some errors: {}", errors[0]));
    assert_eq!(remove_roles_reply("blind"), "Removed all roles for split name: blind");
}

#[test]
fn setup_roles_options_and_names() {
    let opts = vec![
        opt("split_name", text("enter_nether")),
        opt("split_start", OptionValue::Unsigned(2)),
        opt("split_end", OptionValue::Unsigned(4)),
    ];
    let q = parse_range_options(&opts).ok().unwrap();
    assert_eq!((q.split_name.as_str(), q.split_start, q.split_end), ("enter_nether", 2, 4));
    let split = range_split(q.split_name.as_str()).unwrap();
    assert_eq!(range_roles(&split, 2, 4), vec!["*NE2:0", "*NE2:3", "*NE3:0", "*NE3:3", "*NE4:0"]);
    assert_eq!(range_roles(&split, 5, 5), vec!["*NE5:0"]);
    assert_eq!(range_roles(&split, 5, 3), vec!["*NE3:0"]);
    assert_eq!(
        range_reply("enter_nether", 2, 4),
        "Pace-roles for split name: enter_nether with lower bound: 2 minutes and upper bound: 4 minutes have been setup!"
    );
    assert_eq!(range_split("tower_start").err().unwrap(), "failed to get split name: 'tower_start'.");
    assert_eq!(
        parse_range_options(&vec![opt("split_start", OptionValue::Other)]).err().unwrap(),
        "failed to convert 'split_start' into 'u64'."
    );
    assert_eq!(
        parse_range_options(&vec![opt("split_end", OptionValue::Missing)]).err().unwrap(),
        "failed to get value for option name: 'split_end'."
    );
    assert_eq!(parse_range_options(&vec![opt("x", text("y"))]).err().unwrap(), "failed to get option name.");
}

#[test]
fn pb_and_default_role_names() {
    assert_eq!(pb_roles(), vec!["*TPB", "*EEPB"]);
    let d = default_roles();
    assert_eq!(d.len(), 21);
    assert_eq!(d[0], "*FS2:0");
    assert_eq!(d[20], "*EE10:0");
    assert!(needs_role(&vec!["*NE3:0".to_string()], "*NE3:3"));
    assert!(!needs_role(&vec!["*NE3:0".to_string()], "*NE3:0"));
    assert_eq!(ROLE_COLOR, 0x36393F);
}

#[test]
fn validation_replies() {
    let channels = vec![ChannelInfo { name: "pacemanbot".to_string(), id: 1 }];
    let ok = Config::parse_config_for_guild("G".to_string(), Some(channels), None, vec![]);
    assert_eq!(validate_config_reply(&ok), "Config validation successful! Bot will send paces in #pacemanbot.");
    let err = Config::parse_config_for_guild("G".to_string(), None, None, vec![]);
    assert_eq!(validate_config_reply(&err), "Error: failed to get channels from guild name: G");
}

#[test]
fn command_names_and_descriptions() {
    assert_eq!(RemovePBRoles.name(), "remove_pb_roles");
    assert_eq!(RemoveRoles.name(), "remove_roles");
    assert_eq!(SetupRoles.name(), "setup_roles_17");
    assert_eq!(SetupPBRoles.name(), "setup_pb_roles_17");
    assert_eq!(SetupDefaultRoles.name(), "setup_default_roles");
    assert_eq!(ValidateConfig.name(), "validate_config_115");
    assert_eq!(SendMessage.name(), "send_message_aa");
    assert_eq!(SetupPings.name(), "setup_pings_115");
    assert_eq!(SetupDefaultRoles.description(), "Setup default pace-roles for sub 10.");
    assert_eq!(RemoveRoles.description(), "Remove all pace-roles based on split.");
}

fn request(action: &str, ign: &str, split: &str, time: u8) -> PingsRequest {
    PingsRequest { action: action.to_string(), ign: ign.to_string(), split: split.to_string(), time }
}

#[test]
fn setup_pings_options() {
    let opts = vec![opt("action", text("add_or_update")), opt("ign", text("r")), opt("split", text("NE")), opt("time", OptionValue::Unsigned(300)), opt("other", text("x"))];
    let q = parse_pings_options("failed to setup pings: ", &opts).ok().unwrap();
    assert_eq!((q.action.as_str(), q.ign.as_str(), q.split.as_str(), q.time), ("add_or_update", "r", "NE", 44));
    assert_eq!(
        parse_pings_options("SetupPingsError: ", &vec![opt("split", OptionValue::Missing)]).err().unwrap(),
        "SetupPingsError: get value for 'split' for command."
    );
    assert_eq!(
        parse_pings_options("SetupPingsError: ", &vec![opt("ign", OptionValue::Missing)]).err().unwrap(),
        "SetupPingsError: get value for 'ign' for command"
    );
    assert_eq!(
        parse_pings_options("x: ", &vec![opt("time", text("5"))]).err().unwrap(),
        "x: convert 'time' value to u64"
    );
}

#[test]
fn setup_pings_plans() {
    match setup_pings_plan(&request("add_or_update", "runner", "NE", 5), false, false, true, &vec![]).ok().unwrap() {
        PingsPlan::AddOrUpdate { role_name, reply } => {
            assert_eq!(role_name, "*NE5:0+runner");
            assert_eq!(reply, "Added/Updated pings for runner with ign: 'runner' for split: 'Enter Nether' with time: '5m'");
        },
        _ => panic!("expected an add"),
    }
    match aa_setup_pings_plan(&request("add_or_update", "runner", "T", 5), false, false, true, &vec![]).ok().unwrap() {
        PingsPlan::AddOrUpdate { role_name, reply } => {
            assert_eq!(role_name, "*T5:0+runner");
            assert_eq!(reply, "Added/Updated pings for runner with ign: 'runner' for split: 'Tower Start' with time: '5m'");
        },
        _ => panic!("expected an add"),
    }
    let names = vec!["*NE5:0+other".to_string(), "*NE5:0+runner".to_string()];
    match setup_pings_plan(&request("remove", "runner", "NE", 0), true, true, true, &names).ok().unwrap() {
        PingsPlan::Remove { role_name, reply } => {
            assert_eq!(role_name, "*NE5:0+runner");
            assert_eq!(reply, "Removed pings for runner with ign: 'runner' for split: 'Enter Nether'");
        },
        _ => panic!("expected a removal"),
    }
    assert!(matches!(setup_pings_plan(&request("other", "r", "NE", 0), false, false, true, &vec![]), Ok(PingsPlan::Nothing)));
    assert_eq!(
        aa_setup_pings_plan(&request("add_or_update", "r", "X", 1), false, false, true, &vec![]).err().unwrap(),
        "SetupPingsError: construct Split from str: 'X'."
    );
    assert_eq!(
        setup_pings_plan(&request("add_or_update", "r", "NE", 1), true, false, true, &vec![]).err().unwrap(),
        "failed to setup pings: Runner with name: 'r' not found in guild."
    );
    assert_eq!(
        setup_pings_plan(&request("add_or_update", "r", "NE", 1), false, false, false, &vec![]).err().unwrap(),
        "failed to setup pings: get member for '/setup_pings'."
    );
    assert_eq!(
        aa_setup_pings_plan(&request("add_or_update", "r", "EE", 0), false, false, true, &vec![]).err().unwrap(),
        "SetupPingsError: Parameter 'time' is undefined for 'add_or_update'."
    );
    assert_eq!(
        setup_pings_plan(&request("remove", "r", "NE", 0), false, false, true, &vec![]).err().unwrap(),
        "failed to setup pings: get role name for 'remove' action."
    );
    assert!(runner_ping_role_to_remove("*NE5:0+runner", "*", "NE", "runner"));
    assert!(!runner_ping_role_to_remove("*115NE5:0+runner", "*", "NE", "runner"));
    assert!(!runner_ping_role_to_remove("*NE5:0+other", "*", "NE", "runner"));
}

#[test]
fn role_selection_order_and_menus() {
    let roles = vec![role(1, "*NE3:3"), role(2, "*NEPB"), role(3, "*115NE1:0"), role(4, "*NE2:0"), role(5, "*B1:0")];
    let order = pace_offer_order(&roles);
    assert_eq!(order, vec![1, 4, 3, 0]);
    let menu = pace_select_options(&roles, &order, Split::EnterNether, "Nether").ok().unwrap();
    let got: Vec<(String, u64)> = menu.iter().map(|o| (o.label.clone(), o.role_id)).collect();
    assert_eq!(
        got,
        vec![("PB Pace Nether".to_string(), 2), ("Sub 2:00 Nether".to_string(), 4), ("Sub 3:30 Nether".to_string(), 1)]
    );
    let bad = vec![role(1, "*XPB")];
    assert_eq!(
        pace_select_options(&bad, &vec![0], Split::Blind, "Blind").err().unwrap(),
        "failed to extract split from pb role name: *XPB"
    );
    assert_eq!(selection_message_text(), "Select roles based on the splits and paces you wish to follow.");
    assert_eq!(sent_message_reply(), "Sent message!");
}

#[test]
fn migration() {
    let channels = Some(vec![ChannelInfo { name: "pacemanbot-runner-names".to_string(), id: 8 }]);
    assert_eq!(find_migrate_channel(5, &channels), Ok(8));
    assert_eq!(find_migrate_channel(5, &None), Err("MigrateError: get channels for guild id: 5".to_string()));
    assert_eq!(
        find_migrate_channel(5, &Some(vec![])),
        Err("MigrateError: find channel name: pacemanbot-runner-name in guild id: 5".to_string())
    );
    assert_eq!(
        migrate_message(5, Some((true, "```\nx\n```".to_string()))),
        Err("MigrateError: Migration has already been performed for guild id: 5.".to_string())
    );
    assert_eq!(migrate_message(5, Some((false, "```\nx\n```".to_string()))), Ok("```\n```\nx\n```\n```".to_string()));
    assert_eq!(migrate_message(5, Some((true, "a:1/2".to_string()))), Ok("```\na:1/2\n```".to_string()));
    assert_eq!(
        migrate_message(5, None),
        Err("MigrateError: get first message in #pacemanbot-runner-names in guild id: 5".to_string())
    );
    assert!(migrate_reply().starts_with("Migrated old config"));
}

#[test]
fn choosing_roles() {
    let values = vec![("12".to_string(), Some("*17T5:0".to_string())), ("13".to_string(), Some("*17TPB".to_string()))];
    let plan = plan_select_role(&TowerSplit::TowerStart, 3, &values).ok().unwrap();
    assert_eq!((plan.prefix.as_str(), plan.remove_all, plan.add.clone()), ("*17T", false, vec![12, 13]));
    let values = vec![("12".to_string(), Some("*17T5:0".to_string()))];
    assert!(plan_select_role(&TowerSplit::TowerStart, 3, &values).ok().unwrap().remove_all);
    assert_eq!(
        plan_select_role(&TowerSplit::EndEnter, 3, &vec![("x".to_string(), None)]).err().unwrap(),
        "invalid digit found in string"
    );
    assert_eq!(
        plan_select_role(&TowerSplit::EndEnter, 3, &vec![("12".to_string(), None)]).err().unwrap(),
        "SelectRoleError: convert role id: 12 to role for guild id: 3."
    );
    let member = vec![(1, "*17TPB".to_string()), (2, "*17T5:0".to_string()), (3, "*17EEPB".to_string())];
    assert_eq!(pb_roles_of_member(&member, "*17T"), vec![1]);
    assert_eq!(roles_updated_reply(), "Roles updated");
    assert_eq!(removable_roles_prefix(), "*115");
    assert_eq!(roles_removed_reply(), "PaceManBot roles removed");
}

#[test]
fn settings_from_the_environment() {
    let env = Env::new(Ok("token".to_string()), None, Some("wss://x".to_string()), Ok("key".to_string()), None, None, None).ok().unwrap();
    assert_eq!(env.bot_token, "token");
    assert_eq!(env.ws_host, "paceman.gg:8081");
    assert_eq!(env.ws_url, "wss://x");
    assert_eq!(env.api_auth_key, "key");
    assert_eq!(env.webhook_url, "");
    assert_eq!(env.webhook_name, "pacemanbotlogs");
    assert_eq!(env.log_level, "info");
    assert_eq!(
        Env::new(Err("environment variable not found".to_string()), None, None, Ok("k".to_string()), None, None, None).err().unwrap(),
        "Expected BOT_TOKEN: environment variable not found"
    );
    assert_eq!(
        Env::new(Ok("t".to_string()), None, None, Err("missing".to_string()), None, None, None).err().unwrap(),
        "Expected API_AUTH_KEY: missing"
    );
    assert_eq!(General.commands(), vec!["send_message", "setup_default_roles", "remove_pmb_roles"]);
    assert!(General.handles(false));
    assert!(!General.handles(true));
}

#[test]
fn readable_role_lists() {
    assert!(split_removal_readable(&vec![role(1, "*NE3:0"), role(2, "*oops"), role(3, "*QQ1:0+x")]));
    assert!(!split_removal_readable(&vec![role(1, "*QQ3:0")]));
    assert!(selection_readable(&vec![role(1, "*NE3:0"), role(2, "*NEPB"), role(3, "*115zz")]));
    assert!(!selection_readable(&vec![role(1, "*oops")]));
}

#[test]
fn aa_setup_roles_options_and_names() {
    let opts = vec![
        opt("split_name", text("beaconator")),
        opt("split_start", OptionValue::Unsigned(3)),
        opt("split_end", OptionValue::Unsigned(5)),
    ];
    let q = parse_aa_range_options(&opts).ok().unwrap();
    assert_eq!((q.split_name.as_str(), q.split_start, q.split_end), ("beaconator", 3, 5));
    assert_eq!(aa_range_split(q.split_name.as_str()).unwrap(), AaSplit::Beaconator);
    assert_eq!(aa_range_split("adventuring_time").unwrap(), AaSplit::AdventuringTime);
    assert_eq!(aa_range_split("hdwgh").unwrap(), AaSplit::HDWGH);
    assert_eq!(aa_range_roles("B", 3, 5), vec!["*B3:0", "*B3:30", "*B4:0", "*B4:30", "*B5:0"]);
    assert_eq!(aa_range_roles("H", 2, 2), vec!["*H2:0"]);
    assert_eq!(
        aa_range_reply("beaconator", 3, 5),
        "Pace-roles for split name: beaconator with lower bound: 3 hours and upper bound: 5 hours have been setup!"
    );
    assert_eq!(aa_range_split("tower_start").err().unwrap(), "SetupRolesError: Unrecognized split name: 'tower_start'.");
    assert_eq!(
        parse_aa_range_options(&vec![opt("split_name", OptionValue::Unsigned(1))]).err().unwrap(),
        "SetupRolesError: convert 'split_name' into '&str'."
    );
    assert_eq!(
        parse_aa_range_options(&vec![opt("split_start", OptionValue::Missing)]).err().unwrap(),
        "SetupRolesError: get value for option name: 'split_start'."
    );
    assert_eq!(
        parse_aa_range_options(&vec![opt("split_end", text("x"))]).err().unwrap(),
        "SetupRolesError: convert 'split_end' into 'u64'."
    );
    assert_eq!(parse_aa_range_options(&vec![opt("x", text("y"))]).err().unwrap(), "SetupRolesError: Unrecognized option name.");
}

#[test]
fn aa_pb_roles_and_replies() {
    assert_eq!(aa_pb_roles(), vec!["*17TPB", "*17EEPB"]);
    assert_eq!(aa_pb_roles_reply(), "PB Pace pace-roles have been setup!");
    assert_eq!(pb_roles_reply(), "PB pace-roles have been setup!");
    assert_eq!(default_roles_reply(), "Default pace-roles have been setup!");
}

#[test]
fn created_roles_read_back_at_their_split_and_time() {
    let names = range_roles(&Split::EyeSpy, 9, 11);
    let read: Vec<(Split, u8, u8)> =
        names.iter().map(|n| pacemanbot::config::parsers::extract_split_from_role_name(n).unwrap()).collect();
    assert_eq!(
        read,
        vec![
            (Split::EyeSpy, 9, 0),
            (Split::EyeSpy, 9, 30),
            (Split::EyeSpy, 10, 0),
            (Split::EyeSpy, 10, 30),
            (Split::EyeSpy, 11, 0)
        ]
    );
}

#[test]
fn a_created_runner_ping_reads_back_for_that_runner() {
    match setup_pings_plan(&request("add_or_update", "Its_Saanvi", "EE", 9), true, true, true, &vec![]).ok().unwrap() {
        PingsPlan::AddOrUpdate { role_name, .. } => {
            assert_eq!(role_name, "*EE9:0+Its_Saanvi");
            assert_eq!(
                pacemanbot::config::parsers::extract_splits_and_name_from_role_name(&role_name).unwrap(),
                (Split::EndEnter, 9, 0, "Its_Saanvi".to_string())
            );
        },
        _ => panic!("expected an add"),
    }
}

#[test]
fn digits_other_than_ascii_ones_are_matched_and_refused() {
    assert_eq!(pacemanbot::config::parsers::extract_split_from_role_name("*NE3:3\u{663}").err().unwrap(), "invalid digit found in string");
    assert_eq!(pacemanbot::config::parsers::extract_split_from_role_name("*NE\u{663}:3").err().unwrap(), "invalid digit found in string");
    assert_eq!(pacemanbot::config::parsers::extract_split_from_role_name("*NE3:3").unwrap(), (Split::EnterNether, 3, 30));
}
