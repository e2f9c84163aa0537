use pacemanbot::controller::{
    get_run_info, item_counts, structure_edited_content, structure_finish_content, structure_live_link,
    structure_pace_content, structure_roles_to_ping, RoleData, RunInfo, RunType,
};
use pacemanbot::config::config::RoleInfo;
use pacemanbot::guild_types::{PlayerSplitsData, Split, Structure};
use pacemanbot::main_loop::{
    adjust_split, core_live_link, core_ping_content, core_roles_to_ping, is_already_sent, record_order,
    remember_message, CoreRole,
};
use pacemanbot::name_map::NameMap;
use pacemanbot::sort::stable_sort_by_key;
use pacemanbot::structure_roles::{
    extract_structure_pb_split, extract_structure_split, send_bastion_picker, structure_offer_order,
    structure_select_options,
};
use pacemanbot::ws::{Event, EventId};
use pacemanbot::structure_roles::{structure_role_readable, structure_selection_readable};

fn at(id: EventId, igt: u64) -> Event {
    Event { event_id: id, igt }
}

fn role(id: u64, name: &str) -> RoleInfo {
    RoleInfo { id, name: name.to_string() }
}

#[test]
fn structure_splits_depend_on_the_run() {
    let last = at(EventId::RsgEnterBastion, 9);
    let events = vec![at(EventId::RsgEnterFortress, 5), last];
    let rods = vec![at(EventId::RsgObtainBlazeRod, 4)];
    assert_eq!(
        get_run_info(&last, &events, &rods),
        Some(RunInfo { split: Split::SecondStructure, structure: Some(Structure::Bastion), run_type: RunType::Modern })
    );
    assert_eq!(get_run_info(&last, &events, &vec![]).unwrap().split, Split::FirstStructure);
    let fort = at(EventId::RsgEnterFortress, 9);
    let events = vec![at(EventId::RsgEnterBastion, 5), fort];
    let signs = vec![at(EventId::RsgObtainObsidian, 1), at(EventId::RsgLootBastion, 2)];
    assert_eq!(get_run_info(&fort, &events, &signs).unwrap().split, Split::SecondStructure);
    assert_eq!(get_run_info(&fort, &events, &signs[..1].to_vec()).unwrap().split, Split::FirstStructure);
    let portal = at(EventId::RsgFirstPortal, 9);
    assert_eq!(get_run_info(&portal, &vec![portal], &vec![]).unwrap().run_type, RunType::Bastionless);
    assert_eq!(get_run_info(&portal, &vec![at(EventId::RsgEnterBastion, 1), portal], &vec![]).unwrap().run_type, RunType::Modern);
    assert_eq!(get_run_info(&at(EventId::RsgEnterEnd, 1), &vec![], &vec![]).unwrap().split, Split::EndEnter);
    assert_eq!(get_run_info(&at(EventId::RsgEnterNether, 1), &vec![], &vec![]), None);
}

fn data(split: Split, minutes: u8, seconds: u8, runner: &str, id: u64, name: &str) -> RoleData {
    RoleData { split, minutes, seconds, runner: runner.to_string(), role_id: id, role_name: name.to_string() }
}

#[test]
fn structure_roles_ping() {
    let player = PlayerSplitsData { first_structure: 4, second_structure: 0, blind: 0, eye_spy: 0, end_enter: 0, finish: None };
    let roles = vec![
        data(Split::FirstStructure, 3, 30, "", 1, "*FS3:3"),
        data(Split::FirstStructure, 0, 0, "", 2, "*FSPB"),
        data(Split::FirstStructure, 4, 0, "r", 3, "*FS4:0+r"),
        data(Split::Blind, 9, 0, "", 4, "*B9:0"),
    ];
    assert_eq!(structure_roles_to_ping(&roles, &player, &Split::FirstStructure, 200000, true, "R", false), vec![1, 2, 3]);
    assert_eq!(structure_roles_to_ping(&roles, &player, &Split::FirstStructure, 200000, false, "R", true), vec![3]);
}

#[test]
fn structure_message_texts() {
    let items = item_counts(Some(3), Some(10));
    assert_eq!(items, "\n<:blazerod:1249633180378464381> 3  <:enderpearl:1249639829252345916> 10");
    assert_eq!(item_counts(None, Some(1)), "\n<:enderpearl:1249639829252345916> 1");
    assert_eq!(item_counts(None, None), "");
    assert_eq!(structure_live_link("a_b", &Some("acc".to_string()), false), Some("[a\u{2cd}b](<https://twitch.tv/acc>)".to_string()));
    assert_eq!(structure_live_link("a_b", &None, false), None);
    assert_eq!(structure_live_link("a_b", &None, true), Some("Offline - a\u{2cd}b".to_string()));
    assert_eq!(
        structure_pace_content(200000, "Enter Bastion", RunType::Bastionless, "live", 1700000000123, "", &vec![5]),
        "## 0:00:20 - Enter Bastion (Bastionless)\nlive\t<t:1700000000:R>\n<@&5>"
    );
    assert_eq!(
        structure_pace_content(200000, "Enter Bastion", RunType::Modern, "live", 0, "\nitems", &vec![5, 6]),
        "## 0:00:20 - Enter Bastion \nlive\t<t:0:R>\nitems\n<@&5> <@&6>"
    );
    assert_eq!(structure_finish_content(3600000, "live", 5000), "## 1:00:00 - Finish\nlive\t<t:5:R>");
    assert_eq!(structure_edited_content("x <@&5> y <@&5>", &vec![5]), Some("x y ".to_string()));
    assert_eq!(structure_edited_content("x <@&5>", &vec![6]), None);
}

#[test]
fn structure_role_names() {
    assert_eq!(extract_structure_split("*FS2:3").unwrap(), (Split::FirstStructure, 2, 30));
    assert_eq!(extract_structure_pb_split("*SSPB"), Some(Split::SecondStructure));
    let d = RoleData::new(9, "*FS2:3".to_string()).ok().unwrap();
    assert_eq!((d.split, d.minutes, d.seconds, d.role_id), (Split::FirstStructure, 2, 30, 9));
    assert_eq!(
        RoleData::new(9, "*ZZPB".to_string()).err().unwrap(),
        "Unable to extract split from pb role name: *ZZPB."
    );
    assert_eq!(
        RoleData::new(9, "*nope".to_string()).err().unwrap(),
        "Unable to extract split from role name: *nope due to: failed to capture regex for role name: 'nope'."
    );
}

#[test]
fn structure_role_selection() {
    let roles = vec![role(1, "*FS2:3"), role(2, "*FSPB"), role(3, "x"), role(4, "*SS5:0")];
    let order = structure_offer_order(&roles);
    assert_eq!(order, vec![1, 0, 3]);
    let menu = structure_select_options(&roles, &order, Split::FirstStructure).ok().unwrap();
    let got: Vec<(String, u64)> = menu.iter().map(|o| (o.label.clone(), o.role_id)).collect();
    assert_eq!(got, vec![("PB Pace Structure 1".to_string(), 2), ("Sub 2:30 Structure 1".to_string(), 1)]);
    assert!(send_bastion_picker(&roles));
    assert!(!send_bastion_picker(&vec![role(4, "*SS5:0"), role(5, "FS2:0")]));
}

#[test]
fn stable_sort_keeps_equal_keys_in_order() {
    assert_eq!(stable_sort_by_key(&vec![3, 1, 3, 2, 1]), vec![1, 4, 3, 0, 2]);
    assert_eq!(stable_sort_by_key(&vec![]), Vec::<usize>::new());
}

#[test]
fn records_with_most_events_first() {
    assert_eq!(record_order(&vec![3, 1, 3, 2]), vec![2, 0, 3, 1]);
}

#[test]
fn structure_events_stand_for_a_split() {
    let last = at(EventId::RsgEnterBastion, 9);
    assert_eq!(adjust_split("Ba", &vec![last], &last, false), "FS");
    let events = vec![at(EventId::RsgEnterFortress, 4), last];
    assert_eq!(adjust_split("Ba", &events, &last, true), "SS");
    assert_eq!(adjust_split("Ba", &events, &last, false), "Ba");
    let fort = at(EventId::RsgEnterFortress, 9);
    let events = vec![at(EventId::RsgEnterBastion, 4), fort];
    assert_eq!(adjust_split("F", &events, &fort, false), "SS");
    assert_eq!(adjust_split("F", &vec![fort], &fort, true), "FS");
    assert_eq!(adjust_split("F", &vec![fort], &fort, false), "F");
    assert_eq!(adjust_split("E", &events, &fort, true), "E");
}

#[test]
fn pings_already_in_the_channel_are_skipped() {
    let cached = vec!["## 0:00:20 - Enter Nether\n\n<https://twitch.tv/acc>\n<@&1>".to_string()];
    assert!(is_already_sent(&cached, "Enter Nether", 200000, "acc"));
    assert!(!is_already_sent(&cached, "Enter Nether", 265000, "acc"));
    assert!(!is_already_sent(&cached, "Blind", 200000, ""));
}

#[test]
fn loop_roles_and_texts() {
    let roles = vec![
        CoreRole { code: "FS".to_string(), minutes: 3, seconds: 20, pb: false, role_id: 1 },
        CoreRole { code: "FS".to_string(), minutes: 0, seconds: 0, pb: true, role_id: 2 },
        CoreRole { code: "SS".to_string(), minutes: 9, seconds: 0, pb: false, role_id: 3 },
    ];
    let mut t: NameMap<u8> = NameMap::new();
    t.insert("FS".to_string(), 3);
    assert_eq!(core_roles_to_ping(&roles, "FS", 200000, true, &t), vec![1, 2]);
    assert_eq!(core_roles_to_ping(&roles, "FS", 200000, false, &t), vec![1]);
    assert_eq!(core_live_link("a", &None, false), None);
    assert_eq!(core_live_link("a", &None, true), Some("Offline - a".to_string()));
    assert_eq!(core_live_link("a", &Some("acc".to_string()), false), Some("<https://twitch.tv/acc>".to_string()));
    assert_eq!(
        core_ping_content(200000, "Enter Nether", "<https://twitch.tv/acc>", &vec![1]),
        "## 0:00:20 - Enter Nether\n\n<https://twitch.tv/acc>\n<@&1>"
    );
}

#[test]
fn the_message_cache_holds_at_most_100() {
    let mut cache: Vec<String> = (0..100).map(|i| i.to_string()).collect();
    remember_message(&mut cache, "new".to_string());
    assert_eq!(cache.len(), 100);
    assert_eq!(cache[0], "1");
    assert_eq!(cache[99], "new");
    let mut small = vec!["a".to_string()];
    remember_message(&mut small, "b".to_string());
    assert_eq!(small, vec!["a", "b"]);
}

#[test]
fn readable_structure_roles() {
    assert!(structure_role_readable("*FS2:3"));
    assert!(structure_role_readable("*QQPB"));
    assert!(structure_role_readable("*oops"));
    assert!(!structure_role_readable("*NE2:3"));
    assert!(structure_selection_readable(&vec![role(1, "*FS2:3"), role(2, "*SSPB"), role(3, "x")]));
    assert!(!structure_selection_readable(&vec![role(1, "*oops")]));
}
