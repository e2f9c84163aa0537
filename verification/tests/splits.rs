use pacemanbot::cache::aa_split::AaSplit;
use pacemanbot::cache::guild_cache_entry::Split;
use pacemanbot::cache::player_cache_entry::PlayerCacheEntry;
use pacemanbot::cache::players::PlayerSplitsData as AaSplitsData;
use pacemanbot::cache::split::Split as TowerSplit;
use pacemanbot::dispatcher::event_type::EventType;
use pacemanbot::dispatcher::get_run_info::{get_run_info, AaRecord, AaRunInfo};
use pacemanbot::dispatcher::run_info::RunInfo;
use pacemanbot::guild_types::{PlayerData, PlayerSplitsData, Split as StructureSplit, Structure};
use pacemanbot::ws::{Advancement, AdvancementId, Event, EventId};

#[test]
fn codes_of_the_nether_splits_read_back() {
    for s in [Split::EnterNether, Split::EnterFortress, Split::Blind, Split::EyeSpy, Split::EndEnter] {
        assert_eq!(Split::from_str(s.to_str().as_str()), Some(s));
    }
    assert_eq!(Split::from_str("NE"), Some(Split::EnterNether));
    assert_eq!(Split::from_str("FS"), None);
    assert_eq!(Split::from_command_param("eye_spy"), Some(Split::EyeSpy));
    assert_eq!(Split::from_command_param("tower_start"), None);
    assert_eq!(Split::from_event_id(&EventId::RsgEnterStronghold), Some(Split::EyeSpy));
    assert_eq!(Split::from_event_id(&EventId::RsgCredits), None);
    assert_eq!(Split::Blind.desc(), "First Portal");
    assert_eq!(Split::EnterNether.get_emoji(), Some("\u{1F525}".to_string()));
}

#[test]
fn codes_of_the_tower_splits_read_back() {
    for s in [TowerSplit::TowerStart, TowerSplit::FindingStronghold, TowerSplit::EndEnter] {
        assert_eq!(TowerSplit::from_str(s.to_str().as_str()), Some(s));
    }
    assert_eq!(TowerSplit::from_command_param("finding_stronghold"), Some(TowerSplit::FindingStronghold));
    assert_eq!(TowerSplit::from_event_id(&EventId::RsgTowerStart), Some(TowerSplit::TowerStart));
    assert_eq!(TowerSplit::EndEnter.desc(), "Enter End");
    assert_eq!(TowerSplit::TowerStart.to_str(), "T");
}

#[test]
fn codes_of_the_structure_splits_read_back() {
    for s in [
        StructureSplit::FirstStructure,
        StructureSplit::SecondStructure,
        StructureSplit::Blind,
        StructureSplit::EyeSpy,
        StructureSplit::EndEnter,
    ] {
        assert_eq!(StructureSplit::from_str(s.to_str().as_str()), Some(s));
    }
    assert_eq!(StructureSplit::FirstStructure.desc(&Some(Structure::Bastion)), Some("Enter Bastion".to_string()));
    assert_eq!(StructureSplit::SecondStructure.desc(&Some(Structure::Fortress)), Some("Enter Fortress".to_string()));
    assert_eq!(StructureSplit::FirstStructure.desc(&None), None);
    assert_eq!(StructureSplit::EyeSpy.desc(&None), Some("Enter Stronghold".to_string()));
    assert_eq!(StructureSplit::SecondStructure.alt_desc(), "Structure 2");
    assert_eq!(StructureSplit::from_command_param("second_structure"), Some(StructureSplit::SecondStructure));
    assert_eq!(StructureSplit::from_event_id(&EventId::RsgEnterBastion), None);
}

#[test]
fn all_advancements_split_parameters() {
    assert_eq!(AaSplit::from_command_param("hdwgh"), Some(AaSplit::HDWGH));
    assert_eq!(AaSplit::from_command_param("finish"), None);
}

#[test]
fn thresholds_by_split() {
    let p = PlayerCacheEntry { enter_nether: 1, enter_fortress: 2, blind: 3, eye_spy: 4, end_enter: 5, finish: None };
    assert_eq!(p.get(&Split::EyeSpy), Some(4));
    assert_eq!(PlayerCacheEntry::default().get(&Split::EndEnter), Some(0));
    let s = PlayerSplitsData::default();
    assert_eq!(s.get(&StructureSplit::Blind), Some(0));
    assert_eq!(PlayerData::default().last_pace_message, None);
    let a = AaSplitsData { adventuring_time: 60, beaconator: 120, hdwgh: 180, finish: None };
    assert_eq!(a.get(&AaSplit::HDWGH), Some(180));
    assert_eq!(a.get(&AaSplit::Finish), None);
    assert_eq!(AaSplitsData::default().get(&AaSplit::Beaconator), Some(0));
}

#[test]
fn run_info_of_the_last_event() {
    assert_eq!(RunInfo::from_last_event(&Event { event_id: EventId::RsgEnterEnd, igt: 5 }), Some(RunInfo { split: TowerSplit::EndEnter }));
    assert_eq!(RunInfo::from_last_event(&Event { event_id: EventId::RsgCredits, igt: 5 }), None);
    assert_eq!(RunInfo::default().split, TowerSplit::TowerStart);
}

fn record(n: usize, with_at: bool) -> AaRecord {
    let mut completed = vec![AdvancementId::Other; n];
    if with_at && n > 0 {
        completed[0] = AdvancementId::AdventureAdventuringTime;
    }
    AaRecord {
        completed,
        thunder: 0,
        phantoms: 0,
        shells: 1,
        has_enchanted_golden_apple: true,
        skulls: 3,
        gold_blocks: 1,
        ancient_debris: 1,
    }
}

#[test]
fn all_advancements_splits() {
    let at = Advancement { event_id: AdvancementId::AdventureAdventuringTime, igt: 0 };
    let beacon = Advancement { event_id: AdvancementId::NetherCreateFullBeacon, igt: 0 };
    let other = Advancement { event_id: AdvancementId::Other, igt: 0 };
    assert_eq!(get_run_info(&record(29, true), &at), None);
    assert_eq!(get_run_info(&record(30, true), &at), Some(AaRunInfo { split: AaSplit::AdventuringTime }));
    let mut no_skulls = record(30, true);
    no_skulls.skulls = 2;
    assert_eq!(get_run_info(&no_skulls, &at), None);
    assert_eq!(get_run_info(&record(80, true), &at), Some(AaRunInfo { split: AaSplit::Finish }));
    assert_eq!(get_run_info(&record(50, true), &beacon), Some(AaRunInfo { split: AaSplit::Beaconator }));
    assert_eq!(get_run_info(&record(50, false), &beacon), None);
    assert_eq!(get_run_info(&record(49, true), &beacon), None);
    assert_eq!(get_run_info(&record(80, false), &other), Some(AaRunInfo { split: AaSplit::Finish }));
    assert_eq!(get_run_info(&record(79, false), &other), None);
}

#[test]
fn kinds_of_advancements() {
    let at = Advancement { event_id: AdvancementId::NetherAllEffects, igt: 0 };
    let other = Advancement { event_id: AdvancementId::Other, igt: 0 };
    assert_eq!(EventType::from_advancement(&at, 3), EventType::PaceEvent);
    assert_eq!(EventType::from_advancement(&other, 80), EventType::NonPaceEvent);
    assert_eq!(EventType::from_advancement(&other, 79), EventType::Unknown);
}
