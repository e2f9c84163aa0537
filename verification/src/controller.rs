//! Pace messages of the structures category: which structure split a run
//! has reached, which roles it pings, and the text of the message.

use vstd::prelude::*;

use crate::cache::role_cache_entry::{igt_minutes, igt_seconds, under};
use crate::dispatcher::consts::{PEARL_EMOJI, ROD_EMOJI, TWITCH_LINK_PREFIX};
use crate::dispatcher::message::{mentions_text, role_mention, shown_name};
use crate::dispatcher::utils::{format_time, millis_to_mins_secs, time_text};
use crate::guild_types::{PlayerSplitsData, Split, Structure};
use crate::text::{
    chars_eq, chars_of, contains, decimal, lowercase, lowercase_chars, push_decimal, push_str, remove_pattern,
    seq_contains, string_of, without_pattern,
};
use crate::ws::{Event, EventId};
use crate::dispatcher::message::{author_name, join_mentions};

verus! {

/// Whether a run went through a bastion.
#[derive(PartialEq, Eq, Structural, Debug, Clone, Copy)]
pub enum RunType {
    Modern,
    Bastionless,
}

/// The split a run has reached, the structure it entered, and its kind.
#[derive(PartialEq, Eq, Structural, Debug, Clone, Copy)]
pub struct RunInfo {
    pub split: Split,
    pub structure: Option<Structure>,
    pub run_type: RunType,
}

/// Some event of `events` has this id.
pub open spec fn has_event(events: Seq<Event>, id: EventId) -> bool {
    exists|i: int| 0 <= i < events.len() && #[trigger] events[i].event_id == id
}

/// Whether an event counts as a sign of a bastion visited before a fortress.
pub open spec fn bastion_sign(id: EventId) -> bool {
    id == EventId::RsgObtainCryingObsidian || id == EventId::RsgObtainObsidian || id == EventId::RsgLootBastion
}

/// How many events of `events` are signs of a bastion.
pub open spec fn bastion_signs(events: Seq<Event>) -> nat
    decreases events.len(),
{
    if events.len() == 0 {
        0
    } else {
        bastion_signs(events.drop_last()) + if bastion_sign(events.last().event_id) {
            1nat
        } else {
            0nat
        }
    }
}

/// The split, structure and kind of a run whose last event is `last`: a
/// bastion is the second structure when the run has entered a fortress and
/// got a blaze rod; a fortress is the second structure when the run has
/// entered a bastion and shows two signs of it; a first portal is blind, of
/// a bastionless run where no bastion was entered; the stronghold and the
/// end are their own splits.
pub open spec fn run_info_of(last: Event, events: Seq<Event>, context: Seq<Event>) -> Option<RunInfo> {
    match last.event_id {
        EventId::RsgEnterBastion => Some(
            RunInfo {
                split: if has_event(events, EventId::RsgEnterFortress) && has_event(context, EventId::RsgObtainBlazeRod) {
                    Split::SecondStructure
                } else {
                    Split::FirstStructure
                },
                structure: Some(Structure::Bastion),
                run_type: RunType::Modern,
            },
        ),
        EventId::RsgEnterFortress => Some(
            RunInfo {
                split: if has_event(events, EventId::RsgEnterBastion) && bastion_signs(context) >= 2 {
                    Split::SecondStructure
                } else {
                    Split::FirstStructure
                },
                structure: Some(Structure::Fortress),
                run_type: RunType::Modern,
            },
        ),
        EventId::RsgFirstPortal => Some(
            RunInfo {
                split: Split::Blind,
                structure: None,
                run_type: if has_event(events, EventId::RsgEnterBastion) {
                    RunType::Modern
                } else {
                    RunType::Bastionless
                },
            },
        ),
        _ => match Split::from_event(last.event_id) {
            Some(split) => Some(RunInfo { split, structure: None, run_type: RunType::Modern }),
            None => None,
        },
    }
}

fn any_event(events: &Vec<Event>, id: EventId, except: &Event) -> (r: bool)
    requires
        except.event_id != id,
    ensures
        r == has_event(events@, id),
{
    for i in 0..events.len()
        invariant
            except.event_id != id,
            forall|j: int| 0 <= j < i ==> events@[j].event_id != id,
    {
        if events[i].event_id == id && events[i] != *except {
            assert(events@[i as int].event_id == id);
            return true;
        }
    }
    false
}

fn count_bastion_signs(events: &Vec<Event>) -> (r: u64)
    ensures
        r as nat == bastion_signs(events@),
{
    let mut hits: u64 = 0;
    assert(events@.take(0) =~= Seq::<Event>::empty());
    for i in 0..events.len()
        invariant
            hits as nat == bastion_signs(events@.take(i as int)),
            hits <= i,
    {
        let id = events[i].event_id;
        if id == EventId::RsgObtainCryingObsidian || id == EventId::RsgObtainObsidian || id
            == EventId::RsgLootBastion {
            hits = hits + 1;
        }
        proof {
            let t = events@.take(i + 1);
            assert(t.drop_last() =~= events@.take(i as int));
            assert(t.last() == events@[i as int]);
        }
    }
    assert(events@.take(events.len() as int) =~= events@);
    hits
}

/// The split, structure and kind of run that a run's last event reaches,
/// given the run's events and its context events.
pub fn get_run_info(last_event: &Event, event_list: &Vec<Event>, context_event_list: &Vec<Event>) -> (r: Option<RunInfo>)
    ensures
        r == run_info_of(*last_event, event_list@, context_event_list@),
{
    let never = Event { event_id: EventId::Other, igt: 0 };
    match last_event.event_id {
        EventId::RsgEnterBastion => {
            let mut split = Split::FirstStructure;
            let bastion_ss_check = any_event(event_list, EventId::RsgEnterFortress, &never);
            let bastion_ss_context_check = any_event(context_event_list, EventId::RsgObtainBlazeRod, &never);
            if bastion_ss_check && bastion_ss_context_check {
                split = Split::SecondStructure;
            }
            Some(RunInfo { split, structure: Some(Structure::Bastion), run_type: RunType::Modern })
        },
        EventId::RsgEnterFortress => {
            let mut split = Split::FirstStructure;
            let fort_ss_check = any_event(event_list, EventId::RsgEnterBastion, last_event);
            let context_hits = count_bastion_signs(context_event_list);
            if fort_ss_check && context_hits >= 2 {
                split = Split::SecondStructure;
            }
            Some(RunInfo { split, structure: Some(Structure::Fortress), run_type: RunType::Modern })
        },
        EventId::RsgFirstPortal => {
            let mut run_type = RunType::Modern;
            if !any_event(event_list, EventId::RsgEnterBastion, &never) {
                run_type = RunType::Bastionless;
            }
            Some(RunInfo { split: Split::Blind, structure: None, run_type })
        },
        _ => {
            let split = match Split::from_event_id(&last_event.event_id) {
                Some(s) => s,
                None => return None,
            };
            Some(RunInfo { split, structure: None, run_type: RunType::Modern })
        },
    }
}

/// A pace-role of the structures category: its split and time threshold,
/// and, for a runner's own pings, the runner. The Discord role is held by
/// its id and name.
pub struct RoleData {
    pub split: Split,
    pub minutes: u8,
    pub seconds: u8,
    pub runner: String,
    pub role_id: u64,
    pub role_name: String,
}

impl RoleData {
    /// Whether the role is pinged when a runner named `nickname`, with these
    /// thresholds, reaches `run_split` at in-game time `igt`.
    pub open spec fn pingable(
        self,
        player: PlayerSplitsData,
        run_split: Split,
        igt: u64,
        is_private: bool,
        nickname: Seq<char>,
    ) -> bool {
        let m = igt_minutes(igt);
        let s = igt_seconds(igt);
        if seq_contains(self.role_name@, "PB"@) {
            is_private && self.split == run_split && player.threshold(self.split) > m
        } else if seq_contains(self.role_name@, "+"@) {
            &&& self.split == run_split
            &&& lowercase(self.runner@) == lowercase(nickname)
            &&& under(m, s, self.minutes as nat, self.seconds as nat)
        } else {
            self.split == run_split && under(m, s, self.minutes as nat, self.seconds as nat)
        }
    }

    /// Whether the role is pinged.
    pub fn is_pingable(
        &self,
        player_data: &PlayerSplitsData,
        run_split: &Split,
        igt: u64,
        is_private: bool,
        nickname: &str,
    ) -> (r: bool)
        ensures
            r == self.pingable(*player_data, *run_split, igt, is_private, nickname@),
    {
        let (split_minutes, split_seconds) = millis_to_mins_secs(igt);
        let name = chars_of(self.role_name.as_str());
        let pb = chars_of("PB");
        let plus = chars_of("+");
        if contains(&name, &pb) {
            if !is_private {
                return false;
            }
            let pb_minutes = player_data.get(&self.split).unwrap();
            self.split == *run_split && pb_minutes > split_minutes
        } else if contains(&name, &plus) {
            let runner = chars_of(self.runner.as_str());
            let nick = chars_of(nickname);
            let a = lowercase_chars(&runner);
            let b = lowercase_chars(&nick);
            self.split == *run_split && chars_eq(&a, &b) && self.minutes >= split_minutes && (
            self.minutes != split_minutes || self.seconds > split_seconds)
        } else {
            self.split == *run_split && self.minutes >= split_minutes && (self.minutes != split_minutes
                || self.seconds > split_seconds)
        }
    }
}

/// The roles of `roles` that ping for this split, in order; with
/// `only_runner`, only those that belong to a runner.
pub open spec fn structure_pinged_roles(
    roles: Seq<RoleData>,
    player: PlayerSplitsData,
    split: Split,
    igt: u64,
    is_private: bool,
    nickname: Seq<char>,
    only_runner: bool,
) -> Seq<u64>
    decreases roles.len(),
{
    if roles.len() == 0 {
        Seq::empty()
    } else {
        let rest = structure_pinged_roles(roles.drop_last(), player, split, igt, is_private, nickname, only_runner);
        let r = roles.last();
        if r.pingable(player, split, igt, is_private, nickname) && (!only_runner || r.runner@.len() > 0) {
            rest.push(r.role_id)
        } else {
            rest
        }
    }
}

/// The ids of the roles that a split pings, in order; with `only_runner`,
/// only the runners' own roles.
pub fn structure_roles_to_ping(
    roles: &Vec<RoleData>,
    player_data: &PlayerSplitsData,
    run_split: &Split,
    igt: u64,
    is_private: bool,
    nickname: &str,
    only_runner: bool,
) -> (r: Vec<u64>)
    ensures
        r@ == structure_pinged_roles(roles@, *player_data, *run_split, igt, is_private, nickname@, only_runner),
{
    let mut out: Vec<u64> = Vec::new();
    assert(roles@.take(0) =~= Seq::<RoleData>::empty());
    for i in 0..roles.len()
        invariant
            out@ == structure_pinged_roles(
                roles@.take(i as int),
                *player_data,
                *run_split,
                igt,
                is_private,
                nickname@,
                only_runner,
            ),
    {
        let role = &roles[i];
        let pinged = role.is_pingable(player_data, run_split, igt, is_private, nickname);
        let runner = chars_of(role.runner.as_str());
        if pinged && (!only_runner || runner.len() > 0) {
            out.push(role.role_id);
        }
        proof {
            let t = roles@.take(i + 1);
            assert(t.drop_last() =~= roles@.take(i as int));
            assert(t.last() == roles@[i as int]);
        }
    }
    assert(roles@.take(roles.len() as int) =~= roles@);
    out
}

/// The line of estimated item counts: blaze rods, then ender pearls, each
/// where known, two spaces apart; with a newline before it, or empty where
/// neither is known.
pub open spec fn item_counts_text(rods: Option<u64>, pearls: Option<u64>) -> Seq<char> {
    let r = match rods {
        Some(n) => ROD_EMOJI@ + " "@ + decimal(n as nat),
        None => Seq::<char>::empty(),
    };
    let both = match pearls {
        Some(n) => if r.len() == 0 {
            PEARL_EMOJI@ + " "@ + decimal(n as nat)
        } else {
            r + "  "@ + PEARL_EMOJI@ + " "@ + decimal(n as nat)
        },
        None => r,
    };
    if both.len() == 0 {
        both
    } else {
        "\n"@ + both
    }
}

/// The line of estimated item counts of a run.
pub fn item_counts(rods: Option<u64>, pearls: Option<u64>) -> (r: String)
    ensures
        r@ == item_counts_text(rods, pearls),
{
    let mut out: Vec<char> = Vec::new();
    match rods {
        Some(n) => {
            push_str(&mut out, ROD_EMOJI);
            push_str(&mut out, " ");
            push_decimal(&mut out, n);
        },
        None => {},
    }
    proof {
        reveal_strlit(" ");
    }
    match pearls {
        Some(n) => {
            if out.len() > 0 {
                push_str(&mut out, "  ");
            }
            push_str(&mut out, PEARL_EMOJI);
            push_str(&mut out, " ");
            push_decimal(&mut out, n);
        },
        None => {},
    }
    let mut full: Vec<char> = Vec::new();
    if out.len() > 0 {
        push_str(&mut full, "\n");
    }
    crate::text::push_all(&mut full, &out);
    assert(full@ =~= item_counts_text(rods, pearls));
    string_of(&full)
}

/// The link of a live runner, `[name](<stream>)`, and the line of an
/// offline one, `Offline - name`.
pub open spec fn structure_live_text(nickname: Seq<char>, live_account: Option<Seq<char>>) -> Seq<char> {
    match live_account {
        Some(acc) => "["@ + shown_name(nickname) + "](<"@ + TWITCH_LINK_PREFIX@ + acc + ">)"@,
        None => "Offline - "@ + shown_name(nickname),
    }
}

/// How a pace message points at the runner: a link to the stream, or for
/// an offline runner the runner's name; `None` where the runner is offline
/// and the guild public, which skips the guild.
pub fn structure_live_link(nickname: &str, live_account: &Option<String>, is_private: bool) -> (r: Option<String>)
    ensures
        live_account is None && !is_private ==> r is None,
        live_account is Some || is_private ==> (r matches Some(t) && t@ == structure_live_text(
            nickname@,
            match live_account {
                Some(a) => Some(a@),
                None => None,
            },
        )),
{
    let name = author_name(nickname);
    let mut out: Vec<char> = Vec::new();
    match live_account {
        Some(acc) => {
            push_str(&mut out, "[");
            push_str(&mut out, name.as_str());
            push_str(&mut out, "](<");
            push_str(&mut out, TWITCH_LINK_PREFIX);
            push_str(&mut out, acc.as_str());
            push_str(&mut out, ">)");
        },
        None => {
            if !is_private {
                return None;
            }
            push_str(&mut out, "Offline - ");
            push_str(&mut out, name.as_str());
        },
    }
    let ghost acc_view = match live_account {
        Some(a) => Some(a@),
        None => None,
    };
    assert(out@ =~= structure_live_text(nickname@, acc_view));
    Some(string_of(&out))
}

/// The text of a pace message: time, split and run kind as a heading, the
/// runner's link and a relative timestamp, the item counts, and the
/// mentions.
pub open spec fn structure_pace_text(
    igt: u64,
    desc: Seq<char>,
    bastionless: bool,
    live: Seq<char>,
    updated_secs: u64,
    items: Seq<char>,
    ids: Seq<u64>,
) -> Seq<char> {
    "## "@ + time_text(igt as nat) + " - "@ + desc + " "@ + (if bastionless {
        "(Bastionless)"@
    } else {
        Seq::<char>::empty()
    }) + "\n"@ + live + "\t<t:"@ + decimal(updated_secs as nat) + ":R>"@ + items + "\n"@ + mentions_text(ids)
}

/// The text of a pace message; `last_updated` is in milliseconds.
pub fn structure_pace_content(
    igt: u64,
    split_desc: &str,
    run_type: RunType,
    live_link: &str,
    last_updated: u64,
    items: &str,
    ids: &Vec<u64>,
) -> (r: String)
    ensures
        r@ == structure_pace_text(
            igt,
            split_desc@,
            run_type == RunType::Bastionless,
            live_link@,
            last_updated / 1000,
            items@,
            ids@,
        ),
{
    let mut out: Vec<char> = Vec::new();
    push_str(&mut out, "## ");
    let t = format_time(igt);
    push_str(&mut out, t.as_str());
    push_str(&mut out, " - ");
    push_str(&mut out, split_desc);
    push_str(&mut out, " ");
    match run_type {
        RunType::Bastionless => push_str(&mut out, "(Bastionless)"),
        RunType::Modern => {},
    }
    push_str(&mut out, "\n");
    push_str(&mut out, live_link);
    push_str(&mut out, "\t<t:");
    push_decimal(&mut out, last_updated / 1000);
    push_str(&mut out, ":R>");
    push_str(&mut out, items);
    push_str(&mut out, "\n");
    let m = join_mentions(ids);
    push_str(&mut out, m.as_str());
    assert(out@ =~= structure_pace_text(
        igt,
        split_desc@,
        run_type == RunType::Bastionless,
        live_link@,
        last_updated / 1000,
        items@,
        ids@,
    ));
    string_of(&out)
}

/// The text of a finish: the time, the runner's link and a relative
/// timestamp.
pub open spec fn structure_finish_text(igt: u64, live: Seq<char>, updated_secs: u64) -> Seq<char> {
    "## "@ + time_text(igt as nat) + " - Finish\n"@ + live + "\t<t:"@ + decimal(updated_secs as nat) + ":R>"@
}

/// The text of a finish; `last_updated` is in milliseconds.
pub fn structure_finish_content(igt: u64, live_link: &str, last_updated: u64) -> (r: String)
    ensures
        r@ == structure_finish_text(igt, live_link@, last_updated / 1000),
{
    let mut out: Vec<char> = Vec::new();
    push_str(&mut out, "## ");
    let t = format_time(igt);
    push_str(&mut out, t.as_str());
    push_str(&mut out, " - Finish\n");
    push_str(&mut out, live_link);
    push_str(&mut out, "\t<t:");
    push_decimal(&mut out, last_updated / 1000);
    push_str(&mut out, ":R>");
    assert(out@ =~= structure_finish_text(igt, live_link@, last_updated / 1000));
    string_of(&out)
}

/// `content` without the runners' own role mentions: for each role, its
/// mention with a space after it, then its mention alone.
pub open spec fn without_runner_mentions(content: Seq<char>, ids: Seq<u64>) -> Seq<char>
    decreases ids.len(),
{
    if ids.len() == 0 {
        content
    } else {
        let m = role_mention(ids.last());
        without_pattern(without_pattern(without_runner_mentions(content, ids.drop_last()), m + " "@), m)
    }
}

/// What a sent pace message is edited to once the runners' own roles have
/// been pinged; `None` where that leaves it as it was, and it is not edited.
pub fn structure_edited_content(content: &str, runner_ids: &Vec<u64>) -> (r: Option<String>)
    ensures
        without_runner_mentions(content@, runner_ids@) == content@ ==> r is None,
        without_runner_mentions(content@, runner_ids@) != content@ ==> (r matches Some(t) && t@
            == without_runner_mentions(content@, runner_ids@)),
{
    let unedited = chars_of(content);
    let mut cur = chars_of(content);
    assert(runner_ids@.take(0) =~= Seq::<u64>::empty());
    for i in 0..runner_ids.len()
        invariant
            cur@ == without_runner_mentions(content@, runner_ids@.take(i as int)),
    {
        let m = crate::dispatcher::message::mention_role(runner_ids[i]);
        let mv = chars_of(m.as_str());
        let mut ms: Vec<char> = Vec::new();
        crate::text::push_all(&mut ms, &mv);
        push_str(&mut ms, " ");
        cur = remove_pattern(&cur, &ms);
        cur = remove_pattern(&cur, &mv);
        proof {
            let t = runner_ids@.take(i + 1);
            assert(t.drop_last() =~= runner_ids@.take(i as int));
            assert(t.last() == runner_ids@[i as int]);
        }
    }
    assert(runner_ids@.take(runner_ids.len() as int) =~= runner_ids@);
    if chars_eq(&cur, &unedited) {
        None
    } else {
        Some(string_of(&cur))
    }
}

/// A role pings only for its own split, and a role that is no PB role only
/// under its own time: the run's whole minutes are below the role's minutes,
/// or equal to them with fewer seconds than the role's. A runner's own role
/// pings only for that runner; a PB role only in a private guild, under the
/// runner's threshold for the split.
pub proof fn lemma_structure_role_pings_under_its_time(
    role: RoleData,
    player: PlayerSplitsData,
    run_split: Split,
    igt: u64,
    is_private: bool,
    nickname: Seq<char>,
)
    requires
        role.pingable(player, run_split, igt, is_private, nickname),
    ensures
        role.split == run_split,
        !seq_contains(role.role_name@, "PB"@) ==> ((igt as nat / 60000) % 256 < role.minutes || ((igt as nat
            / 60000) % 256 == role.minutes && (igt as nat / 1000) % 60 < role.seconds)),
        !seq_contains(role.role_name@, "PB"@) && seq_contains(role.role_name@, "+"@) ==> lowercase(role.runner@)
            == lowercase(nickname),
        seq_contains(role.role_name@, "PB"@) ==> is_private && player.threshold(role.split) > (igt as nat / 60000)
            % 256,
{
    assert(igt as nat / 1000 / 60 == igt as nat / 60000);
}

/// Taking more context events never lowers the count of bastion signs.
proof fn lemma_bastion_signs_prefix(events: Seq<Event>, k: int)
    requires
        0 <= k <= events.len(),
    ensures
        bastion_signs(events.take(k)) <= bastion_signs(events),
    decreases events.len() - k,
{
    if k < events.len() {
        lemma_bastion_signs_prefix(events, k + 1);
        assert(events.take(k + 1).drop_last() =~= events.take(k));
    } else {
        assert(events.take(k) =~= events);
    }
}

/// The sign count of a prefix one longer: one more where the added event is
/// crying obsidian, obsidian or bastion loot.
proof fn lemma_bastion_signs_step(events: Seq<Event>, k: int)
    requires
        0 <= k < events.len(),
    ensures
        bastion_signs(events.take(k + 1)) == bastion_signs(events.take(k)) + if events[k].event_id
            == EventId::RsgObtainCryingObsidian || events[k].event_id == EventId::RsgObtainObsidian
            || events[k].event_id == EventId::RsgLootBastion {
            1nat
        } else {
            0nat
        },
{
    assert(events.take(k + 1).drop_last() =~= events.take(k));
    assert(events.take(k + 1).last() == events[k]);
}

/// Context events with none of crying obsidian, obsidian or bastion loot
/// count no bastion sign.
proof fn lemma_no_bastion_signs(events: Seq<Event>)
    requires
        forall|k: int|
            0 <= k < events.len() ==> #[trigger] events[k].event_id != EventId::RsgObtainCryingObsidian
                && events[k].event_id != EventId::RsgObtainObsidian && events[k].event_id != EventId::RsgLootBastion,
    ensures
        bastion_signs(events) == 0,
    decreases events.len(),
{
    if events.len() > 0 {
        let p = events.drop_last();
        assert forall|k: int| 0 <= k < p.len() implies #[trigger] p[k].event_id != EventId::RsgObtainCryingObsidian
            && p[k].event_id != EventId::RsgObtainObsidian && p[k].event_id != EventId::RsgLootBastion by {
            assert(p[k] == events[k]);
        }
        lemma_no_bastion_signs(p);
        assert(events.last() == events[events.len() - 1]);
    }
}

/// A fortress entered in a run that has entered a bastion is the second
/// structure once two context events are crying obsidian, obsidian or
/// bastion loot (each counts), and the first structure while none is; it is
/// never the second structure in a run that has entered no bastion.
pub proof fn lemma_fortress_after_bastion(last: Event, events: Seq<Event>, context: Seq<Event>, i: int, j: int)
    requires
        last.event_id == EventId::RsgEnterFortress,
    ensures
        ({
            let sign = |id: EventId|
                id == EventId::RsgObtainCryingObsidian || id == EventId::RsgObtainObsidian || id
                    == EventId::RsgLootBastion;
            let bastion = exists|b: int| 0 <= b < events.len() && #[trigger] events[b].event_id == EventId::RsgEnterBastion;
            let r = run_info_of(last, events, context);
            &&& r is Some && r->0.structure == Some(Structure::Fortress) && r->0.run_type == RunType::Modern
            &&& (bastion && 0 <= i < j < context.len() && sign(context[i].event_id) && sign(context[j].event_id) ==> r->0.split
                == Split::SecondStructure)
            &&& ((forall|k: int| 0 <= k < context.len() ==> !sign(#[trigger] context[k].event_id)) ==> r->0.split
                == Split::FirstStructure)
            &&& (!bastion ==> r->0.split == Split::FirstStructure)
        }),
{
    if 0 <= i < j < context.len() {
        lemma_bastion_signs_step(context, i);
        lemma_bastion_signs_step(context, j);
        lemma_bastion_signs_prefix(context, j + 1);
        lemma_bastion_signs_prefix(context.take(j), i + 1);
        assert(context.take(j).take(i + 1) =~= context.take(i + 1));
    }
    if forall|k: int|
        0 <= k < context.len() ==> !(context[k].event_id == EventId::RsgObtainCryingObsidian || context[k].event_id
            == EventId::RsgObtainObsidian || context[k].event_id == EventId::RsgLootBastion) {
        lemma_no_bastion_signs(context);
    }
}

/// A bastion is the second structure exactly when the run has entered a
/// fortress and its context holds a blaze rod; a first portal is blind, and
/// the run is bastionless exactly when it has entered no bastion.
pub proof fn lemma_bastion_and_portal_splits(last: Event, events: Seq<Event>, context: Seq<Event>)
    ensures
        ({
            let r = run_info_of(last, events, context);
            let fortress = exists|b: int| 0 <= b < events.len() && #[trigger] events[b].event_id == EventId::RsgEnterFortress;
            let bastion = exists|b: int| 0 <= b < events.len() && #[trigger] events[b].event_id == EventId::RsgEnterBastion;
            let rod = exists|b: int| 0 <= b < context.len() && #[trigger] context[b].event_id == EventId::RsgObtainBlazeRod;
            &&& (last.event_id == EventId::RsgEnterBastion ==> r == Some(
                RunInfo {
                    split: if fortress && rod {
                        Split::SecondStructure
                    } else {
                        Split::FirstStructure
                    },
                    structure: Some(Structure::Bastion),
                    run_type: RunType::Modern,
                },
            ))
            &&& (last.event_id == EventId::RsgFirstPortal ==> r == Some(
                RunInfo {
                    split: Split::Blind,
                    structure: None,
                    run_type: if bastion {
                        RunType::Modern
                    } else {
                        RunType::Bastionless
                    },
                },
            ))
        }),
{
}

} // verus!

