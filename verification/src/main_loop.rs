//! The polling loop's decisions: the order in which run records are
//! handled, the split a structure event stands for, which pings are already
//! in the channel, which roles a split pings, and the message cache.

use vstd::prelude::*;

use crate::dispatcher::message::mentions_text;
use crate::dispatcher::utils::{format_time, millis_to_mins_secs, time_text};
use crate::name_map::NameMap;
use crate::cache::role_cache_entry::{igt_minutes, igt_seconds};
use crate::sort::{key_before, stable_order, stable_sort_by_key};
use crate::text::{chars_eq_str, chars_of, contains, push_str, seq_contains, string_of};
use crate::ws::{Event, EventId};

verus! {

/// The records in the order they are handled: by number of events, most
/// first; records with as many events in the reverse of their given order
/// (a stable sort by count, then reversed).
pub open spec fn records_order(counts: Seq<u64>, order: Seq<int>) -> bool {
    stable_order(counts, order.reverse())
}

/// The order in which the records with these event counts are handled, as
/// indexes.
pub fn record_order(event_counts: &Vec<u64>) -> (order: Vec<usize>)
    ensures
        records_order(event_counts@, order@.map_values(|i: usize| i as int)),
{
    let asc = stable_sort_by_key(event_counts);
    let ghost a = asc@.map_values(|i: usize| i as int);
    let mut order: Vec<usize> = Vec::new();
    let n = asc.len();
    for k in 0..n
        invariant
            n == asc.len(),
            a == asc@.map_values(|i: usize| i as int),
            order@.len() == k,
            forall|j: int| 0 <= j < k ==> #[trigger] order@[j] as int == a[n - 1 - j],
    {
        order.push(asc[n - 1 - k]);
    }
    let ghost o = order@.map_values(|i: usize| i as int);
    assert(o.reverse() =~= a);
    order
}

/// The split code that a structure event finally stands for. An entered
/// bastion (`Ba`) is the first structure where the run has entered no
/// fortress, and for a whitelisted runner the second one otherwise; an
/// entered fortress (`F`) is the second structure where the run has entered
/// a bastion, and for a whitelisted runner the first one otherwise. Other
/// codes stand as they are.
pub open spec fn adjusted_split(code: Seq<char>, others: Seq<EventId>, in_runner_names: bool) -> Seq<char> {
    if code == "Ba"@ {
        if !others.contains(EventId::RsgEnterFortress) {
            "FS"@
        } else if in_runner_names {
            "SS"@
        } else {
            code
        }
    } else if code == "F"@ {
        if others.contains(EventId::RsgEnterBastion) {
            "SS"@
        } else if in_runner_names {
            "FS"@
        } else {
            code
        }
    } else {
        code
    }
}

/// The ids of the events of `events` other than `last`, in order.
pub open spec fn other_event_ids(events: Seq<Event>, last: Event) -> Seq<EventId>
    decreases events.len(),
{
    if events.len() == 0 {
        Seq::empty()
    } else {
        let rest = other_event_ids(events.drop_last(), last);
        if events.last() != last {
            rest.push(events.last().event_id)
        } else {
            rest
        }
    }
}

fn has_other(events: &Vec<Event>, last: &Event, id: EventId) -> (r: bool)
    ensures
        r == other_event_ids(events@, *last).contains(id),
{
    let mut found = false;
    assert(events@.take(0) =~= Seq::<Event>::empty());
    for i in 0..events.len()
        invariant
            found == other_event_ids(events@.take(i as int), *last).contains(id),
    {
        let ghost t = events@.take(i + 1);
        let ghost before = other_event_ids(events@.take(i as int), *last);
        proof {
            assert(t.drop_last() =~= events@.take(i as int));
            assert(t.last() == events@[i as int]);
        }
        let e = events[i];
        if e != *last && e.event_id == id {
            found = true;
        }
        proof {
            if e != *last {
                assert(other_event_ids(t, *last) == before.push(e.event_id));
                if !found {
                    assert forall|k: int| 0 <= k < before.len() + 1 implies before.push(e.event_id)[k] != id by {
                        if k < before.len() {
                            assert(before.push(e.event_id)[k] == before[k]);
                        }
                    }
                } else {
                    assert(before.push(e.event_id)[before.len() as int] == id || before.contains(id));
                    if before.contains(id) {
                        let k = choose|k: int| 0 <= k < before.len() && before[k] == id;
                        assert(before.push(e.event_id)[k] == id);
                    }
                }
            } else {
                assert(other_event_ids(t, *last) == before);
            }
        }
    }
    assert(events@.take(events.len() as int) =~= events@);
    found
}

/// The split code that the last event of a run stands for, given the run's
/// events and whether the runner is in the guild's runner names.
pub fn adjust_split(code: &str, events: &Vec<Event>, last: &Event, in_runner_names: bool) -> (r: String)
    ensures
        r@ == adjusted_split(code@, other_event_ids(events@, *last), in_runner_names),
{
    let c = chars_of(code);
    if chars_eq_str(&c, "Ba") {
        if !has_other(events, last, EventId::RsgEnterFortress) {
            String::from_str("FS")
        } else if in_runner_names {
            String::from_str("SS")
        } else {
            String::from_str(code)
        }
    } else if chars_eq_str(&c, "F") {
        if has_other(events, last, EventId::RsgEnterBastion) {
            String::from_str("SS")
        } else if in_runner_names {
            String::from_str("FS")
        } else {
            String::from_str(code)
        }
    } else {
        String::from_str(code)
    }
}

/// A cached message already holds this ping: the split, the time and the
/// stream (or, for a runner without one, nothing more).
pub open spec fn already_sent(contents: Seq<Seq<char>>, desc: Seq<char>, igt: u64, live_account: Seq<char>) -> bool {
    exists|i: int|
        0 <= i < contents.len() && seq_contains(#[trigger] contents[i], desc) && seq_contains(
            contents[i],
            time_text(igt as nat),
        ) && seq_contains(contents[i], live_account)
}

pub open spec fn string_views(v: Seq<String>) -> Seq<Seq<char>> {
    v.map_values(|s: String| s@)
}

/// Whether the channel's cached messages already hold this ping;
/// `live_account` is empty for a runner without a stream.
pub fn is_already_sent(contents: &Vec<String>, split_desc: &str, igt: u64, live_account: &str) -> (r: bool)
    ensures
        r == already_sent(string_views(contents@), split_desc@, igt, live_account@),
{
    let d = chars_of(split_desc);
    let t = format_time(igt);
    let tv = chars_of(t.as_str());
    let a = chars_of(live_account);
    for i in 0..contents.len()
        invariant
            d@ == split_desc@,
            tv@ == time_text(igt as nat),
            a@ == live_account@,
            forall|j: int|
                0 <= j < i ==> !(seq_contains(#[trigger] string_views(contents@)[j], split_desc@) && seq_contains(
                    string_views(contents@)[j],
                    time_text(igt as nat),
                ) && seq_contains(string_views(contents@)[j], live_account@)),
    {
        let c = chars_of(contents[i].as_str());
        assert(string_views(contents@)[i as int] == c@);
        if contains(&c, &d) && contains(&c, &tv) && contains(&c, &a) {
            return true;
        }
    }
    false
}

/// A pace-role as the loop reads it: its split code, its time, whether it
/// is a PB role, and the role's id.
pub struct CoreRole {
    pub code: String,
    pub minutes: u8,
    pub seconds: u8,
    pub pb: bool,
    pub role_id: u64,
}

/// Whether a role pings for a split reached at `igt`: a PB role of a
/// whitelisted runner when the runner's threshold for its split is at least
/// the split's whole minutes; any other role of the split when its time is
/// at least the split's (minutes first, then seconds).
pub open spec fn core_pingable(
    role: CoreRole,
    split: Seq<char>,
    igt: u64,
    in_runner_names: bool,
    thresholds: Map<Seq<char>, u8>,
) -> bool {
    let m = igt_minutes(igt);
    let s = igt_seconds(igt);
    if role.pb && in_runner_names {
        role.code@ == split && thresholds[role.code@] >= m
    } else {
        role.code@ == split && role.minutes >= m && (role.minutes != m || role.seconds >= s)
    }
}

/// The roles of `roles` that ping, in order.
pub open spec fn core_pinged(
    roles: Seq<CoreRole>,
    split: Seq<char>,
    igt: u64,
    in_runner_names: bool,
    thresholds: Map<Seq<char>, u8>,
) -> Seq<u64>
    decreases roles.len(),
{
    if roles.len() == 0 {
        Seq::empty()
    } else {
        let rest = core_pinged(roles.drop_last(), split, igt, in_runner_names, thresholds);
        if core_pingable(roles.last(), split, igt, in_runner_names, thresholds) {
            rest.push(roles.last().role_id)
        } else {
            rest
        }
    }
}

/// The ids of the roles that the split pings, in order. `thresholds` are
/// the whitelisted runner's thresholds by split code.
pub fn core_roles_to_ping(
    roles: &Vec<CoreRole>,
    split: &str,
    igt: u64,
    in_runner_names: bool,
    thresholds: &NameMap<u8>,
) -> (r: Vec<u64>)
    requires
        forall|i: int|
            0 <= i < roles.len() && #[trigger] roles@[i].pb && in_runner_names ==> thresholds.map().contains_key(
                roles@[i].code@,
            ),
    ensures
        r@ == core_pinged(roles@, split@, igt, in_runner_names, thresholds.map()),
{
    let (split_minutes, split_seconds) = millis_to_mins_secs(igt);
    let sp = chars_of(split);
    let mut out: Vec<u64> = Vec::new();
    assert(roles@.take(0) =~= Seq::<CoreRole>::empty());
    for i in 0..roles.len()
        invariant
            sp@ == split@,
            split_minutes as nat == igt_minutes(igt),
            split_seconds as nat == igt_seconds(igt),
            forall|j: int|
                0 <= j < roles.len() && #[trigger] roles@[j].pb && in_runner_names ==> thresholds.map().contains_key(
                    roles@[j].code@,
                ),
            out@ == core_pinged(roles@.take(i as int), split@, igt, in_runner_names, thresholds.map()),
    {
        let role = &roles[i];
        let code = chars_of(role.code.as_str());
        let same = crate::text::chars_eq(&code, &sp);
        let pinged = if role.pb && in_runner_names {
            assert(roles@[i as int].pb);
            let pb_minutes = thresholds.get(role.code.as_str()).unwrap();
            same && pb_minutes >= split_minutes
        } else {
            same && role.minutes >= split_minutes && (role.minutes != split_minutes || role.seconds
                >= split_seconds)
        };
        if pinged {
            out.push(role.role_id);
        }
        proof {
            let t = roles@.take(i + 1);
            assert(t.drop_last() =~= roles@.take(i as int));
            assert(t.last() == roles@[i as int]);
        }
    }
    assert(roles@.take(roles.len() as int) =~= roles@);
    out
}

/// How the loop's ping points at the runner: the stream, or for a
/// whitelisted runner without one, the runner's name; `None` skips the
/// guild.
pub open spec fn core_live_text(nickname: Seq<char>, live_account: Option<Seq<char>>, in_runner_names: bool) -> Option<Seq<char>> {
    match live_account {
        Some(acc) => Some("<https://twitch.tv/"@ + acc + ">"@),
        None => if in_runner_names {
            Some("Offline - "@ + nickname)
        } else {
            None
        },
    }
}

/// How the loop's ping points at the runner.
pub fn core_live_link(nickname: &str, live_account: &Option<String>, in_runner_names: bool) -> (r: Option<String>)
    ensures
        match r {
            Some(t) => core_live_text(
                nickname@,
                match live_account {
                    Some(a) => Some(a@),
                    None => None,
                },
                in_runner_names,
            ) == Some(t@),
            None => core_live_text(
                nickname@,
                match live_account {
                    Some(a) => Some(a@),
                    None => None,
                },
                in_runner_names,
            ) is None,
        },
{
    let mut out: Vec<char> = Vec::new();
    match live_account {
        Some(acc) => {
            push_str(&mut out, "<https://twitch.tv/");
            push_str(&mut out, acc.as_str());
            push_str(&mut out, ">");
        },
        None => {
            if !in_runner_names {
                return None;
            }
            push_str(&mut out, "Offline - ");
            push_str(&mut out, nickname);
        },
    }
    Some(string_of(&out))
}

/// The text of the loop's ping: time and split as a heading, a blank line,
/// the runner's link, and the mentions.
pub open spec fn core_ping_text(igt: u64, desc: Seq<char>, live: Seq<char>, ids: Seq<u64>) -> Seq<char> {
    "## "@ + time_text(igt as nat) + " - "@ + desc + "\n\n"@ + live + "\n"@ + mentions_text(ids)
}

/// The text of the loop's ping.
pub fn core_ping_content(igt: u64, split_desc: &str, live_link: &str, ids: &Vec<u64>) -> (r: String)
    ensures
        r@ == core_ping_text(igt, split_desc@, live_link@, ids@),
{
    let mut out: Vec<char> = Vec::new();
    push_str(&mut out, "## ");
    let t = format_time(igt);
    push_str(&mut out, t.as_str());
    push_str(&mut out, " - ");
    push_str(&mut out, split_desc);
    push_str(&mut out, "\n\n");
    push_str(&mut out, live_link);
    push_str(&mut out, "\n");
    let m = crate::dispatcher::message::join_mentions(ids);
    push_str(&mut out, m.as_str());
    assert(out@ =~= core_ping_text(igt, split_desc@, live_link@, ids@));
    string_of(&out)
}

/// The messages the loop remembers per guild: a sent ping is added, and
/// the oldest is dropped once there are more than 100.
pub open spec fn cached_after(cache: Seq<Seq<char>>, sent: Seq<char>) -> Seq<Seq<char>> {
    let c = cache.push(sent);
    if c.len() > 100 {
        c.drop_first()
    } else {
        c
    }
}

/// Adds a sent ping to a guild's cached messages.
pub fn remember_message(cache: &mut Vec<String>, sent: String)
    ensures
        string_views(final(cache)@) == cached_after(string_views(old(cache)@), sent@),
{
    let ghost before = string_views(cache@);
    cache.push(sent);
    if cache.len() > 100 {
        let _ = cache.remove(0);
    }
    assert(string_views(cache@) =~= cached_after(before, sent@));
}

/// The cache never holds more than 100 messages once it holds at most 100.
pub proof fn lemma_cache_bounded(cache: Seq<Seq<char>>, sent: Seq<char>)
    requires
        cache.len() <= 100,
    ensures
        cached_after(cache, sent).len() <= 100,
        cached_after(cache, sent).last() == sent,
{
}

/// A role pings only for its own split; a role read as no PB role (or any
/// role, outside a guild with runner names) only at or under its own time:
/// the run's whole minutes are below the role's minutes, or equal to them
/// with no more seconds than the role's.
pub proof fn lemma_core_role_pings_under_its_time(
    role: CoreRole,
    split: Seq<char>,
    igt: u64,
    in_runner_names: bool,
    thresholds: Map<Seq<char>, u8>,
)
    requires
        core_pingable(role, split, igt, in_runner_names, thresholds),
    ensures
        role.code@ == split,
        !(role.pb && in_runner_names) ==> ((igt as nat / 60000) % 256 < role.minutes || ((igt as nat / 60000) % 256
            == role.minutes && (igt as nat / 1000) % 60 <= role.seconds)),
        role.pb && in_runner_names ==> thresholds[split] >= (igt as nat / 60000) % 256,
{
    assert(igt as nat / 1000 / 60 == igt as nat / 60000);
}

} // verus!
