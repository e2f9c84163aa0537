//! Pings for an all-advancements split: which pace-roles a split pings, and
//! whether a completion is sent.

use vstd::prelude::*;

use crate::cache::aa_split::AaSplit;
use crate::cache::players::PlayerSplitsData;
use crate::cache::role_cache_entry::under;
use crate::dispatcher::utils::millis_to_hrs_mins;
use crate::name_map::NameMap;
use crate::text::{chars_of, chars_eq, contains, lowercase, lowercase_chars, seq_contains, to_lowercase};

verus! {

/// An all-advancements pace-role: its split and time threshold in hours and
/// minutes, and, for a runner's own pings, the runner. The Discord role is
/// held by its id and name.
pub struct AaRole {
    pub split: AaSplit,
    pub hours: u8,
    pub minutes: u8,
    pub runner: String,
    pub role_id: u64,
    pub role_name: String,
}

/// The whole hours (truncated to a byte) of an in-game time.
pub open spec fn igt_hours(igt: u64) -> nat {
    (igt as nat / 1000 / 3600) % 256
}

impl AaRole {
    /// Whether the role is pinged when a runner named `nickname`, with these
    /// thresholds, reaches `run_split` at in-game time `igt`. The minutes of
    /// the split's time are always read as 0. A PB role pings in private
    /// guilds when the runner's threshold has more whole hours, and more
    /// minutes past the hour, than the split.
    pub open spec fn pingable(
        self,
        player: PlayerSplitsData,
        run_split: AaSplit,
        igt: u64,
        is_private: bool,
        nickname: Seq<char>,
    ) -> bool {
        let h = igt_hours(igt);
        if seq_contains(self.role_name@, "PB"@) {
            let pb = player.threshold(self.split)->Some_0;
            is_private && self.split == run_split && (pb as nat / 60) % 256 > h && pb as nat % 60 > 0
        } else if seq_contains(self.role_name@, "+"@) {
            &&& self.split == run_split
            &&& lowercase(self.runner@) == lowercase(nickname)
            &&& under(h, 0, self.hours as nat, self.minutes as nat)
        } else {
            self.split == run_split && under(h, 0, self.hours as nat, self.minutes as nat)
        }
    }

    /// Reading the role panics where it is a PB role in a private guild and
    /// the runner has no threshold for its split (a finish without one).
    pub open spec fn readable(self, player: PlayerSplitsData, is_private: bool) -> bool {
        seq_contains(self.role_name@, "PB"@) && is_private ==> player.threshold(self.split) is Some
    }

    /// Whether the role is pinged.
    pub fn is_pingable(
        &self,
        player_data: &PlayerSplitsData,
        run_split: &AaSplit,
        igt: u64,
        is_private: bool,
        nickname: &str,
    ) -> (r: bool)
        requires
            self.readable(*player_data, is_private),
        ensures
            r == self.pingable(*player_data, *run_split, igt, is_private, nickname@),
    {
        let (split_hours, split_minutes) = millis_to_hrs_mins(igt);
        let name = chars_of(self.role_name.as_str());
        let pb = chars_of("PB");
        let plus = chars_of("+");
        if contains(&name, &pb) {
            if !is_private {
                return false;
            }
            let pb_minutes = player_data.get(&self.split).unwrap();
            let pb_hours = (pb_minutes / 60) as u8;
            let pb_mins = (pb_minutes % 60) as u8;
            proof {
                let q = pb_minutes / 60;
                assert((q as u8) as nat == q as nat % 256) by (bit_vector)
                    requires q == q;
            }
            self.split == *run_split && pb_hours > split_hours && pb_mins > split_minutes
        } else if contains(&name, &plus) {
            let runner = chars_of(self.runner.as_str());
            let nick = chars_of(nickname);
            let a = lowercase_chars(&runner);
            let b = lowercase_chars(&nick);
            self.split == *run_split && chars_eq(&a, &b) && self.hours >= split_hours && (self.hours
                != split_hours || self.minutes > split_minutes)
        } else {
            self.split == *run_split && self.hours >= split_hours && (self.hours != split_hours
                || self.minutes > split_minutes)
        }
    }
}

/// The roles of `roles` that ping for this split, in order; with
/// `only_runner`, only those that belong to a runner.
pub open spec fn aa_pinged_roles(
    roles: Seq<AaRole>,
    player: PlayerSplitsData,
    split: AaSplit,
    igt: u64,
    is_private: bool,
    nickname: Seq<char>,
    only_runner: bool,
) -> Seq<u64>
    decreases roles.len(),
{
    if roles.len() == 0 {
        Seq::empty()
    } else {
        let rest = aa_pinged_roles(roles.drop_last(), player, split, igt, is_private, nickname, only_runner);
        let r = roles.last();
        if r.pingable(player, split, igt, is_private, nickname) && (!only_runner || r.runner@.len() > 0) {
            rest.push(r.role_id)
        } else {
            rest
        }
    }
}

/// The ids of the roles that an all-advancements split pings, in order;
/// with `only_runner`, only the runners' own roles.
pub fn aa_roles_to_ping(
    roles: &Vec<AaRole>,
    player_data: &PlayerSplitsData,
    run_split: &AaSplit,
    igt: u64,
    is_private: bool,
    nickname: &str,
    only_runner: bool,
) -> (r: Vec<u64>)
    requires
        forall|i: int| 0 <= i < roles.len() ==> #[trigger] roles@[i].readable(*player_data, is_private),
    ensures
        r@ == aa_pinged_roles(roles@, *player_data, *run_split, igt, is_private, nickname@, only_runner),
{
    let mut out: Vec<u64> = Vec::new();
    assert(roles@.take(0) =~= Seq::<AaRole>::empty());
    for i in 0..roles.len()
        invariant
            forall|j: int| 0 <= j < roles.len() ==> #[trigger] roles@[j].readable(*player_data, is_private),
            out@ == aa_pinged_roles(
                roles@.take(i as int),
                *player_data,
                *run_split,
                igt,
                is_private,
                nickname@,
                only_runner,
            ),
    {
        let role = &roles[i];
        assert(roles@[i as int].readable(*player_data, is_private));
        let pinged = role.is_pingable(player_data, run_split, igt, is_private, nickname);
        let runner = chars_of(role.runner.as_str());
        if pinged && (!only_runner || runner.len() > 0) {
            out.push(role.role_id);
        }
        proof {
            let t = roles@.take(i + 1);
            assert(t.drop_last() =~= roles@.take(i as int));
            assert(t.last() == roles@[i as int]);
        }
    }
    assert(roles@.take(roles.len() as int) =~= roles@);
    out
}

/// What is done with an all-advancements completion in one guild.
#[derive(PartialEq, Eq, Structural, Debug, Clone, Copy)]
pub enum AaFinishStep {
    /// The guild is public, the runner has no finish threshold and the run
    /// took 3 hours or more.
    SkipSlowPublic,
    /// The run's whole hours reach those of the runner's finish threshold.
    SkipOverThreshold,
    /// The completion is sent.
    Send,
}

/// A completion in `hours` whole hours: under the whole hours of the
/// runner's threshold where there is one, else sent in private guilds and,
/// in public ones, under 3 hours.
pub open spec fn aa_finish_step(finish: Option<u32>, hours: nat, is_private: bool) -> AaFinishStep {
    match finish {
        Some(f) => if hours >= (f as nat / 60) % 256 {
            AaFinishStep::SkipOverThreshold
        } else {
            AaFinishStep::Send
        },
        None => if !is_private && hours >= 3 {
            AaFinishStep::SkipSlowPublic
        } else {
            AaFinishStep::Send
        },
    }
}

/// Whether a completion at `igt` is sent to a guild, for a runner whose
/// finish threshold (in minutes) is `finish`.
pub fn decide_aa_finish(finish: Option<u32>, igt: u64, is_private: bool) -> (r: AaFinishStep)
    ensures
        r == aa_finish_step(finish, igt_hours(igt), is_private),
{
    let (hours, _minutes) = millis_to_hrs_mins(igt);
    let finish_minutes = match finish {
        Some(mins) => mins,
        None => {
            if !is_private && hours >= 3 {
                return AaFinishStep::SkipSlowPublic;
            }
            0
        },
    };
    let finish_hours = (finish_minutes / 60) as u8;
    proof {
        let q = finish_minutes / 60;
        assert((q as u8) as nat == q as nat % 256) by (bit_vector)
            requires q == q;
    }
    if finish.is_some() && hours >= finish_hours {
        return AaFinishStep::SkipOverThreshold;
    }
    AaFinishStep::Send
}

/// A runner's threshold of 0 for a split never lets a PB role of that split
/// ping: an unset threshold never pings.
pub proof fn lemma_zero_threshold_never_pings(
    role: AaRole,
    player: PlayerSplitsData,
    run_split: AaSplit,
    igt: u64,
    is_private: bool,
    nickname: Seq<char>,
)
    requires
        seq_contains(role.role_name@, "PB"@),
        player.threshold(role.split) == Some(0u32),
    ensures
        !role.pingable(player, run_split, igt, is_private, nickname),
{
}

/// Without a finish threshold every completion is sent in a private guild,
/// and in a public one every completion under 3 hours; with one, a
/// completion is sent only under its whole hours.
pub proof fn lemma_finish_without_threshold(hours: nat, f: u32)
    ensures
        aa_finish_step(None, hours, true) == AaFinishStep::Send,
        hours < 3 ==> aa_finish_step(None, hours, false) == AaFinishStep::Send,
        hours >= 3 ==> aa_finish_step(None, hours, false) == AaFinishStep::SkipSlowPublic,
        (aa_finish_step(Some(f), hours, true) == AaFinishStep::Send) == (hours < (f as nat / 60) % 256),
{
}

/// The thresholds a pace of the runner `nickname` is judged by in a guild
/// whose runners are `players` (by lower-case name): the runner's own where
/// the runner is listed; else, in a private guild, none (the guild is
/// skipped); else, in a public guild, thresholds of 0, and the runner is
/// added with them.
pub fn aa_runner_data(players: &mut NameMap<PlayerSplitsData>, nickname: &str, is_private: bool) -> (r: Option<
    PlayerSplitsData,
>)
    ensures
        old(players).map().contains_key(lowercase(nickname@)) ==> r == Some(
            old(players).map()[lowercase(nickname@)],
        ) && final(players).map() == old(players).map(),
        !old(players).map().contains_key(lowercase(nickname@)) && is_private ==> r is None && final(players).map()
            == old(players).map(),
        !old(players).map().contains_key(lowercase(nickname@)) && !is_private ==> r == Some(
            PlayerSplitsData { adventuring_time: 0, beaconator: 0, hdwgh: 0, finish: None },
        ) && final(players).map() == old(players).map().insert(
            lowercase(nickname@),
            PlayerSplitsData { adventuring_time: 0, beaconator: 0, hdwgh: 0, finish: None },
        ),
{
    let key = to_lowercase(nickname);
    match players.get(key.as_str()) {
        Some(data) => Some(data),
        None => {
            if is_private {
                return None;
            }
            let data = PlayerSplitsData::default();
            players.insert(key, data);
            Some(data)
        },
    }
}

/// A role pings only for its own split, and a role that is no PB role only
/// under its own time: the run's whole hours are below the role's hours, or
/// equal to them with minutes to spare. A runner's own role pings only for
/// that runner; a PB role only in a private guild, under the whole hours of
/// the runner's threshold for the split.
pub proof fn lemma_aa_role_pings_under_its_time(
    role: AaRole,
    player: PlayerSplitsData,
    run_split: AaSplit,
    igt: u64,
    is_private: bool,
    nickname: Seq<char>,
)
    requires
        role.pingable(player, run_split, igt, is_private, nickname),
    ensures
        role.split == run_split,
        !seq_contains(role.role_name@, "PB"@) ==> ((igt as nat / 3600000) % 256 < role.hours || ((igt as nat
            / 3600000) % 256 == role.hours && role.minutes > 0)),
        !seq_contains(role.role_name@, "PB"@) && seq_contains(role.role_name@, "+"@) ==> lowercase(role.runner@)
            == lowercase(nickname),
        seq_contains(role.role_name@, "PB"@) ==> is_private && (player.threshold(
            role.split,
        )->Some_0 as nat / 60) % 256 > (igt as nat / 3600000) % 256,
{
    assert(igt as nat / 1000 / 3600 == igt as nat / 3600000);
}

} // verus!

