//! A pace-role as the bot reads it from its name, and when it is pinged.

use vstd::prelude::*;

use crate::cache::guild_cache_entry::Split;
use crate::cache::player_cache_entry::PlayerCacheEntry;
use crate::dispatcher::utils::millis_to_mins_secs;
use crate::text::{chars_of, chars_eq, contains, lowercase, lowercase_chars, seq_contains};
use crate::ws::Event;

verus! {

/// A pace-role: its split and time threshold, and, for a runner's own pings,
/// the runner. The Discord role is held by its id and name.
pub struct RoleCacheEntry {
    pub split: Split,
    pub minutes: u8,
    pub seconds: u8,
    pub runner: String,
    pub role_id: u64,
    pub role_name: String,
}

/// The whole minutes (truncated to a byte) of an in-game time.
pub open spec fn igt_minutes(igt: u64) -> nat {
    (igt as nat / 1000 / 60) % 256
}

/// The seconds within the minute of an in-game time.
pub open spec fn igt_seconds(igt: u64) -> nat {
    (igt as nat / 1000) % 60
}

/// A time of `m` minutes and `s` seconds is below the threshold of `rm`
/// minutes and `rs` seconds, compared minutes first.
pub open spec fn under(m: nat, s: nat, rm: nat, rs: nat) -> bool {
    rm >= m && (rm != m || rs > s)
}

impl RoleCacheEntry {
    /// Whether the role is pinged when a runner named `nickname`, with these
    /// thresholds, reaches `run_split` at in-game time `igt`.
    pub open spec fn pingable(
        self,
        player: PlayerCacheEntry,
        run_split: Split,
        igt: u64,
        is_private: bool,
        nickname: Seq<char>,
    ) -> bool {
        let m = igt_minutes(igt);
        let s = igt_seconds(igt);
        if seq_contains(self.role_name@, "PB"@) {
            is_private && self.split == run_split && player.threshold(self.split) > m
        } else if seq_contains(self.role_name@, "+"@) {
            &&& self.split == run_split
            &&& lowercase(self.runner@) == lowercase(nickname)
            &&& under(m, s, self.minutes as nat, self.seconds as nat)
        } else {
            self.split == run_split && under(m, s, self.minutes as nat, self.seconds as nat)
        }
    }

    /// Whether the role is pinged: a PB role in a private guild when the
    /// split is under the runner's threshold, a runner's own role for that
    /// runner under its time, and any other role under its time.
    pub fn is_pingable(
        &self,
        player_data: &PlayerCacheEntry,
        run_split: &Split,
        last_event: &Event,
        is_private: bool,
        nickname: &str,
    ) -> (r: bool)
        ensures
            r == self.pingable(*player_data, *run_split, last_event.igt, is_private, nickname@),
    {
        let (split_minutes, split_seconds) = millis_to_mins_secs(last_event.igt);
        let name = chars_of(self.role_name.as_str());
        let pb = chars_of("PB");
        let plus = chars_of("+");
        if contains(&name, &pb) {
            if !is_private {
                return false;
            }
            let pb_minutes = player_data.get(&self.split).unwrap();
            self.split == *run_split && pb_minutes > split_minutes
        } else if contains(&name, &plus) {
            let runner = chars_of(self.runner.as_str());
            let nick = chars_of(nickname);
            let a = lowercase_chars(&runner);
            let b = lowercase_chars(&nick);
            self.split == *run_split && chars_eq(&a, &b) && self.minutes >= split_minutes && (
            self.minutes != split_minutes || self.seconds > split_seconds)
        } else {
            self.split == *run_split && self.minutes >= split_minutes && (self.minutes != split_minutes
                || self.seconds > split_seconds)
        }
    }
}

/// A timed role pings exactly for split times strictly below its own time,
/// counted in whole seconds, for roles of at most a minute's seconds and runs
/// shorter than 256 minutes.
pub proof fn lemma_timed_role_pings_below_its_time(
    role: RoleCacheEntry,
    player: PlayerCacheEntry,
    igt: u64,
    is_private: bool,
    nickname: Seq<char>,
)
    requires
        !seq_contains(role.role_name@, "PB"@),
        !seq_contains(role.role_name@, "+"@),
        role.seconds <= 60,
        igt < 256 * 60000,
    ensures
        role.pingable(player, role.split, igt, is_private, nickname) <==> igt as nat / 1000 < role.minutes
            * 60 + role.seconds,
{
    let t = igt as nat / 1000;
    assert(t < 256 * 60);
    assert(t / 60 < 256);
    assert(igt_minutes(igt) == t / 60);
    assert(t == (t / 60) * 60 + t % 60);
}

/// A role pings only for its own split, and a role that is no PB role only
/// under its own time: the run's whole minutes are below the role's minutes,
/// or equal to them with fewer seconds than the role's. A runner's own role
/// pings only for that runner; a PB role only in a private guild, under the
/// runner's threshold for the split.
pub proof fn lemma_role_pings_under_its_time(
    role: RoleCacheEntry,
    player: PlayerCacheEntry,
    run_split: Split,
    igt: u64,
    is_private: bool,
    nickname: Seq<char>,
)
    requires
        role.pingable(player, run_split, igt, is_private, nickname),
    ensures
        role.split == run_split,
        !seq_contains(role.role_name@, "PB"@) ==> ((igt as nat / 60000) % 256 < role.minutes || ((igt as nat
            / 60000) % 256 == role.minutes && (igt as nat / 1000) % 60 < role.seconds)),
        !seq_contains(role.role_name@, "PB"@) && seq_contains(role.role_name@, "+"@) ==> lowercase(role.runner@)
            == lowercase(nickname),
        seq_contains(role.role_name@, "PB"@) ==> is_private && player.threshold(role.split) > (igt as nat / 60000)
            % 256,
{
    assert(igt as nat / 1000 / 60 == igt as nat / 60000);
}

} // verus!
