//! Names the bot looks for in a guild.

use vstd::prelude::*;

verus! {

/// The prefix of every pace-role name.
pub const ROLE_PREFIX: &'static str = "*";
/// The prefix of pace-roles that belong to the 1.15 category.
pub const ROLE_PREFIX_115: &'static str = "*115";
/// The prefix of pace-roles that belong to the 1.7 category.
pub const ROLE_PREFIX_17: &'static str = "*17";
/// The prefix of pace-roles that belong to the all-advancements category.
pub const ROLE_PREFIX_AA: &'static str = "*AA";

/// The channel that pace pings are sent to.
pub const PACEMANBOT_CHANNEL: &'static str = "pacemanbot";
/// The channel whose first message holds the runner configuration.
pub const PACEMANBOT_RUNNER_NAMES_CHANNEL: &'static str = "pacemanbot-runner-names";
/// The channel that holds the runner leaderboard.
pub const PACEMANBOT_RUNNER_LEADERBOARD_CHANNEL: &'static str = "pacemanbot-runner-leaderboard";

pub const NETHER_EMOJI: &'static str = "\u{1F525}";
pub const FORT_EMOJI: &'static str = "\u{1F3F0}";
pub const PORTAL_EMOJI: &'static str = "\u{1F300}";
pub const SH_EMOJI: &'static str = "\u{1F441}";
pub const END_EMOJI: &'static str = "\u{1F409}";

} // verus!
