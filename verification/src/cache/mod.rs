//! Cached guild configuration: splits, runners and pace-roles.

pub mod aa_split;
pub mod consts;
pub mod guild_data;
pub mod guild_cache_entry;
pub mod player_cache_entry;
pub mod players;
pub mod role_cache_entry;
pub mod runner_splits;
pub mod split;
