//! Pace-role logic for a Discord bot that pings speedrun pace: role names,
//! runner configuration lines, split detection, ping decisions and the
//! runner leaderboard.

pub mod cache;
pub mod command;
pub mod components;
pub mod config;
pub mod controller;
pub mod main_loop;
pub mod dispatcher;
pub mod guild_types;
pub mod name_map;
pub mod settings;
pub mod sort;
pub mod structure_roles;
pub mod text;
pub mod ws;

use vstd::prelude::*;

verus! {

} // verus!
