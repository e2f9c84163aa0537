//! Deciding what to send for a run record.

pub mod consts;
pub mod dispatcher;
pub mod event_type;
pub mod get_run_info;
pub mod leaderboard;
pub mod message;
pub mod pace_event;
pub mod run_info;
pub mod utils;
