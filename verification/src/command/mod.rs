//! The slash commands: what they name, what they create and what they write.

pub mod command;
pub mod roles;
pub mod send_message;
pub mod setup_pings;
pub mod utils;
pub mod whitelist;
