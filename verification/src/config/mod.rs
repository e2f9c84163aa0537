//! Reading the configuration that a guild keeps in role names and messages.

pub mod config;
pub mod parsers;
