//! The commands of the all-advancements category.

pub mod messages;
pub mod whitelist;
