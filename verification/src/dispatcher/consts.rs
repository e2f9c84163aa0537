//! Constants of run records and pace messages.

use vstd::prelude::*;

verus! {

/// The number of advancements in 1.16.
pub const TOTAL_ADVANCEMENTS_116: usize = 80;

/// Stands for `_` in runner names, which Discord would read as markup.
pub const SPECIAL_UNDERSCORE: char = '\u{2cd}';

pub const TWITCH_LINK_PREFIX: &'static str = "https://twitch.tv/";
/// The emoji of an ender pearl count.
pub const PEARL_EMOJI: &'static str = "<:enderpearl:1249639829252345916>";
/// The emoji of a blaze rod count.
pub const ROD_EMOJI: &'static str = "<:blazerod:1249633180378464381>";

/// Shown with a finish.
pub const CREDITS_EMOJI: &'static str = "\u{1F3C6}";
pub const LIVE_INDICATOR: &'static str = "\u{1F534}";
pub const OFFLINE_INDICATOR: &'static str = "\u{26AA}";

} // verus!
