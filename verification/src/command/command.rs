//! The options that a slash command receives.

use vstd::prelude::*;

verus! {

/// The value of a slash-command option as the bot reads it: text, a
/// non-negative integer, some other value, or no value at all.
pub enum OptionValue {
    Missing,
    Text(String),
    Unsigned(u64),
    Other,
}

/// A slash-command option: its name and value.
pub struct CommandOption {
    pub name: String,
    pub value: OptionValue,
}

/// An option value as the contracts see it.
pub ghost enum OptionValueView {
    Missing,
    Text(Seq<char>),
    Unsigned(u64),
    Other,
}

pub open spec fn option_value_view(v: OptionValue) -> OptionValueView {
    match v {
        OptionValue::Missing => OptionValueView::Missing,
        OptionValue::Text(s) => OptionValueView::Text(s@),
        OptionValue::Unsigned(n) => OptionValueView::Unsigned(n),
        OptionValue::Other => OptionValueView::Other,
    }
}

/// The options as (name, value) pairs.
pub open spec fn options_view(o: Seq<CommandOption>) -> Seq<(Seq<char>, OptionValueView)> {
    o.map_values(|x: CommandOption| (x.name@, option_value_view(x.value)))
}

} // verus!
