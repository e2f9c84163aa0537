//! A whitelisted runner's pace thresholds in the tower-start category.

use vstd::prelude::*;

verus! {

/// A runner's thresholds, in minutes, for tower start, end enter and
/// (optionally) finish.
#[derive(PartialEq, Eq, Structural, Debug, Clone, Copy)]
pub struct RunnerSplits {
    pub tower_start: u8,
    pub end_enter: u8,
    pub finish: Option<u8>,
}

impl Default for RunnerSplits {
    fn default() -> (r: Self)
        ensures
            r == (RunnerSplits { tower_start: 0, end_enter: 0, finish: None }),
    {
        RunnerSplits { tower_start: 0, end_enter: 0, finish: None }
    }
}

} // verus!
