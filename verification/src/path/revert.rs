//! Going back to an earlier value of the list.

use vstd::prelude::*;

use crate::error::{fails_with, Failure, PathError};
use crate::path::history::{get_nth_last_revision, is_outcome, lines_newest_first, nth_line};

verus! {

/// Which earlier value to go back to.
#[derive(Debug)]
pub struct RevertOpt {
    /// Revision to revert to, counted back from one, the most recent.
    pub revision: u128,
    /// Print no warnings.
    pub quiet: bool,
    /// Add the current value to the history.
    pub history: bool,
    /// Only preview the change.
    pub dry_run: bool,
}

impl RevertOpt {
    /// Validate options: any are accepted.
    pub fn validate(&self) -> (r: Result<(), PathError>)
        ensures
            r is Ok,
    {
        Ok(())
    }
}

/// Looks up the value to revert to: the revision of `opts` in the history
/// file, whose bytes are `history`; `None` where there is no such file.
pub fn revert_path(opts: &RevertOpt, history: &Option<Vec<u8>>) -> (r: Result<String, PathError>)
    ensures
        match history {
            Some(content) => is_outcome(
                r,
                nth_line(lines_newest_first(content@), opts.revision as nat),
            ),
            None => fails_with(r, Failure::NoHistory),
        },
{
    get_nth_last_revision(history, opts.revision)
}

} // verus!
