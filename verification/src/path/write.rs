//! What is to be done with a new value of the list.

use vstd::prelude::*;
use vstd::string::StringExecFns;

use crate::error::{Failure, PathError};
use crate::path::read::{combine_path_like, first_unjoinable_at, joinable, joined};

verus! {

/// What stands before the old value in a preview.
pub const BEFORE_NOTE: &'static str = "`$PATH` before modification:\n\t";

/// What stands before the new value in a preview.
pub const AFTER_NOTE: &'static str = "`$PATH` after modification:\n\t";

/// What the caller is to do with a new value of the list.
#[derive(Debug)]
pub struct Update {
    /// Notes for the user, to be shown apart from the value.
    pub notes: Vec<String>,
    /// The line to be appended to the history, if any.
    pub history: Option<String>,
    /// The value to be put out as the new list, if any.
    pub path: Option<String>,
}

/// An `Update`, with each text as its sequence of characters.
pub struct Plan {
    pub notes: Seq<Seq<char>>,
    pub history: Option<Seq<char>>,
    pub path: Option<Seq<char>>,
}

impl View for Update {
    type V = Plan;

    open spec fn view(&self) -> Plan {
        Plan {
            notes: self.notes.deep_view(),
            history: self.history.deep_view(),
            path: self.path.deep_view(),
        }
    }
}

/// What is to be done when `new` is to replace `current`. A dry run changes
/// nothing: it shows both values, unless it is to be quiet. Any other run
/// puts out the new value, after the current one has gone to the history
/// where that was asked for.
pub open spec fn planned(
    current: Seq<char>,
    new: Seq<char>,
    dry_run: bool,
    add_to_history: bool,
    quiet: bool,
) -> Plan {
    if dry_run {
        Plan {
            notes: if quiet {
                Seq::empty()
            } else {
                seq![BEFORE_NOTE@ + current, AFTER_NOTE@ + new]
            },
            history: None,
            path: None,
        }
    } else {
        Plan {
            notes: Seq::empty(),
            history: if add_to_history {
                Some(current)
            } else {
                None
            },
            path: Some(new),
        }
    }
}

/// Plans the replacement of the value `current_raw` by the list `newpath`:
/// the plan is that of `planned` for the text of the list as it was handed
/// in, entry for entry. Fails with `UnjoinableEntry` where an entry holds the
/// list separator.
pub fn replace_path(
    current_raw: &String,
    newpath: &Vec<String>,
    dry_run: bool,
    add_to_history: bool,
    quiet: bool,
) -> (r: Result<Update, PathError>)
    ensures
        match r {
            Ok(update) => {
                &&& joinable(newpath.deep_view())
                &&& update@ == planned(
                    current_raw@,
                    joined(newpath.deep_view()),
                    dry_run,
                    add_to_history,
                    quiet,
                )
            },
            Err(e) => exists|j: int|
                first_unjoinable_at(newpath.deep_view(), j) && e@ == Failure::UnjoinableEntry(
                    newpath.deep_view()[j],
                ),
        },
{
    let new_text = match combine_path_like(newpath) {
        Ok(text) => text,
        Err(e) => {
            return Err(e);
        },
    };
    let mut notes: Vec<String> = Vec::new();
    assert(notes.deep_view() =~= Seq::<Seq<char>>::empty());
    if dry_run {
        if !quiet {
            let mut before = String::from_str(BEFORE_NOTE);
            before.append(current_raw.as_str());
            let mut after = String::from_str(AFTER_NOTE);
            after.append(new_text.as_str());
            notes.push(before);
            notes.push(after);
            assert(notes.deep_view() =~= seq![
                BEFORE_NOTE@ + current_raw@,
                AFTER_NOTE@ + new_text@,
            ]);
        }
        return Ok(Update { notes, history: None, path: None });
    }
    let history = if add_to_history {
        Some(current_raw.clone())
    } else {
        None
    };
    Ok(Update { notes, history, path: Some(new_text) })
}

} // verus!
