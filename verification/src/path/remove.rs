//! Removing a directory from the list.

use vstd::prelude::*;

use crate::error::{Failure, PathError};
use crate::path::clean::{clean_dir_name, clean_name};
use crate::path::{position, rm_from_path as remove_entry, with_entry_removed};

verus! {

/// What to remove.
#[derive(Debug)]
pub struct RmOpt {
    /// Directory to remove.
    pub dir: String,
    /// Print no warnings.
    pub quiet: bool,
    /// Add the current value to the history.
    pub history: bool,
    /// Only preview the change.
    pub dry_run: bool,
}

impl RmOpt {
    /// Validate options: the directory has to exist, and its normal form has
    /// to be an entry of the list. `present` says whether the file system has
    /// the directory as it was named (see `clean_dir_name` for `canonical` and
    /// `current_dir`).
    pub fn validate(
        &self,
        present: bool,
        canonical: &Option<String>,
        current_dir: &String,
        current_path: &Vec<String>,
    ) -> (r: Result<(), PathError>)
        ensures
            match r {
                Ok(_) => present && current_path.deep_view().contains(
                    clean_name(self.dir@, canonical.deep_view(), current_dir@),
                ),
                Err(e) => if !present {
                    e@ == Failure::MissingDirectory(self.dir@)
                } else {
                    &&& !current_path.deep_view().contains(
                        clean_name(self.dir@, canonical.deep_view(), current_dir@),
                    )
                    &&& e@ == Failure::NotFound(
                        clean_name(self.dir@, canonical.deep_view(), current_dir@),
                    )
                },
            },
    {
        if !present {
            return Err(PathError::MissingDirectory(self.dir.clone()));
        }
        let dir = clean_dir_name(&self.dir, canonical, current_dir);
        proof {
            current_path.deep_view().index_of_first_ensures(dir@);
        }
        match position(current_path, &dir) {
            Some(_) => Ok(()),
            None => Err(PathError::NotFound(dir)),
        }
    }
}

/// `r` is the list without its first entry `dir`, or the failure to find
/// `dir`.
pub open spec fn is_list_without(
    r: Result<Vec<String>, PathError>,
    list: Seq<Seq<char>>,
    dir: Seq<char>,
) -> bool {
    match r {
        Ok(rest) => with_entry_removed(list, dir) == Some(rest.deep_view()),
        Err(e) => with_entry_removed(list, dir) is None && e@ == Failure::NotFound(dir),
    }
}

/// Removes the directory of `opts`, looked up in its normal form (see
/// `clean_dir_name` for `canonical` and `current_dir`).
pub fn rm_from_path(
    opts: &RmOpt,
    canonical: &Option<String>,
    current_dir: &String,
    current_path: &Vec<String>,
) -> (r: Result<Vec<String>, PathError>)
    ensures
        is_list_without(
            r,
            current_path.deep_view(),
            clean_name(opts.dir@, canonical.deep_view(), current_dir@),
        ),
{
    let dir = clean_dir_name(&opts.dir, canonical, current_dir);
    remove_entry(current_path, &dir)
}

} // verus!
