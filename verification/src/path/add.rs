//! Adding directories to the list.

use vstd::prelude::*;

use crate::error::{Failure, PathError};
use crate::path::clean::{clean_dirs_names, clean_names};
use crate::path::{
    add_to_path as add_entries, first_conflict_at, no_conflict, position, present_at,
    with_entries_added,
};

verus! {

/// What to add, and where.
#[derive(Debug)]
pub struct AddOpt {
    /// Directories to add.
    pub dirs: Vec<String>,
    /// Add them without asking whether they exist.
    pub force: bool,
    /// Put them before the entries of the list, not after them.
    pub prepend: bool,
    /// Print no warnings.
    pub quiet: bool,
    /// Add the current value to the history.
    pub history: bool,
    /// Only preview the change.
    pub dry_run: bool,
}

/// Place `j` is the first of the first `n` places that was not reported as
/// being there.
pub open spec fn first_missing_at(present: Seq<bool>, n: int, j: int) -> bool {
    &&& 0 <= j < n
    &&& !present_at(present, j)
    &&& forall|k: int| 0 <= k < j ==> present_at(present, k)
}

/// Each of the first `n` places was reported as being there.
pub open spec fn all_present(present: Seq<bool>, n: int) -> bool {
    forall|k: int| 0 <= k < n ==> present_at(present, k)
}

impl AddOpt {
    /// Validate options. None of the directories may be an entry of the list
    /// already, and without `force` every one of them has to exist: the first
    /// that does not exist is refused with `MissingDirectory`, else the first
    /// whose normal form is an entry with `AlreadyExists`.
    ///
    /// `present[i]` says whether the file system has `dirs[i]` as it was
    /// named; `canonical` and `current_dir` are those of `clean_dirs_names`.
    pub fn validate(
        &self,
        present: &Vec<bool>,
        canonical: &Vec<Option<String>>,
        current_dir: &String,
        current_path: &Vec<String>,
    ) -> (r: Result<(), PathError>)
        ensures
            match r {
                Ok(_) => {
                    &&& self.force || all_present(present@, self.dirs.len() as int)
                    &&& no_conflict(
                        current_path.deep_view(),
                        clean_names(self.dirs.deep_view(), canonical.deep_view(), current_dir@),
                    )
                },
                Err(e) => {
                    ||| !self.force && exists|j: int|
                        first_missing_at(present@, self.dirs.len() as int, j) && e@
                            == Failure::MissingDirectory(self.dirs.deep_view()[j])
                    ||| (self.force || all_present(present@, self.dirs.len() as int))
                        && exists|j: int|
                        first_conflict_at(
                            current_path.deep_view(),
                            clean_names(self.dirs.deep_view(), canonical.deep_view(), current_dir@),
                            j,
                        ) && e@ == Failure::AlreadyExists(
                            clean_names(
                                self.dirs.deep_view(),
                                canonical.deep_view(),
                                current_dir@,
                            )[j],
                        )
                },
            },
    {
        if !self.force {
            let mut i: usize = 0;
            while i < self.dirs.len()
                invariant
                    !self.force,
                    i <= self.dirs.len(),
                    forall|k: int| 0 <= k < i ==> present_at(present@, k),
                decreases self.dirs.len() - i,
            {
                if !(i < present.len() && present[i]) {
                    assert(first_missing_at(present@, self.dirs.len() as int, i as int));
                    return Err(PathError::MissingDirectory(self.dirs[i].clone()));
                }
                i += 1;
            }
        }
        let cleaned_dirs = clean_dirs_names(&self.dirs, canonical, current_dir);
        let mut j: usize = 0;
        while j < cleaned_dirs.len()
            invariant
                self.force || all_present(present@, self.dirs.len() as int),
                cleaned_dirs.deep_view() == clean_names(
                    self.dirs.deep_view(),
                    canonical.deep_view(),
                    current_dir@,
                ),
                j <= cleaned_dirs.len(),
                forall|k: int|
                    0 <= k < j ==> !current_path.deep_view().contains(
                        #[trigger] cleaned_dirs.deep_view()[k],
                    ),
            decreases cleaned_dirs.len() - j,
        {
            if position(current_path, &cleaned_dirs[j]).is_some() {
                assert(first_conflict_at(
                    current_path.deep_view(),
                    cleaned_dirs.deep_view(),
                    j as int,
                ));
                return Err(PathError::AlreadyExists(cleaned_dirs[j].clone()));
            }
            j += 1;
        }
        Ok(())
    }
}

/// `r` is `list` with `dirs` added, or the refusal of the first of `dirs`
/// that is an entry already.
pub open spec fn is_list_with(
    r: Result<Vec<String>, PathError>,
    list: Seq<Seq<char>>,
    dirs: Seq<Seq<char>>,
    prepend: bool,
) -> bool {
    match r {
        Ok(added) => no_conflict(list, dirs) && added.deep_view() == with_entries_added(
            list,
            dirs,
            prepend,
        ),
        Err(e) => exists|j: int|
            first_conflict_at(list, dirs, j) && e@ == Failure::AlreadyExists(dirs[j]),
    }
}

/// Adds the directories of `opts`, each in its normal form, before or after
/// the entries of the list as `opts` asks (see `clean_dirs_names` for
/// `canonical` and `current_dir`). Nothing is added unless all can be: a
/// directory whose normal form is an entry already is refused with
/// `AlreadyExists`, with `force` as without it.
pub fn add_to_path(
    opts: &AddOpt,
    canonical: &Vec<Option<String>>,
    current_dir: &String,
    current_path: &Vec<String>,
) -> (r: Result<Vec<String>, PathError>)
    ensures
        is_list_with(
            r,
            current_path.deep_view(),
            clean_names(opts.dirs.deep_view(), canonical.deep_view(), current_dir@),
            opts.prepend,
        ),
{
    let cleaned_dirs = clean_dirs_names(&opts.dirs, canonical, current_dir);
    add_entries(current_path, &cleaned_dirs, opts.prepend)
}

} // verus!
