//! Normal forms of directory names, and lists without duplicates or
//! directories that are gone.

use vstd::prelude::*;
use vstd::string::StrSliceExecFns;
use vstd::string::StringExecFns;

use crate::error::PathError;
use crate::path::read::{combine_path_like, is_text_of, joinable, joined};
use crate::path::{clean_list_stays, clean_path, cleaned, present_at};

verus! {

/// How to clean the list.
#[derive(Debug)]
pub struct CleanOpt {
    /// Print no warnings.
    pub quiet: bool,
    /// Add the current value to the history.
    pub history: bool,
    /// Only preview the change.
    pub dry_run: bool,
}

impl CleanOpt {
    /// Validate options: any are accepted.
    pub fn validate(&self) -> (r: Result<(), PathError>)
        ensures
            r is Ok,
    {
        Ok(())
    }
}

/// The character that separates the parts of a directory name.
pub const MAIN_SEPARATOR: char = '/';

/// `name` ends in a separator.
pub open spec fn ends_with_separator(name: Seq<char>) -> bool {
    name.len() > 0 && name.last() == MAIN_SEPARATOR
}

/// The name of the root directory: one separator.
pub open spec fn root() -> Seq<char> {
    seq![MAIN_SEPARATOR]
}

/// `name` without the separators at its end, but for the one that is the
/// whole name of the root directory.
pub open spec fn trimmed(name: Seq<char>) -> Seq<char>
    decreases name.len(),
{
    if ends_with_separator(name) && name.len() > 1 {
        trimmed(name.drop_last())
    } else {
        name
    }
}

/// Whether a directory name ends in a separator.
pub fn has_trailing_slash(p: &String) -> (b: bool)
    ensures
        b == ends_with_separator(p@),
{
    let n: usize = p.as_str().unicode_len();
    n > 0 && p.as_str().get_char(n - 1) == MAIN_SEPARATOR
}

/// The name without the separators at its end. A name made of separators
/// only names the root directory and keeps one of them.
pub fn trim_trailing_separators(dir: &String) -> (r: String)
    ensures
        r@ == trimmed(dir@),
{
    let mut end: usize = dir.as_str().unicode_len();
    assert(dir@.subrange(0, end as int) =~= dir@);
    while end > 1 && dir.as_str().get_char(end - 1) == MAIN_SEPARATOR
        invariant
            end <= dir@.len(),
            trimmed(dir@) == trimmed(dir@.subrange(0, end as int)),
        decreases end,
    {
        assert(dir@.subrange(0, end as int).drop_last() =~= dir@.subrange(0, end - 1));
        end -= 1;
    }
    String::from_str(dir.as_str().substring_char(0, end))
}

/// `name` starts at the root of the file system.
pub open spec fn is_absolute(name: Seq<char>) -> bool {
    name.len() > 0 && name[0] == MAIN_SEPARATOR
}

/// `base` extended by `name`: an absolute `name` stands for itself; any other
/// follows `base`, after a separator where `base` is not empty and does not
/// end in one.
pub open spec fn pushed(base: Seq<char>, name: Seq<char>) -> Seq<char> {
    if is_absolute(name) {
        name
    } else if base.len() > 0 && !ends_with_separator(base) {
        base + seq![MAIN_SEPARATOR] + name
    } else {
        base + name
    }
}

/// The absolute form of `name`: its canonical form where the file system gave
/// one, else `name` under the current directory; either without separators
/// at its end, unless it is the root directory.
pub open spec fn absolute_form(
    name: Seq<char>,
    canonical: Option<Seq<char>>,
    current_dir: Seq<char>,
) -> Seq<char> {
    match canonical {
        Some(c) => trimmed(c),
        None => trimmed(pushed(current_dir, name)),
    }
}

/// The normal form of `dir`: the absolute form of the trimmed name.
pub open spec fn clean_name(
    dir: Seq<char>,
    canonical: Option<Seq<char>>,
    current_dir: Seq<char>,
) -> Seq<char> {
    absolute_form(trimmed(dir), canonical, current_dir)
}

/// The answer at place `i` of `answers`, `None` where none was given.
pub open spec fn answer_at(answers: Seq<Option<Seq<char>>>, i: int) -> Option<Seq<char>> {
    if 0 <= i < answers.len() {
        answers[i]
    } else {
        None
    }
}

/// The normal forms of `dirs`, each with the answer at its place.
pub open spec fn clean_names(
    dirs: Seq<Seq<char>>,
    canonical: Seq<Option<Seq<char>>>,
    current_dir: Seq<char>,
) -> Seq<Seq<char>> {
    Seq::new(dirs.len(), |i: int| clean_name(dirs[i], answer_at(canonical, i), current_dir))
}

/// Extends `base` by `name` as `pushed` says.
pub fn push_path(base: &String, name: &String) -> (r: String)
    ensures
        r@ == pushed(base@, name@),
{
    let absolute = name.as_str().unicode_len() > 0 && name.as_str().get_char(0) == MAIN_SEPARATOR;
    if absolute {
        return name.clone();
    }
    let mut r = base.clone();
    if base.as_str().unicode_len() > 0 && !has_trailing_slash(base) {
        proof {
            reveal_strlit("/");
        }
        r.append("/");
        assert(r@ =~= base@ + seq![MAIN_SEPARATOR]);
    }
    r.append(name.as_str());
    r
}

/// Makes a name absolute. `canonical` is what the file system gave as the
/// canonical form of `p`, `None` where it gave none (the directory is not
/// there); `current_dir` is the directory that relative names start from.
/// The result ends in a separator only where it names the root directory.
pub fn make_abs_path(p: &String, canonical: &Option<String>, current_dir: &String) -> (r: String)
    ensures
        r@ == absolute_form(p@, canonical.deep_view(), current_dir@),
        ends_with_separator(r@) ==> r@ == root(),
{
    let found = match canonical {
        Some(c) => c.clone(),
        None => push_path(current_dir, p),
    };
    proof {
        trimmed_drops_trailing_separators(found@);
    }
    trim_trailing_separators(&found)
}

/// Brings a directory name into normal form: absolute, and ending in a
/// separator only where it names the root directory. `canonical` is what the
/// file system gave as the canonical form of the trimmed name (see
/// `trim_trailing_separators`), `None` where it gave none; `current_dir` is
/// the directory that relative names start from.
pub fn clean_dir_name(dir: &String, canonical: &Option<String>, current_dir: &String) -> (r: String)
    ensures
        r@ == clean_name(dir@, canonical.deep_view(), current_dir@),
        ends_with_separator(r@) ==> r@ == root(),
{
    let trimmed_dir = trim_trailing_separators(dir);
    make_abs_path(&trimmed_dir, canonical, current_dir)
}

/// Brings each of `dirs` into normal form, in order. `canonical[i]` is the
/// file system's answer for `dirs[i]`; a name without an answer is taken as
/// not there.
pub fn clean_dirs_names(
    dirs: &Vec<String>,
    canonical: &Vec<Option<String>>,
    current_dir: &String,
) -> (r: Vec<String>)
    ensures
        r.deep_view() == clean_names(dirs.deep_view(), canonical.deep_view(), current_dir@),
{
    let mut r: Vec<String> = Vec::new();
    let mut i: usize = 0;
    while i < dirs.len()
        invariant
            i <= dirs.len(),
            r.len() == i,
            forall|k: int|
                0 <= k < i ==> r.deep_view()[k] == clean_name(
                    dirs.deep_view()[k],
                    answer_at(canonical.deep_view(), k),
                    current_dir@,
                ),
        decreases dirs.len() - i,
    {
        let none: Option<String> = None;
        let cleaned = if i < canonical.len() {
            clean_dir_name(&dirs[i], &canonical[i], current_dir)
        } else {
            clean_dir_name(&dirs[i], &none, current_dir)
        };
        let ghost before = r.deep_view();
        r.push(cleaned);
        assert(r.deep_view() =~= before.push(cleaned@));
        i += 1;
    }
    assert(r.deep_view() =~= clean_names(dirs.deep_view(), canonical.deep_view(), current_dir@));
    r
}

/// Cleans a list of directories and gives the text of what stays: the first
/// entry for each directory that was reported as being there (see
/// `clean_path` for `present`).
pub fn clean_given_path(dirs: &Vec<String>, present: &Vec<bool>) -> (r: Result<String, PathError>)
    ensures
        is_text_of(r, cleaned(dirs.deep_view(), present@)),
{
    let cleaned_dirs = clean_path(dirs, present);
    combine_path_like(&cleaned_dirs)
}

/// The text of a list without repeats whose directories are all there, and
/// of which none holds the list separator, is that of the list as it stands.
pub proof fn clean_list_gives_its_text(
    r: Result<String, PathError>,
    dirs: Seq<Seq<char>>,
    present: Seq<bool>,
)
    requires
        dirs.no_duplicates(),
        forall|i: int| 0 <= i < dirs.len() ==> present_at(present, i),
        joinable(dirs),
        is_text_of(r, cleaned(dirs, present)),
    ensures
        r matches Ok(text) && text@ == joined(dirs),
{
    clean_list_stays(dirs, present);
}

/// Trimming takes away separators from the end and nothing else, and leaves
/// one at the end only where it is the whole name: that of the root
/// directory. A trimmed name has none left to take.
pub proof fn trimmed_drops_trailing_separators(name: Seq<char>)
    ensures
        ends_with_separator(trimmed(name)) ==> trimmed(name) == root(),
        trimmed(name).len() <= name.len(),
        trimmed(name) == name.subrange(0, trimmed(name).len() as int),
        forall|k: int| trimmed(name).len() <= k < name.len() ==> name[k] == MAIN_SEPARATOR,
        trimmed(trimmed(name)) == trimmed(name),
        name.len() > 0 ==> trimmed(name).len() > 0,
        is_absolute(name) ==> is_absolute(trimmed(name)),
    decreases name.len(),
{
    if ends_with_separator(name) && name.len() > 1 {
        let shorter = name.drop_last();
        trimmed_drops_trailing_separators(shorter);
        assert(trimmed(name) =~= name.subrange(0, trimmed(name).len() as int));
        assert forall|k: int| trimmed(name).len() <= k < name.len() implies name[k]
            == MAIN_SEPARATOR by {
            if k < shorter.len() {
                assert(shorter[k] == name[k]);
            }
        }
    } else {
        assert(name =~= name.subrange(0, name.len() as int));
        if ends_with_separator(name) {
            assert(name =~= root());
        }
    }
}

/// One more separator at the end of a name that is not empty changes nothing
/// of what trimming gives. (The empty name with a separator is the root.)
pub proof fn trimmed_ignores_one_more_separator(name: Seq<char>)
    requires
        name.len() > 0,
    ensures
        trimmed(name.push(MAIN_SEPARATOR)) == trimmed(name),
{
    assert(name.push(MAIN_SEPARATOR).drop_last() =~= name);
}

/// A normal form ends in a separator only where it is the root directory.
pub proof fn clean_name_has_no_trailing_separator(
    dir: Seq<char>,
    canonical: Option<Seq<char>>,
    current_dir: Seq<char>,
)
    ensures
        ends_with_separator(clean_name(dir, canonical, current_dir)) ==> clean_name(
            dir,
            canonical,
            current_dir,
        ) == root(),
{
    match canonical {
        Some(c) => trimmed_drops_trailing_separators(c),
        None => trimmed_drops_trailing_separators(pushed(current_dir, trimmed(dir))),
    }
}

/// A normal form is absolute, where the current directory is and where the
/// canonical form that the file system gave, if it gave one, is.
pub proof fn clean_name_is_absolute(
    dir: Seq<char>,
    canonical: Option<Seq<char>>,
    current_dir: Seq<char>,
)
    requires
        is_absolute(current_dir),
        canonical matches Some(c) ==> is_absolute(c),
    ensures
        is_absolute(clean_name(dir, canonical, current_dir)),
{
    match canonical {
        Some(c) => trimmed_drops_trailing_separators(c),
        None => trimmed_drops_trailing_separators(pushed(current_dir, trimmed(dir))),
    }
}

/// One more separator at the end of a name that is not empty changes nothing
/// of its normal form.
pub proof fn clean_name_ignores_one_more_separator(
    dir: Seq<char>,
    canonical: Option<Seq<char>>,
    current_dir: Seq<char>,
)
    requires
        dir.len() > 0,
    ensures
        clean_name(dir.push(MAIN_SEPARATOR), canonical, current_dir) == clean_name(
            dir,
            canonical,
            current_dir,
        ),
{
    trimmed_ignores_one_more_separator(dir);
}

/// The answers of the file system to the same question asked again: the
/// canonical form of a canonical form is that form, and what is not there
/// under a name is not there under its absolute name.
pub open spec fn answers_again(first: Option<Seq<char>>, second: Option<Seq<char>>) -> bool {
    match first {
        Some(c) => second == Some(c),
        None => second is None,
    }
}

/// The normal form of a normal form is that form, where the current
/// directory is absolute and the file system answers the second time as it
/// did the first.
pub proof fn clean_name_twice_is_once(
    dir: Seq<char>,
    first: Option<Seq<char>>,
    second: Option<Seq<char>>,
    current_dir: Seq<char>,
)
    requires
        is_absolute(current_dir),
        answers_again(first, second),
    ensures
        clean_name(clean_name(dir, first, current_dir), second, current_dir) == clean_name(
            dir,
            first,
            current_dir,
        ),
{
    let once = clean_name(dir, first, current_dir);
    match first {
        Some(c) => {},
        None => {
            let found = pushed(current_dir, trimmed(dir));
            assert(is_absolute(found));
            trimmed_drops_trailing_separators(found);
            assert(is_absolute(once));
            assert(trimmed(once) == once);
            assert(pushed(current_dir, once) == once);
        },
    }
}

} // verus!
