//! The operations on a path list: an ordered sequence of directory names in
//! which earlier entries are searched first.
//!
//! A list is a `Vec<String>`; contracts speak of its `deep_view()`, the
//! sequence of the entries' character sequences. Two entries are the same
//! directory exactly when their characters agree.

use itertools::Itertools;
use vstd::prelude::*;

use crate::error::{Failure, PathError};

pub mod add;
pub mod clean;
pub mod history;
pub mod priority;
pub mod read;
pub mod remove;
pub mod revert;
pub mod write;

verus! {

/// Where an entry at `index` lands after moving `jump` places in a list of
/// `len` entries: `index + jump`, held within `0..=len - 1`.
pub open spec fn landing_index(index: int, jump: int, len: int) -> int {
    if index + jump < 0 {
        0
    } else if index + jump > len - 1 {
        len - 1
    } else {
        index + jump
    }
}

/// `list` with the entry at `from` taken out and put back at `to`.
pub open spec fn relocated(list: Seq<Seq<char>>, from: int, to: int) -> Seq<Seq<char>> {
    list.remove(from).insert(to, list[from])
}

/// `list` after its first entry equal to `dir` has moved `jump` places
/// (negative: towards the front), or `None` if `dir` is not an entry.
pub open spec fn with_priority_changed(list: Seq<Seq<char>>, dir: Seq<char>, jump: int) -> Option<
    Seq<Seq<char>>,
> {
    match list.index_of_first(dir) {
        Some(i) => Some(relocated(list, i, landing_index(i, jump, list.len() as int))),
        None => None,
    }
}

/// `list` without its first entry equal to `dir`, or `None` if `dir` is not an
/// entry.
pub open spec fn with_entry_removed(list: Seq<Seq<char>>, dir: Seq<char>) -> Option<
    Seq<Seq<char>>,
> {
    match list.index_of_first(dir) {
        Some(i) => Some(list.remove(i)),
        None => None,
    }
}

/// `dirs[j]` is the first of `dirs` that is already an entry of `list`.
pub open spec fn first_conflict_at(list: Seq<Seq<char>>, dirs: Seq<Seq<char>>, j: int) -> bool {
    &&& 0 <= j < dirs.len()
    &&& list.contains(dirs[j])
    &&& forall|k: int| 0 <= k < j ==> !list.contains(#[trigger] dirs[k])
}

/// None of `dirs` is an entry of `list`.
pub open spec fn no_conflict(list: Seq<Seq<char>>, dirs: Seq<Seq<char>>) -> bool {
    forall|k: int| 0 <= k < dirs.len() ==> !list.contains(#[trigger] dirs[k])
}

/// `list` with `dirs` put before it (`prepend`) or after it, in the order given.
pub open spec fn with_entries_added(list: Seq<Seq<char>>, dirs: Seq<Seq<char>>, prepend: bool) -> Seq<
    Seq<char>,
> {
    if prepend {
        dirs + list
    } else {
        list + dirs
    }
}

/// The directory at place `i` was reported as being there. A place without a
/// report counts as not there.
pub open spec fn present_at(present: Seq<bool>, i: int) -> bool {
    0 <= i < present.len() && present[i]
}

/// The entries of `list` that were reported as being there, in order.
pub open spec fn existing(list: Seq<Seq<char>>, present: Seq<bool>) -> Seq<Seq<char>>
    decreases list.len(),
{
    if list.len() == 0 {
        Seq::empty()
    } else if present_at(present, list.len() - 1) {
        existing(list.drop_last(), present).push(list.last())
    } else {
        existing(list.drop_last(), present)
    }
}

/// `list` without the entries that repeat an earlier one.
pub open spec fn first_occurrences(list: Seq<Seq<char>>) -> Seq<Seq<char>>
    decreases list.len(),
{
    if list.len() == 0 {
        Seq::empty()
    } else if list.drop_last().contains(list.last()) {
        first_occurrences(list.drop_last())
    } else {
        first_occurrences(list.drop_last()).push(list.last())
    }
}

/// `list` without the directories that are gone and without repeats.
pub open spec fn cleaned(list: Seq<Seq<char>>, present: Seq<bool>) -> Seq<Seq<char>> {
    first_occurrences(existing(list, present))
}

/// Index of the first entry of `list` equal to `dir`, if there is one.
pub fn position(list: &Vec<String>, dir: &String) -> (found: Option<usize>)
    ensures
        match found {
            Some(i) => {
                &&& i < list.len()
                &&& list.deep_view()[i as int] == dir@
                &&& forall|j: int| 0 <= j < i ==> list.deep_view()[j] != dir@
                &&& list.deep_view().index_of_first(dir@) == Some(i as int)
            },
            None => {
                &&& !list.deep_view().contains(dir@)
                &&& list.deep_view().index_of_first(dir@) is None
            },
        },
{
    let mut i: usize = 0;
    while i < list.len()
        invariant
            i <= list.len(),
            forall|j: int| 0 <= j < i ==> list.deep_view()[j] != dir@,
        decreases list.len() - i,
    {
        if list[i] == *dir {
            proof {
                assert(list.deep_view()[i as int] == dir@);
                list.deep_view().index_of_first_ensures(dir@);
            }
            return Some(i);
        }
        i += 1;
    }
    proof {
        list.deep_view().index_of_first_ensures(dir@);
    }
    None
}

/// Appends copies of the entries `list[from..to]` to `out`.
fn push_range(out: &mut Vec<String>, list: &Vec<String>, from: usize, to: usize)
    requires
        from <= to <= list.len(),
    ensures
        final(out).deep_view() == old(out).deep_view() + list.deep_view().subrange(
            from as int,
            to as int,
        ),
{
    let mut k: usize = from;
    while k < to
        invariant
            from <= k <= to <= list.len(),
            out.deep_view() == old(out).deep_view() + list.deep_view().subrange(
                from as int,
                k as int,
            ),
        decreases to - k,
    {
        let ghost before = out.deep_view();
        out.push(list[k].clone());
        assert(out.deep_view() =~= before.push(list.deep_view()[k as int]));
        k += 1;
    }
}

/// The entries of `first` followed by those of `second`.
fn concat(first: &Vec<String>, second: &Vec<String>) -> (r: Vec<String>)
    ensures
        r.deep_view() == first.deep_view() + second.deep_view(),
{
    let mut r: Vec<String> = Vec::new();
    assert(r.deep_view() =~= Seq::<Seq<char>>::empty());
    push_range(&mut r, first, 0, first.len());
    push_range(&mut r, second, 0, second.len());
    assert(r.deep_view() =~= first.deep_view() + second.deep_view());
    r
}

/// Moves the first entry equal to `dir` by `jump` places: towards the front
/// where `jump` is negative, towards the end where it is positive. A jump that
/// would leave the list stops at its first or last place. All other entries
/// keep their order. Fails with `NotFound` where `dir` is not an entry.
pub fn change_priority(current_path: &Vec<String>, dir: &String, jump: i128) -> (r: Result<
    Vec<String>,
    PathError,
>)
    ensures
        match r {
            Ok(v) => with_priority_changed(current_path.deep_view(), dir@, jump as int) == Some(
                v.deep_view(),
            ),
            Err(e) => {
                &&& with_priority_changed(current_path.deep_view(), dir@, jump as int) is None
                &&& e@ == Failure::NotFound(dir@)
            },
        },
{
    let n: usize = current_path.len();
    let i: usize = match position(current_path, dir) {
        Some(i) => i,
        None => {
            return Err(PathError::NotFound(dir.clone()));
        },
    };
    let ghost list = current_path.deep_view();
    let mut vpath: Vec<String> = Vec::new();
    assert(vpath.deep_view() =~= Seq::<Seq<char>>::empty());
    if jump < 0 {
        // moving to a higher priority
        let new_idx: usize = if jump <= -(i as i128) {
            0
        } else {
            (i as i128 + jump) as usize
        };
        assert(new_idx == landing_index(i as int, jump as int, n as int));
        push_range(&mut vpath, current_path, 0, new_idx);
        let ghost before = vpath.deep_view();
        vpath.push(current_path[i].clone());
        assert(vpath.deep_view() =~= before.push(list[i as int]));
        push_range(&mut vpath, current_path, new_idx, i);
        push_range(&mut vpath, current_path, i + 1, n);
        assert(vpath.deep_view() =~= relocated(list, i as int, new_idx as int));
    } else if jump == 0 {
        push_range(&mut vpath, current_path, 0, n);
        assert(vpath.deep_view() =~= relocated(list, i as int, i as int));
    } else {
        // moving to a lower priority
        let new_idx: usize = if jump >= (n - 1 - i) as i128 {
            n - 1
        } else {
            i + jump as usize
        };
        assert(new_idx == landing_index(i as int, jump as int, n as int));
        push_range(&mut vpath, current_path, 0, i);
        push_range(&mut vpath, current_path, i + 1, new_idx + 1);
        let ghost before = vpath.deep_view();
        vpath.push(current_path[i].clone());
        assert(vpath.deep_view() =~= before.push(list[i as int]));
        push_range(&mut vpath, current_path, new_idx + 1, n);
        assert(vpath.deep_view() =~= relocated(list, i as int, new_idx as int));
    }
    Ok(vpath)
}

/// Removes the first entry equal to `dir`; all other entries keep their
/// order. Fails with `NotFound` where `dir` is not an entry.
pub fn rm_from_path(current_path: &Vec<String>, dir: &String) -> (r: Result<Vec<String>, PathError>)
    ensures
        match r {
            Ok(v) => with_entry_removed(current_path.deep_view(), dir@) == Some(v.deep_view()),
            Err(e) => {
                &&& with_entry_removed(current_path.deep_view(), dir@) is None
                &&& e@ == Failure::NotFound(dir@)
            },
        },
{
    match position(current_path, dir) {
        Some(i) => {
            let mut vpath: Vec<String> = Vec::new();
            assert(vpath.deep_view() =~= Seq::<Seq<char>>::empty());
            push_range(&mut vpath, current_path, 0, i);
            push_range(&mut vpath, current_path, i + 1, current_path.len());
            assert(vpath.deep_view() =~= current_path.deep_view().remove(i as int));
            Ok(vpath)
        },
        None => Err(PathError::NotFound(dir.clone())),
    }
}

/// Adds `dirs` to the list, before all its entries where `prepend` is set and
/// after them otherwise, in the order given. Nothing is added unless all can
/// be: where one of `dirs` is already an entry, fails with `AlreadyExists`
/// naming the first such.
pub fn add_to_path(current_path: &Vec<String>, dirs: &Vec<String>, prepend: bool) -> (r: Result<
    Vec<String>,
    PathError,
>)
    ensures
        match r {
            Ok(v) => {
                &&& no_conflict(current_path.deep_view(), dirs.deep_view())
                &&& v.deep_view() == with_entries_added(
                    current_path.deep_view(),
                    dirs.deep_view(),
                    prepend,
                )
            },
            Err(e) => exists|j: int|
                first_conflict_at(current_path.deep_view(), dirs.deep_view(), j) && e@
                    == Failure::AlreadyExists(dirs.deep_view()[j]),
        },
{
    let mut j: usize = 0;
    while j < dirs.len()
        invariant
            j <= dirs.len(),
            forall|k: int|
                0 <= k < j ==> !current_path.deep_view().contains(#[trigger] dirs.deep_view()[k]),
        decreases dirs.len() - j,
    {
        let found = position(current_path, &dirs[j]);
        proof {
            current_path.deep_view().index_of_first_ensures(dirs.deep_view()[j as int]);
        }
        if found.is_some() {
            assert(first_conflict_at(current_path.deep_view(), dirs.deep_view(), j as int));
            return Err(PathError::AlreadyExists(dirs[j].clone()));
        }
        j += 1;
    }
    if prepend {
        Ok(concat(dirs, current_path))
    } else {
        Ok(concat(current_path, dirs))
    }
}

/// Copies of the entries that were reported as being there.
fn retain_present(list: &Vec<String>, present: &Vec<bool>) -> (r: Vec<String>)
    ensures
        r.deep_view() == existing(list.deep_view(), present@),
{
    let mut r: Vec<String> = Vec::new();
    let mut i: usize = 0;
    assert(list.deep_view().subrange(0, 0) =~= Seq::<Seq<char>>::empty());
    assert(r.deep_view() =~= Seq::<Seq<char>>::empty());
    while i < list.len()
        invariant
            i <= list.len(),
            r.deep_view() == existing(list.deep_view().subrange(0, i as int), present@),
        decreases list.len() - i,
    {
        let ghost head = list.deep_view().subrange(0, i + 1);
        assert(head.drop_last() =~= list.deep_view().subrange(0, i as int));
        assert(head.last() == list.deep_view()[i as int]);
        if i < present.len() && present[i] {
            let ghost before = r.deep_view();
            r.push(list[i].clone());
            assert(r.deep_view() =~= before.push(list.deep_view()[i as int]));
        }
        i += 1;
    }
    assert(list.deep_view().subrange(0, i as int) =~= list.deep_view());
    r
}

/// Calls `Itertools::unique` of the itertools crate on the entries and
/// collects what it yields. Assumed of it, as its documentation states: it
/// yields each entry that has not been yielded before, in the order in which
/// the entries come, so that of equal entries the first stays.
#[verifier::external_body]
fn unique(dirs: Vec<String>) -> (r: Vec<String>)
    ensures
        r.deep_view() == first_occurrences(dirs.deep_view()),
{
    dirs.into_iter().unique().collect()
}

/// Drops the directories that are gone and every entry that repeats an
/// earlier one; what stays keeps its order. `present[i]` says whether the
/// directory `current_path[i]` was found in the file system; an entry without
/// such a report is dropped.
pub fn clean_path(current_path: &Vec<String>, present: &Vec<bool>) -> (r: Vec<String>)
    ensures
        r.deep_view() == cleaned(current_path.deep_view(), present@),
{
    unique(retain_present(current_path, present))
}

/// `dir` is found, and so moved or removed, exactly when it is an entry.
pub proof fn found_iff_entry(list: Seq<Seq<char>>, dir: Seq<char>, jump: int)
    ensures
        with_priority_changed(list, dir, jump) is Some <==> list.contains(dir),
        with_entry_removed(list, dir) is Some <==> list.contains(dir),
{
    list.index_of_first_ensures(dir);
}

/// A jump of zero leaves the list as it is.
pub proof fn zero_jump_changes_nothing(list: Seq<Seq<char>>, dir: Seq<char>)
    requires
        list.contains(dir),
    ensures
        with_priority_changed(list, dir, 0) == Some(list),
{
    list.index_of_first_ensures(dir);
    let i = list.index_of_first(dir).unwrap();
    assert(relocated(list, i, i) =~= list);
}

/// A jump at least as long as the list carries the entry to the first place
/// where it points to the front, and to the last place where it points to the
/// end; the other entries stay as they were.
pub proof fn long_jump_reaches_an_end(list: Seq<Seq<char>>, dir: Seq<char>, jump: int)
    requires
        list.contains(dir),
        jump <= -list.len() || jump >= list.len(),
    ensures
        with_priority_changed(list, dir, jump) matches Some(moved) && {
            let from = list.index_of_first(dir).unwrap();
            let to = if jump < 0 {
                0
            } else {
                list.len() - 1
            };
            &&& moved.len() == list.len()
            &&& moved[to] == dir
            &&& moved.remove(to) == list.remove(from)
        },
{
    list.index_of_first_ensures(dir);
    let from = list.index_of_first(dir).unwrap();
    let to = landing_index(from, jump, list.len() as int);
    others_keep_their_order(list, from, to);
}

/// Moving an entry puts it at the place asked for and changes nothing else:
/// with the moved entry left out, the list reads as it did before.
pub proof fn others_keep_their_order(list: Seq<Seq<char>>, from: int, to: int)
    requires
        0 <= from < list.len(),
        0 <= to < list.len(),
    ensures
        relocated(list, from, to).len() == list.len(),
        relocated(list, from, to)[to] == list[from],
        relocated(list, from, to).remove(to) == list.remove(from),
        relocated(list, from, to).to_multiset() == list.to_multiset(),
{
    let taken = list.remove(from);
    let moved = relocated(list, from, to);
    assert(moved.remove(to) =~= taken);
    broadcast use vstd::seq_lib::to_multiset_remove, vstd::seq_lib::to_multiset_insert;
    assert(taken.to_multiset() =~= list.to_multiset().remove(list[from]));
    assert(moved.to_multiset() =~= taken.to_multiset().insert(list[from]));
    assert(list.to_multiset().count(list[from]) > 0) by {
        broadcast use vstd::seq_lib::to_multiset_contains;
        assert(list.contains(list[from]));
    }
    assert(moved.to_multiset() =~= list.to_multiset());
}

/// Moved towards the front, the entry stands before those it passed: the
/// list reads `[0, to)`, the entry, `[to, from)`, `(from, len)`.
pub proof fn relocated_towards_front(list: Seq<Seq<char>>, from: int, to: int)
    requires
        0 <= to <= from < list.len(),
    ensures
        relocated(list, from, to) == list.subrange(0, to) + seq![list[from]] + list.subrange(
            to,
            from,
        ) + list.subrange(from + 1, list.len() as int),
{
    assert(relocated(list, from, to) =~= list.subrange(0, to) + seq![list[from]] + list.subrange(
        to,
        from,
    ) + list.subrange(from + 1, list.len() as int));
}

/// Moved towards the end, the entry stands after those it passed: the list
/// reads `[0, from)`, `(from, to]`, the entry, `(to, len)`.
pub proof fn relocated_towards_end(list: Seq<Seq<char>>, from: int, to: int)
    requires
        0 <= from <= to < list.len(),
    ensures
        relocated(list, from, to) == list.subrange(0, from) + list.subrange(from + 1, to + 1)
            + seq![list[from]] + list.subrange(to + 1, list.len() as int),
{
    assert(relocated(list, from, to) =~= list.subrange(0, from) + list.subrange(from + 1, to + 1)
        + seq![list[from]] + list.subrange(to + 1, list.len() as int));
}

/// Adding one new entry, at either end, and removing it again gives the list
/// back.
pub proof fn add_then_remove_restores(list: Seq<Seq<char>>, dir: Seq<char>, prepend: bool)
    requires
        !list.contains(dir),
    ensures
        no_conflict(list, seq![dir]),
        with_entry_removed(with_entries_added(list, seq![dir], prepend), dir) == Some(list),
{
    let added = with_entries_added(list, seq![dir], prepend);
    added.index_of_first_ensures(dir);
    let at = if prepend {
        0
    } else {
        list.len() as int
    };
    assert(added[at] == dir);
    assert(forall|j: int| 0 <= j < list.len() ==> list[j] != dir);
    assert(added.index_of_first(dir) == Some(at));
    assert(added.remove(at) =~= list);
}

/// The reports `present` on the entries of `list` are those of a file system
/// in which exactly the directories in `there` exist.
pub open spec fn reports_agree(list: Seq<Seq<char>>, present: Seq<bool>, there: Set<Seq<char>>) -> bool {
    &&& present.len() == list.len()
    &&& forall|i: int| 0 <= i < list.len() ==> present[i] == there.contains(#[trigger] list[i])
}

/// Dropping repeats keeps exactly the directories of the list, each once.
pub proof fn first_occurrences_are_the_entries_once(list: Seq<Seq<char>>)
    ensures
        first_occurrences(list).no_duplicates(),
        forall|dir: Seq<char>| first_occurrences(list).contains(dir) <==> list.contains(dir),
    decreases list.len(),
{
    if list.len() > 0 {
        let head = list.drop_last();
        first_occurrences_are_the_entries_once(head);
        let kept = first_occurrences(head);
        assert forall|dir: Seq<char>| first_occurrences(list).contains(dir) <==> list.contains(
            dir,
        ) by {
            if list.contains(dir) {
                let i = choose|i: int| 0 <= i < list.len() && list[i] == dir;
                if i < head.len() {
                    assert(head[i] == dir);
                    assert(head.contains(dir));
                    assert(kept.contains(dir));
                    let k = choose|k: int| 0 <= k < kept.len() && kept[k] == dir;
                    assert(first_occurrences(list)[k] == dir);
                } else if head.contains(dir) {
                    assert(kept.contains(dir));
                } else {
                    assert(first_occurrences(list).last() == dir);
                }
            }
            if first_occurrences(list).contains(dir) {
                let k = choose|k: int|
                    0 <= k < first_occurrences(list).len() && first_occurrences(list)[k] == dir;
                if k < kept.len() {
                    assert(kept[k] == dir);
                    assert(head.contains(dir));
                    let i = choose|i: int| 0 <= i < head.len() && head[i] == dir;
                    assert(list[i] == dir);
                } else {
                    assert(list[list.len() - 1] == dir);
                }
            }
        }
    }
}

/// A list without repeats has nothing to drop.
pub proof fn first_occurrences_of_distinct(list: Seq<Seq<char>>)
    requires
        list.no_duplicates(),
    ensures
        first_occurrences(list) == list,
    decreases list.len(),
{
    if list.len() > 0 {
        let head = list.drop_last();
        first_occurrences_of_distinct(head);
        assert(!head.contains(list.last()));
        assert(head.push(list.last()) =~= list);
    }
}

/// What stays after dropping the directories that are gone was reported as
/// being there, and where all were, all stay.
pub proof fn existing_were_reported(list: Seq<Seq<char>>, present: Seq<bool>)
    ensures
        forall|dir: Seq<char>| #[trigger]
            existing(list, present).contains(dir) ==> exists|i: int|
                0 <= i < list.len() && present_at(present, i) && list[i] == dir,
        (forall|i: int| 0 <= i < list.len() ==> present_at(present, i)) ==> existing(list, present)
            == list,
    decreases list.len(),
{
    if list.len() > 0 {
        let head = list.drop_last();
        existing_were_reported(head, present);
        let kept = existing(head, present);
        assert forall|dir: Seq<char>| #[trigger]
            existing(list, present).contains(dir) implies exists|i: int|
            0 <= i < list.len() && present_at(present, i) && list[i] == dir by {
            let k = choose|k: int|
                0 <= k < existing(list, present).len() && existing(list, present)[k] == dir;
            if k < kept.len() {
                assert(kept[k] == dir);
                assert(kept.contains(dir));
                let i = choose|i: int| 0 <= i < head.len() && present_at(present, i) && head[i] == dir;
                assert(list[i] == dir);
            } else {
                assert(list[list.len() - 1] == dir);
            }
        }
        if forall|i: int| 0 <= i < list.len() ==> present_at(present, i) {
            assert(forall|i: int| 0 <= i < head.len() ==> present_at(present, i));
            assert(head.push(list.last()) =~= list);
        }
    }
}

/// A cleaned list holds no directory twice.
pub proof fn cleaned_has_no_repeats(list: Seq<Seq<char>>, present: Seq<bool>)
    ensures
        cleaned(list, present).no_duplicates(),
{
    first_occurrences_are_the_entries_once(existing(list, present));
}

/// A list without repeats whose directories are all there is clean already.
pub proof fn clean_list_stays(list: Seq<Seq<char>>, present: Seq<bool>)
    requires
        list.no_duplicates(),
        forall|i: int| 0 <= i < list.len() ==> present_at(present, i),
    ensures
        cleaned(list, present) == list,
{
    existing_were_reported(list, present);
    first_occurrences_of_distinct(list);
}

/// Cleaning a cleaned list changes nothing, as long as the file system
/// answers the second time as it did the first.
pub proof fn clean_twice_is_clean_once(
    list: Seq<Seq<char>>,
    present: Seq<bool>,
    again: Seq<bool>,
    there: Set<Seq<char>>,
)
    requires
        reports_agree(list, present, there),
        reports_agree(cleaned(list, present), again, there),
    ensures
        cleaned(cleaned(list, present), again) == cleaned(list, present),
{
    let once = cleaned(list, present);
    existing_were_reported(list, present);
    first_occurrences_are_the_entries_once(existing(list, present));
    assert forall|k: int| 0 <= k < once.len() implies present_at(again, k) by {
        assert(once.contains(once[k]));
        assert(existing(list, present).contains(once[k]));
        let i = choose|i: int| 0 <= i < list.len() && present_at(present, i) && list[i] == once[k];
        assert(there.contains(list[i]));
    }
    clean_list_stays(once, again);
}

/// `part` is `whole` with some entries left out: `places` names, in rising
/// order, the place in `whole` of each entry of `part`.
pub open spec fn is_selection(part: Seq<Seq<char>>, whole: Seq<Seq<char>>, places: Seq<int>) -> bool {
    &&& places.len() == part.len()
    &&& forall|k: int|
        0 <= k < part.len() ==> 0 <= #[trigger] places[k] < whole.len() && whole[places[k]]
            == part[k]
    &&& forall|a: int, b: int| 0 <= a < b < part.len() ==> places[a] < places[b]
}

/// Leaving out entries of a part leaves a part.
proof fn selection_of_selection(
    inner: Seq<Seq<char>>,
    middle: Seq<Seq<char>>,
    whole: Seq<Seq<char>>,
    inner_places: Seq<int>,
    middle_places: Seq<int>,
)
    requires
        is_selection(inner, middle, inner_places),
        is_selection(middle, whole, middle_places),
    ensures
        is_selection(inner, whole, Seq::new(inner.len(), |k: int| middle_places[inner_places[k]])),
{
    let places = Seq::new(inner.len(), |k: int| middle_places[inner_places[k]]);
    assert forall|k: int| 0 <= k < inner.len() implies 0 <= #[trigger] places[k] < whole.len()
        && whole[places[k]] == inner[k] by {
        assert(0 <= inner_places[k] < middle.len());
        assert(0 <= middle_places[inner_places[k]] < whole.len());
    }
    assert forall|a: int, b: int| 0 <= a < b < inner.len() implies places[a] < places[b] by {
        assert(0 <= inner_places[a] < middle.len());
        assert(0 <= inner_places[b] < middle.len());
        assert(inner_places[a] < inner_places[b]);
    }
}

/// The entries that are there are a part of the list, in its order.
proof fn existing_is_selection(list: Seq<Seq<char>>, present: Seq<bool>) -> (places: Seq<int>)
    ensures
        is_selection(existing(list, present), list, places),
    decreases list.len(),
{
    if list.len() == 0 {
        Seq::empty()
    } else {
        let head = list.drop_last();
        let before = existing_is_selection(head, present);
        if present_at(present, list.len() - 1) {
            let places = before.push(list.len() - 1);
            assert forall|k: int| 0 <= k < places.len() implies 0 <= #[trigger] places[k]
                < list.len() && list[places[k]] == existing(list, present)[k] by {
                if k < before.len() {
                    assert(places[k] == before[k]);
                    assert(head[before[k]] == list[before[k]]);
                }
            }
            assert forall|a: int, b: int| 0 <= a < b < places.len() implies places[a]
                < places[b] by {
                assert(places[a] == before[a]);
                if b < before.len() {
                    assert(places[b] == before[b]);
                }
            }
            places
        } else {
            assert forall|k: int| 0 <= k < before.len() implies 0 <= #[trigger] before[k]
                < list.len() && list[before[k]] == existing(list, present)[k] by {
                assert(head[before[k]] == list[before[k]]);
            }
            before
        }
    }
}

/// The first occurrences are a part of the list, in its order.
proof fn first_occurrences_is_selection(list: Seq<Seq<char>>) -> (places: Seq<int>)
    ensures
        is_selection(first_occurrences(list), list, places),
    decreases list.len(),
{
    if list.len() == 0 {
        Seq::empty()
    } else {
        let head = list.drop_last();
        let before = first_occurrences_is_selection(head);
        if !head.contains(list.last()) {
            let places = before.push(list.len() - 1);
            assert forall|k: int| 0 <= k < places.len() implies 0 <= #[trigger] places[k]
                < list.len() && list[places[k]] == first_occurrences(list)[k] by {
                if k < before.len() {
                    assert(places[k] == before[k]);
                    assert(head[before[k]] == list[before[k]]);
                }
            }
            assert forall|a: int, b: int| 0 <= a < b < places.len() implies places[a]
                < places[b] by {
                assert(places[a] == before[a]);
                if b < before.len() {
                    assert(places[b] == before[b]);
                }
            }
            places
        } else {
            assert forall|k: int| 0 <= k < before.len() implies 0 <= #[trigger] before[k]
                < list.len() && list[before[k]] == first_occurrences(list)[k] by {
                assert(head[before[k]] == list[before[k]]);
            }
            before
        }
    }
}

/// Cleaning only leaves entries out: what stays stands in the order in which
/// it stood before.
pub proof fn cleaned_keeps_order(list: Seq<Seq<char>>, present: Seq<bool>)
    ensures
        exists|places: Seq<int>| is_selection(cleaned(list, present), list, places),
{
    let kept = existing(list, present);
    let kept_places = existing_is_selection(list, present);
    let once_places = first_occurrences_is_selection(kept);
    selection_of_selection(cleaned(list, present), kept, list, once_places, kept_places);
    assert(is_selection(
        cleaned(list, present),
        list,
        Seq::new(cleaned(list, present).len(), |k: int| kept_places[once_places[k]]),
    ));
}

/// A cleaned list holds exactly the directories of the list that were
/// reported as being there.
pub proof fn cleaned_holds_what_is_there(list: Seq<Seq<char>>, present: Seq<bool>, dir: Seq<char>)
    ensures
        cleaned(list, present).contains(dir) <==> exists|i: int|
            0 <= i < list.len() && present_at(present, i) && list[i] == dir,
{
    let kept = existing(list, present);
    existing_were_reported(list, present);
    first_occurrences_are_the_entries_once(kept);
    existing_holds_reported(list, present);
    assert(cleaned(list, present).contains(dir) <==> kept.contains(dir));
    if exists|i: int| 0 <= i < list.len() && present_at(present, i) && list[i] == dir {
        let i = choose|i: int| 0 <= i < list.len() && present_at(present, i) && list[i] == dir;
        assert(kept.contains(list[i]));
    }
    if kept.contains(dir) {
        assert(exists|i: int| 0 <= i < list.len() && present_at(present, i) && list[i] == dir);
    }
}

/// Every entry that was reported as being there stays.
proof fn existing_holds_reported(list: Seq<Seq<char>>, present: Seq<bool>)
    ensures
        forall|i: int|
            0 <= i < list.len() && present_at(present, i) ==> existing(list, present).contains(
                #[trigger] list[i],
            ),
    decreases list.len(),
{
    if list.len() > 0 {
        let head = list.drop_last();
        existing_holds_reported(head, present);
        let kept = existing(list, present);
        assert forall|i: int| 0 <= i < list.len() && present_at(present, i) implies kept.contains(
            #[trigger] list[i],
        ) by {
            if i < head.len() {
                assert(head[i] == list[i]);
                assert(existing(head, present).contains(head[i]));
                let k = choose|k: int|
                    0 <= k < existing(head, present).len() && existing(head, present)[k]
                        == head[i];
                assert(kept[k] == list[i]);
            } else {
                assert(kept.last() == list[i]);
            }
        }
    }
}

} // verus!
