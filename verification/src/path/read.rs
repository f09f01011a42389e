//! The text form of a path list: directory names with a separator between
//! them.

use vstd::prelude::*;
use vstd::string::StrSliceExecFns;
use vstd::string::StringExecFns;

use crate::error::{Failure, PathError};
use crate::path::clean::{clean_dirs_names, clean_names};

verus! {

/// The character that stands between the directories of a list.
pub const LIST_SEPARATOR: char = ':';

/// The pieces of `text` that the separators part, in order. A text of `n`
/// separators has `n + 1` pieces, of which any may be empty.
pub open spec fn pieces(text: Seq<char>) -> Seq<Seq<char>>
    decreases text.len(),
{
    if text.len() == 0 {
        seq![Seq::empty()]
    } else if text.last() == LIST_SEPARATOR {
        pieces(text.drop_last()).push(Seq::empty())
    } else {
        let before = pieces(text.drop_last());
        before.drop_last().push(before.last().push(text.last()))
    }
}

/// The entries of `list` with a separator between each two.
pub open spec fn joined(list: Seq<Seq<char>>) -> Seq<char>
    decreases list.len(),
{
    if list.len() == 0 {
        Seq::empty()
    } else if list.len() == 1 {
        list[0]
    } else {
        joined(list.drop_last()) + seq![LIST_SEPARATOR] + list.last()
    }
}

/// `name` holds the list separator.
pub open spec fn holds_separator(name: Seq<char>) -> bool {
    name.contains(LIST_SEPARATOR)
}

/// No entry of `list` holds the list separator.
pub open spec fn joinable(list: Seq<Seq<char>>) -> bool {
    forall|k: int| 0 <= k < list.len() ==> !holds_separator(#[trigger] list[k])
}

/// `list[j]` is the first entry of `list` that holds the list separator.
pub open spec fn first_unjoinable_at(list: Seq<Seq<char>>, j: int) -> bool {
    &&& 0 <= j < list.len()
    &&& holds_separator(list[j])
    &&& forall|k: int| 0 <= k < j ==> !holds_separator(#[trigger] list[k])
}

/// `r` is what joining `list` gives: its text, or the refusal of its first
/// entry that holds the separator.
pub open spec fn is_text_of(r: Result<String, PathError>, list: Seq<Seq<char>>) -> bool {
    match r {
        Ok(text) => joinable(list) && text@ == joined(list),
        Err(e) => exists|j: int|
            first_unjoinable_at(list, j) && e@ == Failure::UnjoinableEntry(list[j]),
    }
}

/// The entries that a variable holds: the pieces of its text, each in its
/// normal form, and one empty name where the variable is not set.
pub open spec fn entries_of(
    raw: Option<Seq<char>>,
    canonical: Seq<Option<Seq<char>>>,
    current_dir: Seq<char>,
) -> Seq<Seq<char>> {
    match raw {
        Some(text) => clean_names(pieces(text), canonical, current_dir),
        None => seq![Seq::empty()],
    }
}

/// Splits the text form of a list into its entries: the pieces of the text in
/// their order, each in its normal form. Equal entries all stay.
/// `canonical[i]` is what the file system gave as the canonical form of the
/// `i`-th piece, trimmed (see `path_pieces` and `clean_dir_name`);
/// `current_dir` is the directory that relative names start from.
pub fn split_path_like(s: &String, canonical: &Vec<Option<String>>, current_dir: &String) -> (r:
    Vec<String>)
    ensures
        r.deep_view() == clean_names(pieces(s@), canonical.deep_view(), current_dir@),
{
    let names = path_pieces(s);
    clean_dirs_names(&names, canonical, current_dir)
}

/// Splits the text form of a list into its pieces, as they stand: no name is
/// changed, and an empty piece gives an empty name.
pub fn path_pieces(s: &String) -> (r: Vec<String>)
    ensures
        r.deep_view() == pieces(s@),
{
    broadcast use vstd::string::group_string_axioms;

    let text = s.as_str();
    let len: usize = text.unicode_len();
    let mut done: Vec<String> = Vec::new();
    let mut start: usize = 0;
    let mut i: usize = 0;
    assert(done.deep_view() =~= Seq::<Seq<char>>::empty());
    assert(s@.subrange(0, 0) =~= Seq::<char>::empty());
    assert(Seq::<Seq<char>>::empty().push(Seq::<char>::empty()) =~= seq![Seq::<char>::empty()]);
    for c in it: text.chars()
        invariant
            it.seq() == s@,
            text@ == s@,
            i == it.index(),
            len == s@.len(),
            start <= i,
            done.deep_view().push(s@.subrange(start as int, i as int)) == pieces(
                s@.subrange(0, i as int),
            ),
    {
        let ghost head = s@.subrange(0, i + 1);
        let ghost open_piece = s@.subrange(start as int, i as int);
        let ghost before = done.deep_view();
        assert(head.drop_last() =~= s@.subrange(0, i as int));
        assert(head.last() == c);
        assert(before.push(open_piece).drop_last() =~= before);
        if c == LIST_SEPARATOR {
            done.push(String::from_str(text.substring_char(start, i)));
            assert(done.deep_view() =~= before.push(open_piece));
            start = i + 1;
            assert(s@.subrange(start as int, i + 1) =~= Seq::<char>::empty());
        } else {
            assert(s@.subrange(start as int, i + 1) =~= open_piece.push(c));
        }
        i += 1;
    }
    let ghost before = done.deep_view();
    done.push(String::from_str(text.substring_char(start, i)));
    assert(done.deep_view() =~= before.push(s@.subrange(start as int, i as int)));
    assert(s@.subrange(0, i as int) =~= s@);
    done
}

/// The entries of a variable's value, each in its normal form (see
/// `split_path_like` for `canonical` and `current_dir`). A variable that is
/// not set gives one empty name.
pub fn read_path(raw: &Option<String>, canonical: &Vec<Option<String>>, current_dir: &String) -> (r:
    Vec<String>)
    ensures
        r.deep_view() == entries_of(raw.deep_view(), canonical.deep_view(), current_dir@),
{
    match raw {
        Some(text) => split_path_like(text, canonical, current_dir),
        None => {
            let mut r: Vec<String> = Vec::new();
            r.push(String::new());
            assert(r.deep_view() =~= seq![Seq::<char>::empty()]);
            r
        },
    }
}

/// Whether a name holds the list separator.
fn has_list_separator(name: &String) -> (b: bool)
    ensures
        b == holds_separator(name@),
{
    broadcast use vstd::string::group_string_axioms;

    for c in it: name.as_str().chars()
        invariant
            it.seq() == name@,
            forall|k: int| 0 <= k < it.index() ==> name@[k] != LIST_SEPARATOR,
    {
        if c == LIST_SEPARATOR {
            assert(name@[it.index()] == LIST_SEPARATOR);
            return true;
        }
    }
    false
}

/// Joins directory names into the text form of a list. A name that holds the
/// separator would not come back as one name: the first such is refused with
/// `UnjoinableEntry`.
pub fn combine_path_like(dirs: &Vec<String>) -> (r: Result<String, PathError>)
    ensures
        is_text_of(r, dirs.deep_view()),
{
    let mut text = String::new();
    let mut i: usize = 0;
    assert(dirs.deep_view().subrange(0, 0) =~= Seq::<Seq<char>>::empty());
    while i < dirs.len()
        invariant
            i <= dirs.len(),
            joinable(dirs.deep_view().subrange(0, i as int)),
            text@ == joined(dirs.deep_view().subrange(0, i as int)),
        decreases dirs.len() - i,
    {
        let ghost head = dirs.deep_view().subrange(0, i as int);
        let ghost next = dirs.deep_view().subrange(0, i + 1);
        assert(next.drop_last() =~= head);
        assert(next.last() == dirs.deep_view()[i as int]);
        if has_list_separator(&dirs[i]) {
            assert forall|k: int| 0 <= k < i implies !holds_separator(
                #[trigger] dirs.deep_view()[k],
            ) by {
                assert(head[k] == dirs.deep_view()[k]);
            }
            assert(first_unjoinable_at(dirs.deep_view(), i as int));
            return Err(PathError::UnjoinableEntry(dirs[i].clone()));
        }
        if i > 0 {
            proof {
                reveal_strlit(":");
            }
            text.append(":");
            assert(text@ =~= joined(head) + seq![LIST_SEPARATOR]);
        }
        text.append(dirs[i].as_str());
        assert(text@ =~= joined(next));
        assert forall|k: int| 0 <= k < next.len() implies !holds_separator(#[trigger] next[k]) by {
            if k < i {
                assert(head[k] == next[k]);
            }
        }
        i += 1;
    }
    assert(dirs.deep_view().subrange(0, i as int) =~= dirs.deep_view());
    Ok(text)
}

/// A text has at least one piece, and no piece holds the separator.
pub proof fn pieces_hold_no_separator(text: Seq<char>)
    ensures
        pieces(text).len() >= 1,
        joinable(pieces(text)),
    decreases text.len(),
{
    if text.len() > 0 {
        pieces_hold_no_separator(text.drop_last());
        let before = pieces(text.drop_last());
        if text.last() != LIST_SEPARATOR {
            let grown = before.last().push(text.last());
            assert forall|k: int| 0 <= k < grown.len() implies grown[k] != LIST_SEPARATOR by {
                if k < before.last().len() {
                    assert(before.last().contains(grown[k]));
                }
            }
            assert forall|k: int| 0 <= k < pieces(text).len() implies !holds_separator(
                #[trigger] pieces(text)[k],
            ) by {
                if k < before.len() - 1 {
                    assert(pieces(text)[k] == before[k]);
                }
            }
        } else {
            assert forall|k: int| 0 <= k < pieces(text).len() implies !holds_separator(
                #[trigger] pieces(text)[k],
            ) by {
                if k < before.len() {
                    assert(pieces(text)[k] == before[k]);
                }
            }
        }
    }
}

/// Joining the pieces of a text gives the text back.
pub proof fn join_undoes_split(text: Seq<char>)
    ensures
        joined(pieces(text)) == text,
    decreases text.len(),
{
    if text.len() == 0 {
        assert(joined(pieces(text)) =~= text);
    } else {
        let head = text.drop_last();
        join_undoes_split(head);
        pieces_hold_no_separator(head);
        let before = pieces(head);
        if text.last() == LIST_SEPARATOR {
            assert(pieces(text).drop_last() =~= before);
            assert(joined(pieces(text)) =~= text);
        } else {
            let grown = before.last().push(text.last());
            if before.len() == 1 {
                assert(before[0] == head);
                assert(pieces(text) =~= seq![grown]);
                assert(grown =~= text);
            } else {
                assert(pieces(text).drop_last() =~= before.drop_last());
                assert(joined(pieces(text)) =~= joined(before.drop_last()) + seq![LIST_SEPARATOR]
                    + grown);
                assert(head == joined(before.drop_last()) + seq![LIST_SEPARATOR] + before.last());
                assert(joined(pieces(text)) =~= head.push(text.last()));
                assert(head.push(text.last()) =~= text);
            }
        }
    }
}

/// A separator and a name without one, put after a text, add that name to its
/// pieces.
proof fn pieces_of_one_more(text: Seq<char>, name: Seq<char>)
    requires
        !holds_separator(name),
    ensures
        pieces(text + seq![LIST_SEPARATOR] + name) == pieces(text).push(name),
    decreases name.len(),
{
    let whole = text + seq![LIST_SEPARATOR] + name;
    if name.len() == 0 {
        assert(name =~= Seq::<char>::empty());
        assert(whole.last() == LIST_SEPARATOR);
        assert(whole.drop_last() =~= text);
    } else {
        let shorter = name.drop_last();
        assert(name.contains(name.last()));
        assert forall|k: int| 0 <= k < shorter.len() implies shorter[k] != LIST_SEPARATOR by {
            assert(name.contains(name[k]));
        }
        pieces_of_one_more(text, shorter);
        assert(whole.drop_last() =~= text + seq![LIST_SEPARATOR] + shorter);
        assert(shorter.push(name.last()) =~= name);
        assert(pieces(text).push(shorter).drop_last() =~= pieces(text));
    }
}

/// A name without a separator is its own single piece.
proof fn pieces_of_one_name(name: Seq<char>)
    requires
        !holds_separator(name),
    ensures
        pieces(name) == seq![name],
    decreases name.len(),
{
    if name.len() == 0 {
        assert(name =~= Seq::<char>::empty());
    } else {
        let shorter = name.drop_last();
        assert(name.contains(name.last()));
        assert forall|k: int| 0 <= k < shorter.len() implies shorter[k] != LIST_SEPARATOR by {
            assert(name.contains(name[k]));
        }
        pieces_of_one_name(shorter);
        assert(shorter.push(name.last()) =~= name);
        assert(pieces(name) =~= seq![name]);
    }
}

/// Splitting the text of a joined list gives the list back, where the list
/// has an entry and none of them holds the separator. (The empty list and
/// the list of one empty name have the same text.)
pub proof fn split_undoes_join(list: Seq<Seq<char>>)
    requires
        list.len() > 0,
        joinable(list),
    ensures
        pieces(joined(list)) == list,
    decreases list.len(),
{
    if list.len() == 1 {
        pieces_of_one_name(list[0]);
        assert(seq![list[0]] =~= list);
    } else {
        let head = list.drop_last();
        assert forall|k: int| 0 <= k < head.len() implies !holds_separator(#[trigger] head[k]) by {
            assert(head[k] == list[k]);
        }
        split_undoes_join(head);
        pieces_of_one_more(joined(head), list.last());
        assert(head.push(list.last()) =~= list);
    }
}

} // verus!
