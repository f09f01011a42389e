//! Moving a directory to a higher or a lower priority.

use vstd::prelude::*;
use vstd::string::StrSliceExecFns;

use crate::decimal::{all_digits, decimal_value, decimal_value_grows, is_digit};
use crate::error::{Failure, PathError};
use crate::path::change_priority;
use crate::path::clean::{clean_dir_name, clean_name};
use crate::path::with_priority_changed;

verus! {

/// What to move, and how far.
#[derive(Debug)]
pub struct MvOpt {
    /// Directory to move.
    pub dir: String,
    /// Number of places to move it by.
    pub jump: usize,
    /// Print no warnings.
    pub quiet: bool,
    /// Add the current value to the history.
    pub history: bool,
    /// Only preview the change.
    pub dry_run: bool,
}

impl MvOpt {
    /// Validate options: any are accepted.
    pub fn validate(&self) -> (r: Result<(), PathError>)
        ensures
            r is Ok,
    {
        Ok(())
    }
}

/// `text` without a plus sign at its start.
pub open spec fn unsigned_part(text: Seq<char>) -> Seq<char> {
    if text.len() > 0 && text[0] == '+' {
        text.drop_first()
    } else {
        text
    }
}

/// `text` writes a number: one or more digits, and nothing else but a plus
/// sign that may stand before them.
pub open spec fn writes_number(text: Seq<char>) -> bool {
    let digits = unsigned_part(text);
    digits.len() > 0 && all_digits(digits)
}

/// The jump that `text` asks for, if it writes a number that a `usize` holds.
pub open spec fn jump_of(text: Seq<char>) -> Option<usize> {
    if writes_number(text) && decimal_value(unsigned_part(text)) <= usize::MAX {
        Some(decimal_value(unsigned_part(text)) as usize)
    } else {
        None
    }
}

/// Reads the number of places to jump from the text given for it. Fails with
/// `InvalidJump` where the text writes no number, or one that is too large.
pub fn parse_jump(text: &String) -> (r: Result<usize, PathError>)
    ensures
        match r {
            Ok(jump) => jump_of(text@) == Some(jump),
            Err(e) => jump_of(text@) is None && e@ == Failure::InvalidJump(text@),
        },
{
    let s = text.as_str();
    let len: usize = s.unicode_len();
    let start: usize = if len > 0 && s.get_char(0) == '+' {
        1
    } else {
        0
    };
    let ghost digits = unsigned_part(text@);
    assert(digits =~= text@.subrange(start as int, len as int));
    if start == len {
        return Err(PathError::InvalidJump(text.clone()));
    }
    let mut value: usize = 0;
    let mut i: usize = start;
    assert(digits.subrange(0, 0) =~= Seq::<char>::empty());
    while i < len
        invariant
            start <= i <= len,
            len == text@.len(),
            s@ == text@,
            digits == text@.subrange(start as int, len as int),
            digits == unsigned_part(text@),
            forall|k: int| 0 <= k < i - start ==> is_digit(#[trigger] digits[k]),
            value == decimal_value(digits.subrange(0, i - start)),
        decreases len - i,
    {
        let c = s.get_char(i);
        assert(c == digits[i - start]);
        if !('0' <= c && c <= '9') {
            return Err(PathError::InvalidJump(text.clone()));
        }
        let d: usize = (c as u32 - '0' as u32) as usize;
        let ghost head = digits.subrange(0, i - start + 1);
        assert(head.drop_last() =~= digits.subrange(0, i - start));
        assert(head.last() == c);
        let next = match value.checked_mul(10) {
            Some(tens) => tens.checked_add(d),
            None => None,
        };
        match next {
            Some(v) => {
                value = v;
            },
            None => {
                proof {
                    decimal_value_grows(digits, i - start + 1);
                }
                return Err(PathError::InvalidJump(text.clone()));
            },
        }
        i += 1;
    }
    assert(digits.subrange(0, i - start) =~= digits);
    Ok(value)
}

/// `r` is the list after its first entry `dir` has moved `jump` places, or
/// the failure to find `dir`.
pub open spec fn is_moved(
    r: Result<Vec<String>, PathError>,
    list: Seq<Seq<char>>,
    dir: Seq<char>,
    jump: int,
) -> bool {
    match r {
        Ok(moved) => with_priority_changed(list, dir, jump) == Some(moved.deep_view()),
        Err(e) => with_priority_changed(list, dir, jump) is None && e@ == Failure::NotFound(dir),
    }
}

/// Moves the directory of `opts` towards the front by the jump of `opts`: a
/// jump that would leave the list stops at the first place. The directory is
/// looked up in its normal form (see `clean_dir_name` for `canonical` and
/// `current_dir`).
pub fn increase_priority(
    opts: &MvOpt,
    canonical: &Option<String>,
    current_dir: &String,
    current_path: &Vec<String>,
) -> (r: Result<Vec<String>, PathError>)
    ensures
        is_moved(
            r,
            current_path.deep_view(),
            clean_name(opts.dir@, canonical.deep_view(), current_dir@),
            -(opts.jump as int),
        ),
{
    let dir = clean_dir_name(&opts.dir, canonical, current_dir);
    change_priority(current_path, &dir, -(opts.jump as i128))
}

/// Moves the directory of `opts` towards the end by the jump of `opts`: a
/// jump that would leave the list stops at the last place. The directory is
/// looked up in its normal form (see `clean_dir_name` for `canonical` and
/// `current_dir`).
pub fn decrease_priority(
    opts: &MvOpt,
    canonical: &Option<String>,
    current_dir: &String,
    current_path: &Vec<String>,
) -> (r: Result<Vec<String>, PathError>)
    ensures
        is_moved(
            r,
            current_path.deep_view(),
            clean_name(opts.dir@, canonical.deep_view(), current_dir@),
            opts.jump as int,
        ),
{
    let dir = clean_dir_name(&opts.dir, canonical, current_dir);
    change_priority(current_path, &dir, opts.jump as i128)
}

} // verus!
