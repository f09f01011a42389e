//! Failures reported by the operations on a path list.

use vstd::prelude::*;
use vstd::string::StringExecFns;

use crate::decimal::{digits_of, to_decimal};

verus! {

/// Broad class of a failure, for callers that only branch on the class.
#[derive(Debug, Clone, Copy, PartialEq, Eq, Structural)]
pub enum ErrorKind {
    NotFound,
    AlreadyExists,
    InvalidData,
    InvalidInput,
}

/// Why an operation on a path list was refused.
#[derive(Debug, PartialEq, Eq)]
pub enum PathError {
    /// The directory is not an entry of the list.
    NotFound(String),
    /// The directory is already an entry of the list.
    AlreadyExists(String),
    /// The directory does not exist in the file system.
    MissingDirectory(String),
    /// The entry holds the list separator, so a joined list could not be
    /// split again.
    UnjoinableEntry(String),
    /// The text given for a jump is not a non-negative whole number.
    InvalidJump(String),
    /// There is no history to revert to.
    NoHistory,
    /// The history holds fewer revisions than the one asked for.
    NoSuchRevision(u128),
}

/// What a `PathError` says, with each name as its sequence of characters.
pub enum Failure {
    NotFound(Seq<char>),
    AlreadyExists(Seq<char>),
    MissingDirectory(Seq<char>),
    UnjoinableEntry(Seq<char>),
    InvalidJump(Seq<char>),
    NoHistory,
    NoSuchRevision(nat),
}

impl View for PathError {
    type V = Failure;

    open spec fn view(&self) -> Failure {
        match self {
            PathError::NotFound(dir) => Failure::NotFound(dir@),
            PathError::AlreadyExists(dir) => Failure::AlreadyExists(dir@),
            PathError::MissingDirectory(dir) => Failure::MissingDirectory(dir@),
            PathError::UnjoinableEntry(dir) => Failure::UnjoinableEntry(dir@),
            PathError::InvalidJump(text) => Failure::InvalidJump(text@),
            PathError::NoHistory => Failure::NoHistory,
            PathError::NoSuchRevision(revision) => Failure::NoSuchRevision(*revision as nat),
        }
    }
}

impl Failure {
    /// The class a failure belongs to.
    pub open spec fn kind(self) -> ErrorKind {
        match self {
            Failure::NotFound(_) => ErrorKind::NotFound,
            Failure::AlreadyExists(_) => ErrorKind::AlreadyExists,
            Failure::MissingDirectory(_) => ErrorKind::InvalidInput,
            Failure::UnjoinableEntry(_) => ErrorKind::InvalidData,
            Failure::InvalidJump(_) => ErrorKind::InvalidInput,
            Failure::NoHistory => ErrorKind::NotFound,
            Failure::NoSuchRevision(_) => ErrorKind::InvalidInput,
        }
    }
}

/// What stands before the name of a directory in a message.
pub const DIRECTORY: &'static str = "Directory `";

/// The rest of the message for a directory that is not an entry.
pub const IS_NOT_AN_ENTRY: &'static str = "` not found in `$PATH`. No changes made.";

/// The rest of the message for a directory that is an entry already.
pub const IS_AN_ENTRY: &'static str =
    "` already exists in `$PATH`. Use `pad up/dn` to change priority of this directory. No changes made.";

/// The rest of the message for a directory that does not exist.
pub const DOES_NOT_EXIST: &'static str =
    "` does not exist. Please double check the directories you named.";

/// The rest of the message for a directory that cannot be joined.
pub const HOLDS_SEPARATOR: &'static str = "` contains the separator `:`. No changes made.";

/// The message for a jump that is no number.
pub const JUMP_IS_NO_NUMBER: &'static str = "JUMP must be an integer.";

/// The message for a missing history.
pub const NO_HISTORY: &'static str = "History file not found. Nothing to revert to.";

/// What stands before the number of a revision that the history lacks.
pub const NO_REVISION: &'static str = "History does not contain revision ";

/// What stands after the number of a revision that the history lacks.
pub const ASK_FOR_LESS: &'static str = ". Please specify a smaller revision number.";

/// The message that tells the user of a failure.
pub open spec fn message_text(failure: Failure) -> Seq<char> {
    match failure {
        Failure::NotFound(dir) => DIRECTORY@ + dir + IS_NOT_AN_ENTRY@,
        Failure::AlreadyExists(dir) => DIRECTORY@ + dir + IS_AN_ENTRY@,
        Failure::MissingDirectory(dir) => DIRECTORY@ + dir + DOES_NOT_EXIST@,
        Failure::UnjoinableEntry(dir) => DIRECTORY@ + dir + HOLDS_SEPARATOR@,
        Failure::InvalidJump(_) => JUMP_IS_NO_NUMBER@,
        Failure::NoHistory => NO_HISTORY@,
        Failure::NoSuchRevision(revision) => NO_REVISION@ + digits_of(revision) + ASK_FOR_LESS@,
    }
}

/// `r` is the failure `failure`.
pub open spec fn fails_with<T>(r: Result<T, PathError>, failure: Failure) -> bool {
    match r {
        Ok(_) => false,
        Err(e) => e@ == failure,
    }
}

impl PathError {
    /// The class this failure belongs to.
    pub fn kind(&self) -> (k: ErrorKind)
        ensures
            k == self@.kind(),
    {
        match self {
            PathError::NotFound(_) => ErrorKind::NotFound,
            PathError::AlreadyExists(_) => ErrorKind::AlreadyExists,
            PathError::MissingDirectory(_) => ErrorKind::InvalidInput,
            PathError::UnjoinableEntry(_) => ErrorKind::InvalidData,
            PathError::InvalidJump(_) => ErrorKind::InvalidInput,
            PathError::NoHistory => ErrorKind::NotFound,
            PathError::NoSuchRevision(_) => ErrorKind::InvalidInput,
        }
    }

    /// The message that tells the user of this failure.
    pub fn message(&self) -> (r: String)
        ensures
            r@ == message_text(self@),
    {
        match self {
            PathError::NotFound(dir) => about_directory(dir, IS_NOT_AN_ENTRY),
            PathError::AlreadyExists(dir) => about_directory(dir, IS_AN_ENTRY),
            PathError::MissingDirectory(dir) => about_directory(dir, DOES_NOT_EXIST),
            PathError::UnjoinableEntry(dir) => about_directory(dir, HOLDS_SEPARATOR),
            PathError::InvalidJump(_) => String::from_str(JUMP_IS_NO_NUMBER),
            PathError::NoHistory => String::from_str(NO_HISTORY),
            PathError::NoSuchRevision(revision) => {
                let mut r = String::from_str(NO_REVISION);
                let number = to_decimal(*revision);
                r.append(number.as_str());
                r.append(ASK_FOR_LESS);
                r
            },
        }
    }
}

/// A message that names a directory and goes on with `rest`.
fn about_directory(dir: &String, rest: &str) -> (r: String)
    ensures
        r@ == DIRECTORY@ + dir@ + rest@,
{
    let mut r = String::from_str(DIRECTORY);
    r.append(dir.as_str());
    r.append(rest);
    r
}

} // verus!
