//! The history of the list: earlier values, one to a line, the newest last.

use rev_lines::RevLines;
use std::io::{BufReader, Cursor};
use vstd::prelude::*;
use vstd::string::StringExecFns;

use crate::error::{fails_with, Failure, PathError};
use crate::path::clean::{push_path, pushed};

verus! {

/// The directory under the configuration directory that holds the history.
pub const APP_DIR: &'static str = "pad";

/// The name of the history file.
pub const HISTORY_FILE: &'static str = ".path_history";

/// The configuration directory under a home directory.
pub const CONFIG_DIR: &'static str = ".config";

/// Where the history is kept: under the configuration directory given, else
/// under the one in the home directory, else under no directory at all.
pub open spec fn history_filepath(config_home: Option<Seq<char>>, home: Option<Seq<char>>) -> Seq<
    char,
> {
    let config = match config_home {
        Some(dir) => dir,
        None => match home {
            Some(dir) => pushed(dir, CONFIG_DIR@),
            None => Seq::empty(),
        },
    };
    pushed(pushed(config, APP_DIR@), HISTORY_FILE@)
}

/// The name of the history file. `config_home` is the configuration
/// directory that the environment names, `home` the user's home directory;
/// either may be unknown.
pub fn get_history_filepath(config_home: &Option<String>, home: &Option<String>) -> (r: String)
    ensures
        r@ == history_filepath(config_home.deep_view(), home.deep_view()),
{
    let cfg_path = match config_home {
        Some(dir) => dir.clone(),
        None => match home {
            Some(dir) => push_path(dir, &String::from_str(CONFIG_DIR)),
            None => String::new(),
        },
    };
    let app_path = push_path(&cfg_path, &String::from_str(APP_DIR));
    push_path(&app_path, &String::from_str(HISTORY_FILE))
}

/// The lines that `rev_lines::RevLines` reads from `content`, the last line
/// first.
pub uninterp spec fn lines_newest_first(content: Seq<u8>) -> Seq<Seq<char>>;

/// Reads `content` with `RevLines::new` of the rev_lines crate and collects
/// the lines that its iterator yields, the last line first. Assumed of it:
/// what it yields depends on the bytes alone.
#[verifier::external_body]
fn read_lines_reversed(content: &Vec<u8>) -> (lines: Vec<String>)
    ensures
        lines.deep_view() == lines_newest_first(content@),
{
    match RevLines::new(BufReader::new(Cursor::new(content))) {
        Ok(lines) => lines.collect(),
        Err(_) => Vec::new(),
    }
}

/// The `n`-th of `lines`, counted from one, or the failure to find it.
pub open spec fn nth_line(lines: Seq<Seq<char>>, n: nat) -> Result<Seq<char>, Failure> {
    if 1 <= n <= lines.len() {
        Ok(lines[n - 1])
    } else {
        Err(Failure::NoSuchRevision(n))
    }
}

/// `r` is the outcome `outcome`.
pub open spec fn is_outcome(r: Result<String, PathError>, outcome: Result<Seq<char>, Failure>) -> bool {
    match r {
        Ok(text) => outcome == Ok::<Seq<char>, Failure>(text@),
        Err(e) => outcome == Err::<Seq<char>, Failure>(e@),
    }
}

/// The `n`-th newest revision among `lines`, which hold the history with the
/// newest line first: revision one is the first line. Fails with
/// `NoSuchRevision` where `n` is zero or the history is shorter.
pub fn nth_last_revision(lines: &Vec<String>, n: u128) -> (r: Result<String, PathError>)
    ensures
        is_outcome(r, nth_line(lines.deep_view(), n as nat)),
{
    if n >= 1 && n <= lines.len() as u128 {
        let index: usize = (n - 1) as usize;
        Ok(lines[index].clone())
    } else {
        Err(PathError::NoSuchRevision(n))
    }
}

/// The `n`-th newest revision in the history file, whose bytes are `history`;
/// `None` where there is no such file, which fails with `NoHistory`.
pub fn get_nth_last_revision(history: &Option<Vec<u8>>, n: u128) -> (r: Result<String, PathError>)
    ensures
        match history {
            Some(content) => is_outcome(r, nth_line(lines_newest_first(content@), n as nat)),
            None => fails_with(r, Failure::NoHistory),
        },
{
    match history {
        Some(content) => {
            let lines = read_lines_reversed(content);
            nth_last_revision(&lines, n)
        },
        None => Err(PathError::NoHistory),
    }
}

} // verus!
