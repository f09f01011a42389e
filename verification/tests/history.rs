use pad::error::{ErrorKind, PathError};
use pad::path::history::{get_history_filepath, get_nth_last_revision, nth_last_revision};
use pad::path::revert::{revert_path, RevertOpt};

fn dir(name: &str) -> String {
    name.to_string()
}

fn list(names: &[&str]) -> Vec<String> {
    names.iter().map(|n| n.to_string()).collect()
}

fn revert_opt(revision: u128) -> RevertOpt {
    RevertOpt { revision, quiet: false, history: false, dry_run: false }
}

#[test]
fn history_lies_under_the_configuration_directory() {
    assert_eq!(
        get_history_filepath(&Some(dir("/home/u/.cfg")), &Some(dir("/home/u"))),
        "/home/u/.cfg/pad/.path_history"
    );
    assert_eq!(get_history_filepath(&Some(dir("/cfg/")), &None), "/cfg/pad/.path_history");
    assert_eq!(get_history_filepath(&Some(dir("")), &Some(dir("/home/u"))), "pad/.path_history");
}

#[test]
fn history_lies_under_the_home_directory_otherwise() {
    assert_eq!(
        get_history_filepath(&None, &Some(dir("/home/u"))),
        "/home/u/.config/pad/.path_history"
    );
    assert_eq!(get_history_filepath(&None, &Some(dir("/"))), "/.config/pad/.path_history");
}

#[test]
fn history_lies_nowhere_without_either() {
    assert_eq!(get_history_filepath(&None, &None), "pad/.path_history");
}

#[test]
fn revisions_count_from_the_newest() {
    let lines = list(&["/newest", "/middle", "/oldest"]);
    assert_eq!(nth_last_revision(&lines, 1).unwrap(), "/newest");
    assert_eq!(nth_last_revision(&lines, 2).unwrap(), "/middle");
    assert_eq!(nth_last_revision(&lines, 3).unwrap(), "/oldest");
}

#[test]
fn revisions_beyond_the_history_are_refused() {
    let lines = list(&["/newest", "/middle", "/oldest"]);
    let e = nth_last_revision(&lines, 4).unwrap_err();
    assert_eq!(e, PathError::NoSuchRevision(4));
    assert_eq!(e.kind(), ErrorKind::InvalidInput);
    assert_eq!(nth_last_revision(&lines, 0).unwrap_err(), PathError::NoSuchRevision(0));
    assert_eq!(
        nth_last_revision(&lines, u128::MAX).unwrap_err(),
        PathError::NoSuchRevision(u128::MAX)
    );
    let wraps_to_one = (usize::MAX as u128) + 2;
    assert_eq!(
        nth_last_revision(&lines, wraps_to_one).unwrap_err(),
        PathError::NoSuchRevision(wraps_to_one)
    );
    assert_eq!(nth_last_revision(&list(&[]), 1).unwrap_err(), PathError::NoSuchRevision(1));
}

#[test]
fn revisions_are_read_from_the_end_of_the_file() {
    let history = Some(b"/first\n/second:/x\n/third\n".to_vec());
    assert_eq!(get_nth_last_revision(&history, 1).unwrap(), "/third");
    assert_eq!(get_nth_last_revision(&history, 2).unwrap(), "/second:/x");
    assert_eq!(get_nth_last_revision(&history, 3).unwrap(), "/first");
    assert_eq!(get_nth_last_revision(&history, 4).unwrap_err(), PathError::NoSuchRevision(4));
}

#[test]
fn a_last_line_without_an_end_counts() {
    let history = Some(b"/first\n/second".to_vec());
    assert_eq!(get_nth_last_revision(&history, 1).unwrap(), "/second");
    assert_eq!(get_nth_last_revision(&history, 2).unwrap(), "/first");
}

#[test]
fn an_empty_history_holds_no_revision() {
    let history = Some(Vec::new());
    assert_eq!(get_nth_last_revision(&history, 1).unwrap_err(), PathError::NoSuchRevision(1));
}

#[test]
fn a_missing_history_is_reported() {
    let e = get_nth_last_revision(&None, 1).unwrap_err();
    assert_eq!(e, PathError::NoHistory);
    assert_eq!(e.kind(), ErrorKind::NotFound);
}

#[test]
fn a_long_history_is_read_across_buffers() {
    let mut bytes: Vec<u8> = Vec::new();
    for i in 0..2000 {
        bytes.extend_from_slice(format!("/revision/number/{}\n", i).as_bytes());
    }
    let history = Some(bytes);
    assert_eq!(get_nth_last_revision(&history, 1).unwrap(), "/revision/number/1999");
    assert_eq!(get_nth_last_revision(&history, 1000).unwrap(), "/revision/number/1000");
    assert_eq!(get_nth_last_revision(&history, 2000).unwrap(), "/revision/number/0");
    assert_eq!(
        get_nth_last_revision(&history, 2001).unwrap_err(),
        PathError::NoSuchRevision(2001)
    );
}

#[test]
fn revert_options_are_always_valid() {
    assert_eq!(revert_opt(0).validate(), Ok(()));
    assert_eq!(revert_opt(7).validate(), Ok(()));
}

#[test]
fn revert_looks_up_the_revision_asked_for() {
    let history = Some(b"/a\n/a:/b\n/a:/b:/c\n".to_vec());
    assert_eq!(revert_path(&revert_opt(1), &history).unwrap(), "/a:/b:/c");
    assert_eq!(revert_path(&revert_opt(3), &history).unwrap(), "/a");
    assert_eq!(revert_path(&revert_opt(9), &history).unwrap_err(), PathError::NoSuchRevision(9));
    assert_eq!(revert_path(&revert_opt(1), &None).unwrap_err(), PathError::NoHistory);
}
