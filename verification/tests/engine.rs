use pad::error::{ErrorKind, PathError};
use pad::path::{add_to_path, change_priority, clean_path, position, rm_from_path};

fn list(names: &[&str]) -> Vec<String> {
    names.iter().map(|n| n.to_string()).collect()
}

fn dir(name: &str) -> String {
    name.to_string()
}

#[test]
fn it_works() {
    assert_eq!(2 + 2, 4);
}

#[test]
fn position_is_first_match() {
    let l = list(&["/a", "/b", "/a"]);
    assert_eq!(position(&l, &dir("/a")), Some(0));
    assert_eq!(position(&l, &dir("/b")), Some(1));
    assert_eq!(position(&l, &dir("/c")), None);
    assert_eq!(position(&list(&[]), &dir("/a")), None);
}

#[test]
fn moves_last_entry_to_front() {
    let l = list(&["/usr/bin", "/bin", "/usr/local/bin"]);
    let r = change_priority(&l, &dir("/usr/local/bin"), -2).unwrap();
    assert_eq!(r, list(&["/usr/local/bin", "/usr/bin", "/bin"]));
}

#[test]
fn moves_first_entry_two_places_back() {
    let l = list(&["/a", "/b", "/c", "/d"]);
    let r = change_priority(&l, &dir("/a"), 2).unwrap();
    assert_eq!(r, list(&["/b", "/c", "/a", "/d"]));
}

#[test]
fn moves_one_place_each_way() {
    let l = list(&["/a", "/b", "/c", "/d"]);
    assert_eq!(change_priority(&l, &dir("/c"), -1).unwrap(), list(&["/a", "/c", "/b", "/d"]));
    assert_eq!(change_priority(&l, &dir("/b"), 1).unwrap(), list(&["/a", "/c", "/b", "/d"]));
    assert_eq!(change_priority(&l, &dir("/d"), -3).unwrap(), list(&["/d", "/a", "/b", "/c"]));
    assert_eq!(change_priority(&l, &dir("/a"), 3).unwrap(), list(&["/b", "/c", "/d", "/a"]));
}

#[test]
fn zero_jump_keeps_the_list() {
    let l = list(&["/a", "/b", "/c"]);
    for name in ["/a", "/b", "/c"] {
        assert_eq!(change_priority(&l, &dir(name), 0).unwrap(), l);
    }
}

#[test]
fn long_jumps_stop_at_the_ends() {
    let l = list(&["/a", "/b", "/c", "/d"]);
    assert_eq!(change_priority(&l, &dir("/c"), -4).unwrap(), list(&["/c", "/a", "/b", "/d"]));
    assert_eq!(change_priority(&l, &dir("/c"), -200).unwrap(), list(&["/c", "/a", "/b", "/d"]));
    assert_eq!(change_priority(&l, &dir("/b"), 4).unwrap(), list(&["/a", "/c", "/d", "/b"]));
    assert_eq!(change_priority(&l, &dir("/b"), 1000).unwrap(), list(&["/a", "/c", "/d", "/b"]));
    assert_eq!(change_priority(&l, &dir("/b"), i128::MAX).unwrap(), list(&["/a", "/c", "/d", "/b"]));
    assert_eq!(change_priority(&l, &dir("/b"), i128::MIN).unwrap(), list(&["/b", "/a", "/c", "/d"]));
}

#[test]
fn entries_at_the_ends_stay_when_pushed_further() {
    let l = list(&["/a", "/b", "/c"]);
    assert_eq!(change_priority(&l, &dir("/a"), -1).unwrap(), l);
    assert_eq!(change_priority(&l, &dir("/c"), 1).unwrap(), l);
}

#[test]
fn single_entry_never_moves() {
    let l = list(&["/only"]);
    for jump in [-5, -1, 0, 1, 5] {
        assert_eq!(change_priority(&l, &dir("/only"), jump).unwrap(), l);
    }
}

#[test]
fn long_lists_move_past_the_signed_byte_range() {
    let names: Vec<String> = (0..300).map(|i| format!("/d{}", i)).collect();
    let moved = change_priority(&names, &dir("/d290"), -250).unwrap();
    assert_eq!(moved.len(), 300);
    assert_eq!(moved[40], "/d290");
    assert_eq!(moved[39], "/d39");
    assert_eq!(moved[41], "/d40");
    assert_eq!(moved[290], "/d289");
    assert_eq!(moved[291], "/d291");
    let back = change_priority(&moved, &dir("/d290"), 250).unwrap();
    assert_eq!(back, names);
}

#[test]
fn first_of_equal_entries_moves() {
    let l = list(&["/x", "/a", "/b", "/a"]);
    assert_eq!(change_priority(&l, &dir("/a"), 1).unwrap(), list(&["/x", "/b", "/a", "/a"]));
    assert_eq!(change_priority(&l, &dir("/a"), -1).unwrap(), list(&["/a", "/x", "/b", "/a"]));
}

#[test]
fn moving_an_absent_entry_is_not_found() {
    let l = list(&["/a", "/b"]);
    let e = change_priority(&l, &dir("/c"), 1).unwrap_err();
    assert_eq!(e, PathError::NotFound(dir("/c")));
    assert_eq!(e.kind(), ErrorKind::NotFound);
    assert_eq!(l, list(&["/a", "/b"]));
    let e = change_priority(&list(&[]), &dir("/c"), 0).unwrap_err();
    assert_eq!(e, PathError::NotFound(dir("/c")));
}

#[test]
fn removing_an_absent_entry_is_not_found() {
    let l = list(&["/a", "/b"]);
    assert_eq!(rm_from_path(&l, &dir("/c")).unwrap_err(), PathError::NotFound(dir("/c")));
    assert_eq!(l, list(&["/a", "/b"]));
    assert_eq!(rm_from_path(&list(&[]), &dir("/c")).unwrap_err(), PathError::NotFound(dir("/c")));
}

#[test]
fn removes_the_first_match_only() {
    let l = list(&["/a", "/b", "/c"]);
    assert_eq!(rm_from_path(&l, &dir("/a")).unwrap(), list(&["/b", "/c"]));
    assert_eq!(rm_from_path(&l, &dir("/b")).unwrap(), list(&["/a", "/c"]));
    assert_eq!(rm_from_path(&l, &dir("/c")).unwrap(), list(&["/a", "/b"]));
    let twice = list(&["/a", "/b", "/a"]);
    assert_eq!(rm_from_path(&twice, &dir("/a")).unwrap(), list(&["/b", "/a"]));
}

#[test]
fn adds_after_or_before() {
    let l = list(&["/a", "/b"]);
    assert_eq!(add_to_path(&l, &list(&["/c"]), false).unwrap(), list(&["/a", "/b", "/c"]));
    assert_eq!(add_to_path(&l, &list(&["/c"]), true).unwrap(), list(&["/c", "/a", "/b"]));
    assert_eq!(
        add_to_path(&l, &list(&["/c", "/d"]), false).unwrap(),
        list(&["/a", "/b", "/c", "/d"])
    );
    assert_eq!(
        add_to_path(&l, &list(&["/c", "/d"]), true).unwrap(),
        list(&["/c", "/d", "/a", "/b"])
    );
    assert_eq!(add_to_path(&l, &list(&[]), true).unwrap(), l);
    assert_eq!(add_to_path(&list(&[]), &list(&["/c"]), false).unwrap(), list(&["/c"]));
}

#[test]
fn adding_an_entry_again_is_refused() {
    let l = list(&["/a", "/b"]);
    let e = add_to_path(&l, &list(&["/a"]), false).unwrap_err();
    assert_eq!(e, PathError::AlreadyExists(dir("/a")));
    assert_eq!(e.kind(), ErrorKind::AlreadyExists);
    assert_eq!(l, list(&["/a", "/b"]));
}

#[test]
fn nothing_is_added_when_one_of_many_is_an_entry() {
    let l = list(&["/a", "/b"]);
    let e = add_to_path(&l, &list(&["/c", "/b", "/a"]), true).unwrap_err();
    assert_eq!(e, PathError::AlreadyExists(dir("/b")));
}

#[test]
fn add_then_remove_gives_the_list_back() {
    let l = list(&["/a", "/b", "/c"]);
    for prepend in [false, true] {
        let added = add_to_path(&l, &list(&["/new"]), prepend).unwrap();
        assert_eq!(rm_from_path(&added, &dir("/new")).unwrap(), l);
    }
}

#[test]
fn clean_drops_repeats_and_missing() {
    let l = list(&["/a", "/b", "/a", "/missing"]);
    let r = clean_path(&l, &vec![true, true, true, false]);
    assert_eq!(r, list(&["/a", "/b"]));
}

#[test]
fn clean_keeps_the_first_of_equal_entries() {
    let l = list(&["/b", "/a", "/b", "/c", "/a", "/b"]);
    assert_eq!(clean_path(&l, &vec![true; 6]), list(&["/b", "/a", "/c"]));
}

#[test]
fn clean_drops_entries_without_a_report() {
    let l = list(&["/a", "/b", "/c"]);
    assert_eq!(clean_path(&l, &vec![true, true]), list(&["/a", "/b"]));
    assert_eq!(clean_path(&l, &vec![]), list(&[]));
    assert_eq!(clean_path(&l, &vec![false, true, true, true, true]), list(&["/b", "/c"]));
}

#[test]
fn clean_goes_by_the_report_at_each_place() {
    let l = list(&["/a", "/b", "/a"]);
    assert_eq!(clean_path(&l, &vec![false, true, true]), list(&["/b", "/a"]));
}

#[test]
fn clean_twice_is_clean_once() {
    let l = list(&["/a", "/gone", "/b", "/a", "/c", "/b"]);
    let once = clean_path(&l, &vec![true, false, true, true, true, true]);
    assert_eq!(once, list(&["/a", "/b", "/c"]));
    let twice = clean_path(&once, &vec![true; 3]);
    assert_eq!(twice, once);
}

#[test]
fn clean_list_stays_as_it_is() {
    let l = list(&["/a", "/b", "/c"]);
    assert_eq!(clean_path(&l, &vec![true, true, true]), l);
    assert_eq!(clean_path(&list(&[]), &vec![]), list(&[]));
}
