use pad::path::clean::{
    clean_dir_name, clean_dirs_names, has_trailing_slash, make_abs_path, push_path,
    trim_trailing_separators,
};
use std::path::PathBuf;

fn dir(name: &str) -> String {
    name.to_string()
}

fn list(names: &[&str]) -> Vec<String> {
    names.iter().map(|n| n.to_string()).collect()
}

/// What the file system of a usual installation answers for a name.
fn canonical(answer: &str) -> Option<String> {
    Some(answer.to_string())
}

fn check_make_abs_path(input: &str, answer: &str, expected: &str) {
    let observed = make_abs_path(&dir(input), &canonical(answer), &dir("/home/user"));
    assert_eq!(expected, observed);
}

#[test]
fn clean_remove_middle_relative() {
    assert_eq!(
        make_abs_path(&dir("/usr/../usr"), &canonical("/usr"), &dir("/home/user")),
        "/usr"
    );
}

#[test]
fn clean_relative_path_made_absolute() {
    check_make_abs_path("/usr/..", "/", "/");
    check_make_abs_path("/usr/../lib", "/lib", "/lib");
    check_make_abs_path("/usr/../usr/bin", "/usr/bin", "/usr/bin");
}

#[test]
fn trailing_slash_is_seen() {
    assert!(has_trailing_slash(&dir("/usr/bin/")));
    assert!(has_trailing_slash(&dir("/")));
    assert!(has_trailing_slash(&dir("a//")));
    assert!(!has_trailing_slash(&dir("/usr/bin")));
    assert!(!has_trailing_slash(&dir("")));
    assert!(!has_trailing_slash(&dir("/usr/bin/ ")));
    assert!(!has_trailing_slash(&dir("/usr/ü")));
    assert!(has_trailing_slash(&dir("/usr/ü/")));
}

#[test]
fn trims_all_trailing_separators() {
    assert_eq!(trim_trailing_separators(&dir("/usr/bin/")), "/usr/bin");
    assert_eq!(trim_trailing_separators(&dir("/usr/bin///")), "/usr/bin");
    assert_eq!(trim_trailing_separators(&dir("/usr/bin")), "/usr/bin");
    assert_eq!(trim_trailing_separators(&dir("/usr//bin/")), "/usr//bin");
    assert_eq!(trim_trailing_separators(&dir("")), "");
    assert_eq!(trim_trailing_separators(&dir("/höme/ü/")), "/höme/ü");
}

#[test]
fn trimming_keeps_the_root() {
    assert_eq!(trim_trailing_separators(&dir("/")), "/");
    assert_eq!(trim_trailing_separators(&dir("//")), "/");
    assert_eq!(trim_trailing_separators(&dir("///")), "/");
}

#[test]
fn trim_agrees_with_the_standard_library_but_for_the_root() {
    for name in ["", "a", "a/", "/a/b//", "/a/ /", "ü/", "/a"] {
        assert_eq!(trim_trailing_separators(&dir(name)), name.trim_end_matches('/'));
    }
}

#[test]
fn trimming_twice_changes_nothing_more() {
    for name in ["", "/", "//", "a/", "/a/b//", "/a"] {
        let once = trim_trailing_separators(&dir(name));
        assert_eq!(trim_trailing_separators(&once), once);
        assert!(!has_trailing_slash(&once) || once == "/");
    }
}

#[test]
fn one_more_separator_is_trimmed_away() {
    for name in ["/", "a", "a/", "/a/b", "/a/b//"] {
        let longer = format!("{}/", name);
        assert_eq!(trim_trailing_separators(&longer), trim_trailing_separators(&dir(name)));
    }
}

#[test]
fn pushes_a_name_onto_a_base() {
    assert_eq!(push_path(&dir("/home/user"), &dir("bin")), "/home/user/bin");
    assert_eq!(push_path(&dir("/home/user/"), &dir("bin")), "/home/user/bin");
    assert_eq!(push_path(&dir("/"), &dir("bin")), "/bin");
    assert_eq!(push_path(&dir(""), &dir("bin")), "bin");
    assert_eq!(push_path(&dir("/home/user"), &dir("/opt/bin")), "/opt/bin");
    assert_eq!(push_path(&dir("/home/user"), &dir("")), "/home/user/");
    assert_eq!(push_path(&dir("/home/user"), &dir("a/b/")), "/home/user/a/b/");
    assert_eq!(push_path(&dir("rel"), &dir("../x")), "rel/../x");
}

#[test]
fn push_agrees_with_the_standard_library() {
    let bases = ["", "/", "/home/user", "/home/user/", "rel", "rel//", "/ü"];
    let names = ["", "bin", "/opt/bin", "a/b/", "../x", ".", "/", "ü"];
    for base in bases {
        for name in names {
            let mut expected = PathBuf::from(base);
            expected.push(name);
            assert_eq!(
                push_path(&dir(base), &dir(name)),
                expected.to_string_lossy().into_owned(),
                "base {:?}, name {:?}",
                base,
                name
            );
        }
    }
}

#[test]
fn absolute_form_is_the_canonical_one_where_there_is_one() {
    assert_eq!(
        make_abs_path(&dir("bin"), &canonical("/srv/real/bin"), &dir("/home/user")),
        "/srv/real/bin"
    );
}

#[test]
fn absolute_form_starts_from_the_current_directory_otherwise() {
    assert_eq!(make_abs_path(&dir("bin"), &None, &dir("/home/user")), "/home/user/bin");
    assert_eq!(make_abs_path(&dir("/missing"), &None, &dir("/home/user")), "/missing");
    assert_eq!(make_abs_path(&dir(""), &None, &dir("/home/user")), "/home/user");
    assert_eq!(make_abs_path(&dir("bin/"), &None, &dir("/home/user")), "/home/user/bin");
    assert_eq!(make_abs_path(&dir("/"), &None, &dir("/home/user")), "/");
    assert_eq!(make_abs_path(&dir("x"), &canonical("/srv/x/"), &dir("/home/user")), "/srv/x");
}

#[test]
fn cleans_a_directory_name() {
    assert_eq!(clean_dir_name(&dir("/usr/bin/"), &canonical("/usr/bin"), &dir("/h")), "/usr/bin");
    assert_eq!(clean_dir_name(&dir("tools//"), &None, &dir("/h")), "/h/tools");
    assert_eq!(clean_dir_name(&dir("/gone/"), &None, &dir("/h")), "/gone");
    assert_eq!(clean_dir_name(&dir("bin"), &canonical("/srv/bin/"), &dir("/h")), "/srv/bin");
    assert_eq!(clean_dir_name(&dir("bin"), &None, &dir("/h/")), "/h/bin");
}

#[test]
fn the_root_is_its_own_normal_form() {
    assert_eq!(clean_dir_name(&dir("/"), &canonical("/"), &dir("/home")), "/");
    assert_eq!(clean_dir_name(&dir("/"), &None, &dir("/home")), "/");
    assert_eq!(clean_dir_name(&dir("///"), &None, &dir("/home")), "/");
    assert_eq!(clean_dir_name(&dir("x"), &canonical("/"), &dir("/home")), "/");
}

#[test]
fn the_empty_name_is_the_current_directory() {
    assert_eq!(clean_dir_name(&dir(""), &None, &dir("/home")), "/home");
    assert_eq!(clean_dir_name(&dir(""), &canonical("/srv/home"), &dir("/home")), "/srv/home");
    assert_eq!(clean_dir_name(&dir(""), &None, &dir("/")), "/");
}

#[test]
fn a_normal_form_ends_in_a_separator_only_as_the_root() {
    let names = ["", "/", "//", "a", "a/", "/a/b//", "/gone/"];
    let answers = [None, canonical("/"), canonical("/x/"), canonical("/x/y")];
    for name in names {
        for answer in &answers {
            for cwd in ["/", "/home", "/home/"] {
                let cleaned = clean_dir_name(&dir(name), answer, &dir(cwd));
                assert!(cleaned.starts_with('/'), "{:?}", cleaned);
                assert!(!cleaned.ends_with('/') || cleaned == "/", "{:?}", cleaned);
            }
        }
    }
}

#[test]
fn cleaning_a_normal_form_changes_nothing() {
    for name in ["", "/", "//", "a", "a/", "/a/b//", "/gone/"] {
        for cwd in ["/", "/home", "/home/"] {
            let once = clean_dir_name(&dir(name), &None, &dir(cwd));
            assert_eq!(clean_dir_name(&once, &None, &dir(cwd)), once);
        }
        let answer = canonical("/srv/real");
        let once = clean_dir_name(&dir(name), &answer, &dir("/home"));
        assert_eq!(clean_dir_name(&once, &answer, &dir("/home")), once);
    }
}

#[test]
fn one_more_separator_gives_the_same_normal_form() {
    for name in ["/", "a", "a/", "/a/b", "/gone//"] {
        for answer in [None, canonical("/srv/real")] {
            let longer = format!("{}/", name);
            assert_eq!(
                clean_dir_name(&longer, &answer, &dir("/home")),
                clean_dir_name(&dir(name), &answer, &dir("/home"))
            );
        }
    }
}

#[test]
fn cleans_each_directory_name_with_its_answer() {
    let dirs = list(&["/usr/bin/", "tools/", "/gone//"]);
    let answers = vec![canonical("/usr/bin"), None, None];
    assert_eq!(
        clean_dirs_names(&dirs, &answers, &dir("/h")),
        list(&["/usr/bin", "/h/tools", "/gone"])
    );
}

#[test]
fn a_name_without_an_answer_counts_as_not_there() {
    let dirs = list(&["/usr/bin/", "tools/"]);
    assert_eq!(
        clean_dirs_names(&dirs, &vec![canonical("/usr/bin")], &dir("/h")),
        list(&["/usr/bin", "/h/tools"])
    );
    assert_eq!(clean_dirs_names(&dirs, &vec![], &dir("/h")), list(&["/usr/bin", "/h/tools"]));
    assert_eq!(clean_dirs_names(&list(&[]), &vec![None], &dir("/h")), list(&[]));
}
