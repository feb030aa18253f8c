use dalzip::error::Error;
use dalzip::paths::{check_keys, join_prefix, key, validate_paths};

fn p(parts: &[&str], dir: bool) -> (Vec<String>, bool) {
    (parts.iter().map(|s| s.to_string()).collect(), dir)
}

#[test]
fn unicode_alias_is_a_duplicate() {
    let r = validate_paths(&[p(&["é.txt"], false), p(&["e\u{301}.txt"], false)]);
    assert_eq!(r, Err(Error::DuplicateName(vec!["e\u{301}.txt".to_string()])));
}

#[test]
fn case_alias_is_a_duplicate() {
    let r = validate_paths(&[p(&["A.txt"], false), p(&["a.txt"], false)]);
    assert_eq!(r, Err(Error::DuplicateName(vec!["a.txt".to_string()])));
}

#[test]
fn entry_below_a_file_conflicts() {
    let r = validate_paths(&[p(&["a"], false), p(&["a", "b"], false)]);
    assert_eq!(r, Err(Error::PathConflict(vec!["a".to_string()])));
    let r = validate_paths(&[p(&["x", "y", "z"], false), p(&["X", "Y"], false)]);
    assert_eq!(r, Err(Error::PathConflict(vec!["x".to_string(), "y".to_string()])));
}

#[test]
fn distinct_paths_under_folders_pass() {
    let r = validate_paths(&[
        p(&["dir"], true),
        p(&["dir", "a.txt"], false),
        p(&["dir", "sub"], true),
        p(&["dir", "sub", "b.txt"], false),
    ]);
    assert_eq!(r, Ok(()));
    assert_eq!(validate_paths(&[]), Ok(()));
}

#[test]
fn keys_fold_case_and_composition() {
    let parts = vec!["Dir".to_string(), "E\u{301}.TXT".to_string()];
    assert_eq!(key(&parts), "dir/\u{e9}.txt");
    assert_eq!(join_prefix(&parts, 1), "Dir");
    assert_eq!(join_prefix(&parts, 0), "");
}

#[test]
fn verdict_does_not_depend_on_order() {
    let r = validate_paths(&[p(&["a", "b"], false), p(&["a"], false)]);
    assert_eq!(r, Err(Error::PathConflict(vec!["a".to_string()])));
    let ok = [p(&["dir", "sub", "b.txt"], false), p(&["dir"], true), p(&["dir", "sub"], true)];
    assert_eq!(validate_paths(&ok), Ok(()));
    let reordered = [ok[1].clone(), ok[2].clone(), ok[0].clone()];
    assert_eq!(validate_paths(&reordered), Ok(()));
}

#[test]
fn keys_given_decide_alike() {
    let entries = [p(&["A"], false), p(&["a", "b"], false)];
    let s = |v: &[&str]| v.iter().map(|x| x.to_string()).collect::<Vec<String>>();
    let r = check_keys(&entries, &s(&["a", "a/b"]), &vec![s(&[""]), s(&["", "a"])]);
    assert_eq!(r, Err(Error::PathConflict(vec!["a".to_string()])));
    let r = check_keys(&entries, &s(&["k", "k"]), &vec![s(&[""]), s(&["", "x"])]);
    assert_eq!(r, Err(Error::DuplicateName(vec!["a".to_string(), "b".to_string()])));
    let r = check_keys(&entries, &s(&["a", "a/b"]), &vec![s(&[""]), s(&["", "other"])]);
    assert_eq!(r, Ok(()));
}
