use std::collections::BTreeSet;

use dh_lib::util::{fname_from_path, join_strings, try_fname_from_path, JoinStrings};

#[test]
fn fname_from_path_returns_file_name_even_if_file_does_not_exist() {
    assert_eq!("some_name", fname_from_path("some_name"));
    assert_eq!("some_name", fname_from_path("/some_name"));
    assert_eq!("some_name", fname_from_path("/a/b/some_name"));
}

#[test]
fn fname_from_path_returns_file_name_even_if_it_looks_like_a_directory() {
    assert_eq!("some_name", fname_from_path("some_name/"));
}

#[test]
fn try_fname_from_path_has_none_without_a_name() {
    assert_eq!(None, try_fname_from_path(""));
    assert_eq!(None, try_fname_from_path("/"));
    assert_eq!(None, try_fname_from_path("a/.."));
    assert_eq!(Some("a".to_string()), try_fname_from_path("/a/"));
}

#[test]
fn btreeset_join() {
    let empty: BTreeSet<String> = vec![].into_iter().collect();
    assert_eq!("", empty.join(""));
    assert_eq!("", empty.join(","));

    let one: BTreeSet<String> = vec!["a"].into_iter().map(|s| s.to_owned()).collect();
    assert_eq!("a", one.join(""));
    assert_eq!("a", one.join(","));

    let two: BTreeSet<String> = vec!["a", "b"].into_iter().map(|s| s.to_owned()).collect();
    assert_eq!("ab", two.join(""));
    assert_eq!("a,b", two.join(","));
}

#[test]
fn btreeset_join_is_in_ascending_order() {
    let set: BTreeSet<String> = vec!["pear", "apple", "fig"].into_iter().map(|s| s.to_owned()).collect();
    assert_eq!("apple, fig, pear", set.join(", "));
}

#[test]
fn join_strings_keeps_the_order_given() {
    let items = vec!["b".to_string(), "a".to_string(), "c".to_string()];
    assert_eq!("b-a-c", join_strings(&items, "-"));
    assert_eq!("", join_strings(&Vec::new(), "-"));
}
