use utility::children::{get_sorted_children, sort_key_of};

fn strings(v: &[&str]) -> Vec<String> {
    v.iter().map(|s| s.to_string()).collect()
}

#[test]
fn key_is_the_text_after_the_lock_marker() {
    assert_eq!(sort_key_of(&"x__lock__0000000042".to_string()), b"0000000042".to_vec());
    assert_eq!(sort_key_of(&"y__rlock__0000000007".to_string()), b"0000000007".to_vec());
    assert_eq!(sort_key_of(&"plain".to_string()), b"~".to_vec());
    assert_eq!(sort_key_of(&"".to_string()), b"~".to_vec());
    // The first occurrence of `__lock__` counts, and it wins over `__rlock__`.
    assert_eq!(sort_key_of(&"a__lock__1__lock__2".to_string()), b"1__lock__2".to_vec());
    assert_eq!(sort_key_of(&"a__rlock__1__lock__2".to_string()), b"2".to_vec());
    assert_eq!(sort_key_of(&"é__lock__9".to_string()), b"9".to_vec());
}

#[test]
fn children_come_in_sequence_order() {
    let children = strings(&[
        "a__lock__0000000002",
        "zzz",
        "b__rlock__0000000001",
        "c__lock__0000000000",
    ]);
    let sorted = get_sorted_children(&children);
    assert_eq!(
        sorted,
        strings(&["c__lock__0000000000", "b__rlock__0000000001", "a__lock__0000000002", "zzz"])
    );
}

#[test]
fn equal_keys_keep_their_listed_order() {
    let children = strings(&["second", "x__lock__5", "first", "y__lock__5", "a__lock__1"]);
    let sorted = get_sorted_children(&children);
    assert_eq!(sorted, strings(&["a__lock__1", "x__lock__5", "y__lock__5", "second", "first"]));
}

#[test]
fn sorting_keeps_every_child() {
    let children = strings(&["b__lock__3", "b__lock__3", "a__lock__3", "c__lock__1"]);
    let sorted = get_sorted_children(&children);
    assert_eq!(sorted.len(), 4);
    assert_eq!(sorted, strings(&["c__lock__1", "b__lock__3", "b__lock__3", "a__lock__3"]));
    assert!(get_sorted_children(&Vec::new()).is_empty());
}

#[test]
fn shorter_key_sorts_first_on_a_common_prefix() {
    let children = strings(&["a__lock__12", "b__lock__1", "c__lock__"]);
    let sorted = get_sorted_children(&children);
    assert_eq!(sorted, strings(&["c__lock__", "b__lock__1", "a__lock__12"]));
}
