use sigmund::selectors::SelectorSet;

#[test]
fn a_new_set_is_empty() {
    let set = SelectorSet::new();
    assert!(set.is_empty());
    assert_eq!(set.len(), 0);
    assert!(!set.contains("ddc63262"));
    assert!(set.to_vec().is_empty());
}

#[test]
fn insert_says_whether_the_selector_was_new() {
    let mut set = SelectorSet::new();
    assert!(set.insert("ddc63262".to_string()));
    assert!(!set.insert("ddc63262".to_string()));
    assert!(set.insert("a9059cbb".to_string()));
    assert_eq!(set.len(), 2);
    assert!(!set.is_empty());
}

#[test]
fn a_set_holds_what_was_inserted_and_nothing_else() {
    let mut set = SelectorSet::new();
    set.insert("ddc63262".to_string());
    assert!(set.contains("ddc63262"));
    assert!(!set.contains("ddc6326"));
    assert!(!set.contains("DDC63262"));
    assert!(!set.contains(""));
}

#[test]
fn members_come_out_in_the_order_of_their_first_insertion() {
    let mut set = SelectorSet::new();
    set.insert("cccccccc".to_string());
    set.insert("aaaaaaaa".to_string());
    set.insert("cccccccc".to_string());
    set.insert("bbbbbbbb".to_string());
    assert_eq!(set.to_vec(), vec!["cccccccc", "aaaaaaaa", "bbbbbbbb"]);
}

#[test]
fn a_set_is_shown_between_braces() {
    let mut set = SelectorSet::new();
    assert_eq!(set.to_string(), "{}");
    set.insert("ddc63262".to_string());
    assert_eq!(set.to_string(), "{\"ddc63262\"}");
    set.insert("a9059cbb".to_string());
    assert_eq!(set.to_string(), "{\"ddc63262\", \"a9059cbb\"}");
}
