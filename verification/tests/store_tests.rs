use multi_draggable::item::DraggableItem;
use multi_draggable::store::{filter_list, ItemStore, StoreError};

fn item(key: &str, name: &str) -> DraggableItem {
    DraggableItem::new(key.to_string(), name.to_string())
}

fn names(store: &ItemStore) -> Vec<String> {
    store.items().iter().map(|it| it.display_name.clone()).collect()
}

#[test]
fn insert_keeps_ascending_order() {
    let mut store = ItemStore::new();
    for (k, n) in [("1", "pear"), ("2", "apple"), ("3", "mango"), ("4", "fig"), ("5", "apricot")] {
        assert!(store.insert(item(k, n)).is_ok());
    }
    assert_eq!(names(&store), vec!["apple", "apricot", "fig", "mango", "pear"]);
}

#[test]
fn insert_sorted_example() {
    // store [{k:"b",name:"bee"},{k:"a",name:"ant"}], insert {k:"c",name:"cat"}
    let mut store = ItemStore::new();
    assert!(store.insert(item("b", "bee")).is_ok());
    assert!(store.insert(item("a", "ant")).is_ok());
    assert!(store.insert(item("c", "cat")).is_ok());
    assert_eq!(names(&store), vec!["ant", "bee", "cat"]);
}

#[test]
fn insert_equal_names_is_stable() {
    let mut store = ItemStore::new();
    assert_eq!(store.insert(item("first", "same")), Ok(0));
    assert_eq!(store.insert(item("second", "same")), Ok(1));
    assert_eq!(store.insert(item("third", "same")), Ok(2));
    let keys: Vec<String> = store.items().iter().map(|it| it.key.clone()).collect();
    assert_eq!(keys, vec!["first", "second", "third"]);
}

#[test]
fn insert_duplicate_key_is_rejected() {
    let mut store = ItemStore::new();
    assert!(store.insert(item("k1", "one")).is_ok());
    assert_eq!(store.insert(item("k1", "other")), Err(StoreError::DuplicateKey));
    assert_eq!(store.len(), 1);
    assert_eq!(names(&store), vec!["one"]);
}

#[test]
fn remove_then_contains_is_false() {
    let mut store = ItemStore::new();
    assert!(store.insert(item("a", "ant")).is_ok());
    assert!(store.insert(item("b", "bee")).is_ok());
    assert!(store.contains("a"));
    assert!(store.remove("a"));
    assert!(!store.contains("a"));
    assert_eq!(names(&store), vec!["bee"]);
}

#[test]
fn remove_absent_key_is_noop() {
    let mut store = ItemStore::new();
    assert!(store.insert(item("a", "ant")).is_ok());
    assert!(store.insert(item("b", "bee")).is_ok());
    assert!(!store.remove("zebra"));
    assert_eq!(names(&store), vec!["ant", "bee"]);
    assert_eq!(store.len(), 2);
}

#[test]
fn filter_example_substring_group() {
    // items ["apple","banana","grape"], filter "an": group (a) empty,
    // group (b) = ["banana"] ("anana" contains "an").
    let list = vec![item("1", "apple"), item("2", "banana"), item("3", "grape")];
    let out = filter_list(&list, "an");
    let out_names: Vec<String> = out.iter().map(|it| it.display_name.clone()).collect();
    assert_eq!(out_names, vec!["banana"]);
}

#[test]
fn filter_prefix_group_precedes_substring_group() {
    let mut store = ItemStore::new();
    for (k, n) in [("1", "alpha"), ("2", "beta"), ("3", "gamma"), ("4", "salad")] {
        assert!(store.insert(item(k, n)).is_ok());
    }
    // group (a): names starting with "al" -> ["alpha"];
    // group (b): first char stripped contains "al" -> "salad" ("alad").
    let out = store.filter("al");
    let out_names: Vec<String> = out.iter().map(|it| it.display_name.clone()).collect();
    assert_eq!(out_names, vec!["alpha", "salad"]);
}

#[test]
fn filter_groups_keep_store_order() {
    let list = vec![
        item("1", "alps"),
        item("2", "alpha"),
        item("3", "canal"),
        item("4", "balsa"),
    ];
    let out = filter_list(&list, "al");
    let out_names: Vec<String> = out.iter().map(|it| it.display_name.clone()).collect();
    // group (a) in original order, then group (b) in original order.
    assert_eq!(out_names, vec!["alps", "alpha", "canal", "balsa"]);
}

#[test]
fn filter_output_has_no_duplicates() {
    let list = vec![item("1", "ana"), item("2", "anna")];
    // both start with "an" and also contain "an" after stripping; each
    // appears once, in group (a) only.
    let out = filter_list(&list, "an");
    let out_names: Vec<String> = out.iter().map(|it| it.display_name.clone()).collect();
    assert_eq!(out_names, vec!["ana", "anna"]);
}

#[test]
fn filter_short_names_never_match_substring_group() {
    let list = vec![item("1", "x"), item("2", "")];
    // Names shorter than two characters cannot be substring-tested: they
    // fail group (b) instead of faulting.
    let out = filter_list(&list, "x");
    let out_names: Vec<String> = out.iter().map(|it| it.display_name.clone()).collect();
    assert_eq!(out_names, vec!["x"]); // "x" matches by prefix only
    let none = filter_list(&list, "q");
    assert!(none.is_empty());
}

#[test]
fn filter_empty_query_keeps_everything_once() {
    let list = vec![item("1", "bee"), item("2", "ant")];
    let out = filter_list(&list, "");
    let out_names: Vec<String> = out.iter().map(|it| it.display_name.clone()).collect();
    // every name starts with the empty query, so group (a) holds them all
    assert_eq!(out_names, vec!["bee", "ant"]);
}

#[test]
fn filter_does_not_mutate_the_store() {
    let mut store = ItemStore::new();
    assert!(store.insert(item("1", "pear")).is_ok());
    assert!(store.insert(item("2", "plum")).is_ok());
    let _ = store.filter("p");
    assert_eq!(names(&store), vec!["pear", "plum"]);
}

#[test]
fn unicode_names_sort_by_code_point() {
    let mut store = ItemStore::new();
    assert!(store.insert(item("1", "Ärger")).is_ok());
    assert!(store.insert(item("2", "zebra")).is_ok());
    assert!(store.insert(item("3", "apple")).is_ok());
    // 'z' (U+007A) < 'Ä' (U+00C4): code-point order, which for UTF-8 is
    // also byte-wise order.
    assert_eq!(names(&store), vec!["apple", "zebra", "Ärger"]);
}
