use alias_manager::AliasStore;
use alias_manager::Entry;
use alias_manager::StoreError;

fn entry(name: &str, command: &str, description: &str, tags: &[&str]) -> Entry {
    Entry {
        name: name.to_string(),
        command: command.to_string(),
        description: description.to_string(),
        tags: tags.iter().map(|t| t.to_string()).collect(),
    }
}

#[test]
fn insert_then_get_returns_the_entry() {
    let mut store = AliasStore::new();
    let e = entry("gs", "git status", "short status", &["git"]);
    assert!(store.insert_if_absent(e.clone()).is_ok());
    assert_eq!(store.get("gs"), Some(&e));
    assert_eq!(store.len(), 1);
}

#[test]
fn second_insert_with_same_name_is_rejected_and_first_kept() {
    let mut store = AliasStore::new();
    let first = entry("gs", "git status", "short status", &["git"]);
    let second = entry("gs", "git stash", "other payload", &["stash"]);
    assert!(store.insert_if_absent(first.clone()).is_ok());
    assert_eq!(store.insert_if_absent(second), Err(StoreError::DuplicateName));
    assert_eq!(store.get("gs"), Some(&first));
    assert_eq!(store.len(), 1);
}

#[test]
fn remove_present_returns_entry_and_get_misses_afterwards() {
    let mut store = AliasStore::new();
    let a = entry("a", "echo a", "", &[]);
    let b = entry("b", "echo b", "", &[]);
    assert!(store.insert_if_absent(a.clone()).is_ok());
    assert!(store.insert_if_absent(b.clone()).is_ok());
    assert_eq!(store.remove("a"), Ok(a));
    assert_eq!(store.get("a"), None);
    assert_eq!(store.get("b"), Some(&b));
    assert_eq!(store.len(), 1);
}

#[test]
fn remove_absent_fails_and_leaves_store_unchanged() {
    let mut store = AliasStore::new();
    let a = entry("a", "echo a", "", &["x"]);
    assert!(store.insert_if_absent(a.clone()).is_ok());
    assert_eq!(store.remove("missing"), Err(StoreError::NotFound));
    assert_eq!(store.len(), 1);
    assert_eq!(store.get("a"), Some(&a));
}

#[test]
fn get_on_empty_store_misses() {
    let store = AliasStore::new();
    assert_eq!(store.get("anything"), None);
    assert_eq!(store.len(), 0);
}

#[test]
fn tag_search_reports_each_matching_entry_once() {
    let mut store = AliasStore::new();
    store.insert_if_absent(entry("A", "cmd a", "", &["x", "y"])).unwrap();
    store.insert_if_absent(entry("B", "cmd b", "", &["y"])).unwrap();
    store.insert_if_absent(entry("C", "cmd c", "", &["z"])).unwrap();
    let found = store.find_entries_by_tag(&vec!["y".to_string()]);
    assert_eq!(found, vec!["A".to_string(), "B".to_string()]);
}

#[test]
fn tag_search_with_no_search_tags_matches_nothing() {
    let mut store = AliasStore::new();
    store.insert_if_absent(entry("A", "cmd a", "", &["x", "y"])).unwrap();
    let found = store.find_entries_by_tag(&Vec::new());
    assert!(found.is_empty());
}

#[test]
fn tag_search_with_unknown_tag_matches_nothing() {
    let mut store = AliasStore::new();
    store.insert_if_absent(entry("A", "cmd a", "", &["x", "y"])).unwrap();
    store.insert_if_absent(entry("B", "cmd b", "", &["y"])).unwrap();
    let found = store.find_entries_by_tag(&vec!["q".to_string()]);
    assert!(found.is_empty());
}

#[test]
fn tag_search_entry_matched_by_several_tags_is_still_one_name() {
    let mut store = AliasStore::new();
    store.insert_if_absent(entry("A", "cmd a", "", &["x", "y"])).unwrap();
    let found = store.find_entries_by_tag(&vec!["x".to_string(), "y".to_string()]);
    assert_eq!(found, vec!["A".to_string()]);
}

#[test]
fn tag_matching_is_exact_on_case_and_whitespace() {
    let mut store = AliasStore::new();
    store.insert_if_absent(entry("A", "cmd a", "", &["Net ", "disk"])).unwrap();
    assert!(store.find_entries_by_tag(&vec!["net".to_string()]).is_empty());
    assert!(store.find_entries_by_tag(&vec!["Net".to_string()]).is_empty());
    assert_eq!(
        store.find_entries_by_tag(&vec!["Net ".to_string()]),
        vec!["A".to_string()]
    );
}
