use kvstore::store::Store;

#[test]
fn set_and_get() {
    let mut store = Store::new();
    assert_eq!(store.set("a", "1"), None);
    assert_eq!(store.get("a"), Some("1".into()));
    assert_eq!(store.get("不存在"), None);
}

#[test]
fn set_overwrites_existing() {
    let mut store = Store::new();
    store.set("a", "1");
    let old = store.set("a", "2");
    assert_eq!(old, Some("1".into()));
    assert_eq!(store.get("a"), Some("2".into()));
}

#[test]
fn del_returns_removed_value() {
    let mut store = Store::new();
    store.set("a", "1");
    assert_eq!(store.del("a"), Some("1".into()));
    assert_eq!(store.del("a"), None);
    assert_eq!(store.get("a"), None);
}

#[test]
fn keys_are_sorted() {
    let mut store = Store::new();
    store.set("b", "2");
    store.set("a", "1");
    store.set("c", "3");
    assert_eq!(store.keys(), vec!["a", "b", "c"]);
    assert_eq!(store.len(), 3);
}

#[test]
fn snapshot_and_load() {
    let mut store = Store::new();
    store.set("a", "1");
    let snap = store.snapshot();

    let mut other = Store::new();
    other.load(snap);
    assert_eq!(other.get("a"), Some("1".into()));
}

#[test]
fn client_count_tracks_connections() {
    let mut store = Store::new();
    assert_eq!(store.client_count(), 0);
    store.client_connected();
    store.client_connected();
    assert_eq!(store.client_count(), 2);
    store.client_disconnected();
    assert_eq!(store.client_count(), 1);
}

#[test]
fn new_store_is_empty() {
    let store = Store::new();
    assert!(store.is_empty());
    assert_eq!(store.len(), 0);
    assert_eq!(store.keys(), Vec::<String>::new());
}

#[test]
fn is_empty_after_del_of_last_key() {
    let mut store = Store::new();
    store.set("k", "v");
    assert!(!store.is_empty());
    store.del("k");
    assert!(store.is_empty());
}

#[test]
fn keys_sorted_by_code_point() {
    let mut store = Store::new();
    store.set("课程", "1");
    store.set("b", "2");
    store.set("B", "3");
    store.set("ab", "4");
    store.set("a", "5");
    assert_eq!(store.keys(), vec!["B", "a", "ab", "b", "课程"]);
}

#[test]
fn snapshot_is_sorted_by_key() {
    let mut store = Store::new();
    store.set("z", "26");
    store.set("m", "13");
    store.set("a", "1");
    let snap = store.snapshot();
    assert_eq!(
        snap,
        vec![
            ("a".to_string(), "1".to_string()),
            ("m".to_string(), "13".to_string()),
            ("z".to_string(), "26".to_string())
        ]
    );
}

#[test]
fn load_replaces_contents_and_keeps_clients() {
    let mut store = Store::new();
    store.set("old", "x");
    store.client_connected();
    store.load(vec![("b".to_string(), "2".to_string()), ("a".to_string(), "1".to_string())]);
    assert_eq!(store.get("old"), None);
    assert_eq!(store.keys(), vec!["a", "b"]);
    assert_eq!(store.client_count(), 1);
}

#[test]
fn client_count_wraps_like_an_atomic_counter() {
    let mut store = Store::new();
    store.client_disconnected();
    assert_eq!(store.client_count(), usize::MAX);
    store.client_connected();
    assert_eq!(store.client_count(), 0);
}

#[test]
fn del_missing_key_changes_nothing() {
    let mut store = Store::new();
    store.set("a", "1");
    assert_eq!(store.del("b"), None);
    assert_eq!(store.keys(), vec!["a"]);
}
