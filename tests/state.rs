use markdown_preview::state::AppState;
use markdown_preview::store::DocumentStore;

#[test]
fn new_state_has_empty_file_list() {
    let state = AppState::new(".".to_string());
    assert!(state.file_list().is_empty());
}

#[test]
fn upsert_and_get() {
    let mut state = AppState::new(".".to_string());
    let is_new = state.upsert("README.md".into(), "<p>hi</p>".into());
    assert!(is_new);
    assert_eq!(state.get_rendered("README.md"), Some("<p>hi</p>".into()));
}

#[test]
fn upsert_existing_returns_false() {
    let mut state = AppState::new(".".to_string());
    state.upsert("a.md".into(), "old".into());
    let is_new = state.upsert("a.md".into(), "new".into());
    assert!(!is_new);
    assert_eq!(state.get_rendered("a.md"), Some("new".into()));
}

#[test]
fn remove_existing() {
    let mut state = AppState::new(".".to_string());
    state.upsert("a.md".into(), "html".into());
    assert!(state.remove("a.md"));
    assert!(state.get_rendered("a.md").is_none());
}

#[test]
fn remove_nonexistent() {
    let mut state = AppState::new(".".to_string());
    assert!(!state.remove("nope.md"));
}

#[test]
fn file_list_is_sorted() {
    let mut state = AppState::new(".".to_string());
    state.upsert("z.md".into(), "".into());
    state.upsert("a.md".into(), "".into());
    state.upsert("m.md".into(), "".into());
    assert_eq!(state.file_list(), vec!["a.md", "m.md", "z.md"]);
}

#[test]
fn state_keeps_its_root() {
    let state = AppState::new("/srv/docs".to_string());
    assert_eq!(state.root(), "/srv/docs");
}

#[test]
fn store_upsert_twice_same_key() {
    let mut store = DocumentStore::new();
    assert!(store.upsert("p.md".to_string(), "one".to_string()));
    assert!(!store.upsert("p.md".to_string(), "two".to_string()));
    assert_eq!(store.get("p.md"), Some("two".to_string()));
    assert_eq!(store.list(), vec!["p.md"]);
}

#[test]
fn store_remove_absent_leaves_listing() {
    let mut store = DocumentStore::new();
    store.upsert("b.md".to_string(), "b".to_string());
    store.upsert("a.md".to_string(), "a".to_string());
    let before = store.list();
    assert!(!store.remove("c.md"));
    assert_eq!(store.list(), before);
    assert_eq!(before, vec!["a.md", "b.md"]);
}

#[test]
fn store_listing_orders_by_character() {
    let mut store = DocumentStore::new();
    for key in ["b.md", "B.md", "a/b.md", "a.md", "ab.md", "a", "\u{e9}.md", "z.md"] {
        store.upsert(key.to_string(), String::new());
    }
    let mut expected: Vec<String> =
        ["b.md", "B.md", "a/b.md", "a.md", "ab.md", "a", "\u{e9}.md", "z.md"].iter().map(|s| s.to_string()).collect();
    expected.sort();
    assert_eq!(store.list(), expected);
}

#[test]
fn store_mixed_operations_stay_sorted() {
    let mut store = DocumentStore::new();
    let keys = ["m.md", "c.md", "x.md", "a.md", "q.md", "c.md", "b.md"];
    for k in keys {
        store.upsert(k.to_string(), k.to_string());
    }
    assert!(store.remove("x.md"));
    assert!(store.remove("a.md"));
    assert!(!store.remove("a.md"));
    assert_eq!(store.list(), vec!["b.md", "c.md", "m.md", "q.md"]);
    assert_eq!(store.get("q.md"), Some("q.md".to_string()));
    assert_eq!(store.get("x.md"), None);
}
