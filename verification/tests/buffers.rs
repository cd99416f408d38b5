use destyle::buffers::BufferStore;
use destyle::title_order::title_order;
use destyle::title_order::TitleOrder;

fn titles(store: &BufferStore) -> Vec<String> {
    (0..store.len()).map(|i| store.title_at(i).clone()).collect()
}

fn contents(store: &BufferStore) -> Vec<String> {
    (0..store.len()).map(|i| store.content_at(i).clone()).collect()
}

#[test]
fn a_new_store_is_empty() {
    let store = BufferStore::new();
    assert_eq!(store.len(), 0);
    assert!(store.is_empty());
    assert!(!store.contains("a"));
    assert_eq!(store.get("a"), None);
}

#[test]
fn insert_keeps_titles_in_ascending_order() {
    let mut store = BufferStore::new();
    for title in ["pear", "apple", "fig", "Zebra", "apples", "", "b"] {
        assert_eq!(store.insert(title.to_string(), title.to_uppercase()), None);
    }
    assert_eq!(titles(&store), vec!["", "Zebra", "apple", "apples", "b", "fig", "pear"]);
    assert_eq!(contents(&store), vec!["", "ZEBRA", "APPLE", "APPLES", "B", "FIG", "PEAR"]);
    assert_eq!(store.len(), 7);
    assert!(!store.is_empty());
    let mut expected = titles(&store);
    expected.sort();
    assert_eq!(titles(&store), expected);
}

#[test]
fn insert_under_an_existing_title_overwrites() {
    let mut store = BufferStore::new();
    assert_eq!(store.insert("a".to_string(), "first".to_string()), None);
    assert_eq!(store.insert("b".to_string(), "other".to_string()), None);
    assert_eq!(store.insert("a".to_string(), "second".to_string()), Some("first".to_string()));
    assert_eq!(store.len(), 2);
    assert_eq!(store.get("a"), Some(&"second".to_string()));
    assert_eq!(store.get("b"), Some(&"other".to_string()));
}

#[test]
fn get_finds_what_was_inserted() {
    let mut store = BufferStore::new();
    for i in 0..50 {
        store.insert(format!("doc-{}", (i * 37) % 50), format!("text {}", (i * 37) % 50));
    }
    assert_eq!(store.len(), 50);
    for i in 0..50 {
        assert!(store.contains(&format!("doc-{}", i)));
        assert_eq!(store.get(&format!("doc-{}", i)), Some(&format!("text {}", i)));
    }
    assert!(!store.contains("doc-50"));
    assert!(!store.contains("doc"));
    assert_eq!(store.get("doc-"), None);
}

#[test]
fn get_mut_changes_one_text_only() {
    let mut store = BufferStore::new();
    store.insert("a".to_string(), "1".to_string());
    store.insert("b".to_string(), "2".to_string());
    store.get_mut("b").unwrap().push('!');
    *store.get_mut("a").unwrap() = String::from("replaced");
    assert_eq!(store.get("a"), Some(&"replaced".to_string()));
    assert_eq!(store.get("b"), Some(&"2!".to_string()));
    assert!(store.get_mut("c").is_none());
    assert_eq!(titles(&store), vec!["a", "b"]);
}

#[test]
fn remove_hands_the_text_back() {
    let mut store = BufferStore::new();
    store.insert("a".to_string(), "1".to_string());
    store.insert("b".to_string(), "2".to_string());
    store.insert("c".to_string(), "3".to_string());
    assert_eq!(store.remove("b"), Some("2".to_string()));
    assert_eq!(titles(&store), vec!["a", "c"]);
    assert_eq!(contents(&store), vec!["1", "3"]);
    assert!(!store.contains("b"));
}

#[test]
fn remove_of_an_absent_title_is_no_error() {
    let mut store = BufferStore::new();
    assert_eq!(store.remove("a"), None);
    store.insert("a".to_string(), "1".to_string());
    assert_eq!(store.remove("b"), None);
    assert_eq!(store.remove("a"), Some("1".to_string()));
    assert_eq!(store.remove("a"), None);
    assert_eq!(store.len(), 0);
}

#[test]
fn clear_removes_everything() {
    let mut store = BufferStore::new();
    store.insert("a".to_string(), "1".to_string());
    store.insert("b".to_string(), "2".to_string());
    store.clear();
    assert_eq!(store.len(), 0);
    assert!(store.is_empty());
    assert_eq!(store.get("a"), None);
    store.clear();
    assert!(store.is_empty());
}

#[test]
fn titles_are_ordered_byte_by_byte() {
    assert_eq!(title_order("a", "b"), TitleOrder::Before);
    assert_eq!(title_order("b", "a"), TitleOrder::After);
    assert_eq!(title_order("a", "a"), TitleOrder::Same);
    assert_eq!(title_order("", ""), TitleOrder::Same);
    assert_eq!(title_order("", "a"), TitleOrder::Before);
    assert_eq!(title_order("a", ""), TitleOrder::After);
    assert_eq!(title_order("ab", "abc"), TitleOrder::Before);
    assert_eq!(title_order("abd", "abc"), TitleOrder::After);
    assert_eq!(title_order("Z", "a"), TitleOrder::Before);
    assert_eq!(title_order("Untitled-10", "Untitled-2"), TitleOrder::Before);
    assert_eq!(title_order("z", "\u{e9}"), TitleOrder::Before);
    assert_eq!(title_order("\u{e9}", "\u{4e2d}"), TitleOrder::Before);
    assert_eq!(title_order("\u{1f600}", "\u{4e2d}"), TitleOrder::After);
}

#[test]
fn title_order_is_the_order_of_strings() {
    let samples = ["", "a", "A", "ab", "b", "Untitled-1", "Untitled-10", "Untitled-2", "\u{e9}", "z\u{e9}", "~"];
    for a in samples {
        for b in samples {
            let expected = if a < b {
                TitleOrder::Before
            } else if a == b {
                TitleOrder::Same
            } else {
                TitleOrder::After
            };
            assert_eq!(title_order(a, b), expected);
        }
    }
}
