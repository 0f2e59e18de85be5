use todo_backend::item::TodoItem;
use todo_backend::store::{Store, StoreError};
use uuid::Uuid;

fn titles(items: &[TodoItem]) -> Vec<String> {
    items.iter().map(|t| t.title.clone()).collect()
}

fn ids(items: &[TodoItem]) -> Vec<String> {
    items.iter().map(|t| t.id.clone()).collect()
}

fn filled(pairs: &[(&str, &str)]) -> Store {
    let mut store = Store::new();
    for (id, title) in pairs {
        store.create_with_id(id.to_string(), title.to_string());
    }
    store
}

#[test]
fn new_store_lists_nothing() {
    let store = Store::new();
    assert!(store.list().is_empty());
}

#[test]
fn create_appends_last_with_title_and_open_flag() {
    let mut store = filled(&[("k1", "first"), ("k2", "second")]);
    let before = store.list();
    let item = store.create("buy milk".to_string());
    assert_eq!(item.title, "buy milk");
    assert!(!item.completed);
    let after = store.list();
    assert_eq!(after.len(), before.len() + 1);
    assert_eq!(&after[..before.len()], &before[..]);
    assert_eq!(after[before.len()], item);
}

#[test]
fn created_identifier_is_a_canonical_version_4_uuid() {
    let mut store = Store::new();
    for _ in 0..64 {
        let item = store.create("x".to_string());
        assert_eq!(item.id.len(), 36);
        let parsed = Uuid::parse_str(&item.id).expect("the identifier parses as a UUID");
        assert_eq!(parsed.get_version_num(), 4);
        assert_eq!(parsed.to_string(), item.id);
        let bytes = item.id.as_bytes();
        for (i, b) in bytes.iter().enumerate() {
            if i == 8 || i == 13 || i == 18 || i == 23 {
                assert_eq!(*b, b'-');
            } else {
                assert!(b.is_ascii_digit() || (b'a'..=b'f').contains(b));
            }
        }
        assert_eq!(bytes[14], b'4');
        assert!(matches!(bytes[19], b'8' | b'9' | b'a' | b'b'));
    }
}

#[test]
fn created_identifiers_differ_from_one_another() {
    let mut store = Store::new();
    let mut seen: Vec<String> = Vec::new();
    for n in 0..200 {
        let item = store.create(format!("item {}", n));
        assert!(!seen.contains(&item.id));
        seen.push(item.id);
    }
    assert_eq!(ids(&store.list()), seen);
}

#[test]
fn create_with_id_appends_the_item_it_returns() {
    let mut store = Store::new();
    let item = store.create_with_id("k1".to_string(), "write".to_string());
    assert_eq!(
        item,
        TodoItem { id: "k1".to_string(), title: "write".to_string(), completed: false }
    );
    assert_eq!(store.list(), vec![item]);
}

#[test]
fn create_keeps_insertion_order() {
    let mut store = Store::new();
    let a = store.create("a".to_string());
    let b = store.create("b".to_string());
    let c = store.create("c".to_string());
    assert_eq!(store.list(), vec![a, b, c]);
}

#[test]
fn titles_are_kept_verbatim() {
    let long = "x".repeat(100_000);
    let given = vec![
        String::new(),
        "  padded  ".to_string(),
        "tab\there\nnewline".to_string(),
        "caf\u{e9} \u{1f600} \u{0}".to_string(),
        "{\"title\":\"nested\"}".to_string(),
        long,
    ];
    let mut store = Store::new();
    for t in &given {
        let item = store.create(t.clone());
        assert_eq!(&item.title, t);
    }
    assert_eq!(titles(&store.list()), given);
}

#[test]
fn list_is_a_snapshot() {
    let mut store = filled(&[("k1", "one")]);
    let snapshot = store.list();
    store.toggle("k1").unwrap();
    store.create_with_id("k2".to_string(), "two".to_string());
    assert_eq!(snapshot.len(), 1);
    assert!(!snapshot[0].completed);
    assert_eq!(store.list().len(), 2);
}

#[test]
fn toggle_flips_the_flag_and_keeps_id_and_title() {
    let mut store = filled(&[("k1", "one"), ("k2", "two"), ("k3", "three")]);
    let toggled = store.toggle("k2").unwrap();
    assert_eq!(
        toggled,
        TodoItem { id: "k2".to_string(), title: "two".to_string(), completed: true }
    );
    let items = store.list();
    assert_eq!(ids(&items), vec!["k1", "k2", "k3"]);
    assert_eq!(titles(&items), vec!["one", "two", "three"]);
    assert_eq!(items.iter().map(|t| t.completed).collect::<Vec<_>>(), vec![false, true, false]);
}

#[test]
fn toggle_twice_restores_the_store() {
    let mut store = filled(&[("k1", "one"), ("k2", "two")]);
    store.toggle("k1").unwrap();
    let before = store.list();
    let once = store.toggle("k2").unwrap();
    assert!(once.completed);
    let twice = store.toggle("k2").unwrap();
    assert!(!twice.completed);
    assert_eq!(store.list(), before);
}

#[test]
fn toggle_of_unknown_id_is_not_found_and_changes_nothing() {
    let mut store = filled(&[("k1", "one"), ("k2", "two")]);
    let before = store.list();
    assert_eq!(store.toggle("k3"), Err(StoreError::NotFound));
    assert_eq!(store.toggle(""), Err(StoreError::NotFound));
    assert_eq!(store.toggle("K1"), Err(StoreError::NotFound));
    assert_eq!(store.toggle("k1 "), Err(StoreError::NotFound));
    assert_eq!(store.list(), before);
}

#[test]
fn toggle_on_empty_store_is_not_found() {
    let mut store = Store::new();
    assert_eq!(store.toggle("deadbeef-dead-beef-dead-beefdeadbeef"), Err(StoreError::NotFound));
    assert!(store.list().is_empty());
}

#[test]
fn remove_drops_exactly_that_item_and_keeps_the_order() {
    let mut store = filled(&[("k1", "one"), ("k2", "two"), ("k3", "three"), ("k4", "four")]);
    store.toggle("k3").unwrap();
    let before = store.list();
    assert_eq!(store.remove("k2"), Ok(()));
    let after = store.list();
    assert_eq!(after.len(), before.len() - 1);
    assert_eq!(after, vec![before[0].clone(), before[2].clone(), before[3].clone()]);
    assert!(after.iter().all(|t| t.id != "k2"));
}

#[test]
fn remove_of_first_and_last_item() {
    let mut store = filled(&[("k1", "one"), ("k2", "two"), ("k3", "three")]);
    assert_eq!(store.remove("k1"), Ok(()));
    assert_eq!(ids(&store.list()), vec!["k2", "k3"]);
    assert_eq!(store.remove("k3"), Ok(()));
    assert_eq!(ids(&store.list()), vec!["k2"]);
    assert_eq!(store.remove("k2"), Ok(()));
    assert!(store.list().is_empty());
}

#[test]
fn remove_of_unknown_id_is_not_found_and_changes_nothing() {
    let mut store = filled(&[("k1", "one"), ("k2", "two")]);
    let before = store.list();
    assert_eq!(store.remove("k3"), Err(StoreError::NotFound));
    assert_eq!(store.remove(""), Err(StoreError::NotFound));
    assert_eq!(store.list(), before);
    let mut empty = Store::new();
    assert_eq!(empty.remove("k1"), Err(StoreError::NotFound));
    assert!(empty.list().is_empty());
}

#[test]
fn toggle_after_remove_is_not_found() {
    let mut store = Store::new();
    let item = store.create("x".to_string());
    assert_eq!(store.remove(&item.id), Ok(()));
    assert_eq!(store.toggle(&item.id), Err(StoreError::NotFound));
    assert_eq!(store.remove(&item.id), Err(StoreError::NotFound));
}

#[test]
fn equal_identifiers_toggle_hits_the_first_and_remove_drops_all() {
    let mut store = filled(&[("k1", "one"), ("dup", "two"), ("k3", "three"), ("dup", "four")]);
    let hit = store.toggle("dup").unwrap();
    assert_eq!(hit.title, "two");
    assert!(hit.completed);
    let items = store.list();
    assert!(items[1].completed);
    assert!(!items[3].completed);
    assert_eq!(store.remove("dup"), Ok(()));
    assert_eq!(titles(&store.list()), vec!["one", "three"]);
}

#[test]
fn operations_on_different_identifiers_commute() {
    let start = [("k1", "one"), ("k2", "two"), ("k3", "three")];

    let mut left = filled(&start);
    left.toggle("k1").unwrap();
    left.remove("k2").unwrap();
    left.create_with_id("k4".to_string(), "four".to_string());
    left.create_with_id("k5".to_string(), "five".to_string());

    let mut right = filled(&start);
    right.create_with_id("k5".to_string(), "five".to_string());
    right.remove("k2").unwrap();
    right.create_with_id("k4".to_string(), "four".to_string());
    right.toggle("k1").unwrap();

    let mut l = left.list();
    let mut r = right.list();
    assert_eq!(&l[..2], &r[..2]);
    l.sort_by(|a, b| a.id.cmp(&b.id));
    r.sort_by(|a, b| a.id.cmp(&b.id));
    assert_eq!(l, r);
}

#[derive(Clone, Copy)]
enum Act {
    Create(&'static str, &'static str),
    Toggle(&'static str),
    Remove(&'static str),
}

fn carry_out(store: &mut Store, acts: &[Act]) {
    for act in acts {
        match *act {
            Act::Create(id, title) => {
                store.create_with_id(id.to_string(), title.to_string());
            }
            Act::Toggle(id) => {
                let _ = store.toggle(id);
            }
            Act::Remove(id) => {
                let _ = store.remove(id);
            }
        }
    }
}

fn sorted_by_id(mut items: Vec<TodoItem>) -> Vec<TodoItem> {
    items.sort_by(|a, b| a.id.cmp(&b.id));
    items
}

#[test]
fn every_order_of_operations_on_different_identifiers_leaves_the_same_items() {
    let start = [("k1", "one"), ("k2", "two"), ("k3", "three")];
    let acts = [
        Act::Toggle("k1"),
        Act::Remove("k2"),
        Act::Create("k4", "four"),
        Act::Create("k5", "five"),
        Act::Toggle("k9"),
    ];
    let mut reference = filled(&start);
    carry_out(&mut reference, &acts);
    let expected = sorted_by_id(reference.list());
    assert_eq!(
        expected,
        vec![
            TodoItem { id: "k1".to_string(), title: "one".to_string(), completed: true },
            TodoItem { id: "k3".to_string(), title: "three".to_string(), completed: false },
            TodoItem { id: "k4".to_string(), title: "four".to_string(), completed: false },
            TodoItem { id: "k5".to_string(), title: "five".to_string(), completed: false },
        ]
    );

    let n = acts.len();
    let mut order: Vec<usize> = (0..n).collect();
    let mut counters = vec![0usize; n];
    let mut orders_seen = 1;
    let mut i = 0;
    while i < n {
        if counters[i] < i {
            if i % 2 == 0 {
                order.swap(0, i);
            } else {
                order.swap(counters[i], i);
            }
            let permuted: Vec<Act> = order.iter().map(|&k| acts[k]).collect();
            let mut store = filled(&start);
            carry_out(&mut store, &permuted);
            assert_eq!(sorted_by_id(store.list()), expected);
            orders_seen += 1;
            counters[i] += 1;
            i = 0;
        } else {
            counters[i] = 0;
            i += 1;
        }
    }
    assert_eq!(orders_seen, 120);
}

#[test]
fn distinct_identifiers_stay_distinct() {
    let mut store = filled(&[("k1", "one"), ("k2", "two"), ("k3", "three")]);
    store.toggle("k2").unwrap();
    store.remove("k1").unwrap();
    store.create_with_id("k1".to_string(), "again".to_string());
    store.create("drawn".to_string());
    store.toggle("k1").unwrap();
    let mut seen = ids(&store.list());
    let before = seen.len();
    seen.sort();
    seen.dedup();
    assert_eq!(seen.len(), before);
    assert_eq!(before, 4);
}
