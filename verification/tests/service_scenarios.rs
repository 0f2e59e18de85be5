use todo_backend::item::TodoItem;
use todo_backend::service::{
    create_todo, delete_todo, get_todos, toggle_todo, Body, CreateTodo, Reply, STATUS_NOT_FOUND,
    STATUS_OK,
};
use todo_backend::store::Store;
use uuid::Uuid;

fn post(store: &mut Store, title: &str) -> TodoItem {
    let reply = create_todo(store, CreateTodo { title: title.to_string() });
    assert_eq!(reply.status, 200);
    match reply.body {
        Body::Item(item) => item,
        other => panic!("a creation answers with one item, not {:?}", other),
    }
}

fn listed(store: &Store) -> Vec<TodoItem> {
    let reply = get_todos(store);
    assert_eq!(reply.status, 200);
    match reply.body {
        Body::Items(items) => items,
        other => panic!("a listing answers with a list, not {:?}", other),
    }
}

fn is_empty_with(reply: &Reply, status: u16) -> bool {
    reply.status == status && matches!(reply.body, Body::Empty)
}

#[test]
fn status_codes() {
    assert_eq!(STATUS_OK, 200);
    assert_eq!(STATUS_NOT_FOUND, 404);
}

#[test]
fn get_on_empty_store_is_an_empty_list() {
    let store = Store::new();
    let reply = get_todos(&store);
    assert_eq!(reply.status, 200);
    assert!(matches!(reply.body, Body::Items(ref items) if items.is_empty()));
}

#[test]
fn post_then_get_lists_the_item() {
    let mut store = Store::new();
    let i1 = post(&mut store, "buy milk");
    assert_eq!(i1.title, "buy milk");
    assert!(!i1.completed);
    assert!(Uuid::parse_str(&i1.id).is_ok());
    assert_eq!(listed(&store), vec![i1]);
}

#[test]
fn two_posts_then_get_in_insertion_order() {
    let mut store = Store::new();
    let a = post(&mut store, "a");
    let b = post(&mut store, "b");
    assert_ne!(a.id, b.id);
    let items = listed(&store);
    assert_eq!(items.len(), 2);
    assert_eq!(items[0].title, "a");
    assert_eq!(items[1].title, "b");
    assert_eq!(items, vec![a, b]);
}

#[test]
fn post_put_put_flips_twice() {
    let mut store = Store::new();
    let i1 = post(&mut store, "x");

    let reply = toggle_todo(&mut store, &i1.id);
    assert_eq!(reply.status, 200);
    match reply.body {
        Body::Item(item) => {
            assert_eq!(item.id, i1.id);
            assert_eq!(item.title, "x");
            assert!(item.completed);
        }
        other => panic!("a toggle answers with one item, not {:?}", other),
    }
    assert!(listed(&store)[0].completed);

    let reply = toggle_todo(&mut store, &i1.id);
    assert_eq!(reply.status, 200);
    match reply.body {
        Body::Item(item) => assert_eq!(item, i1),
        other => panic!("a toggle answers with one item, not {:?}", other),
    }
    assert_eq!(listed(&store), vec![i1]);
}

#[test]
fn post_delete_get_delete() {
    let mut store = Store::new();
    let i1 = post(&mut store, "x");

    let reply = delete_todo(&mut store, &i1.id);
    assert!(is_empty_with(&reply, 200));
    assert!(listed(&store).is_empty());

    let reply = delete_todo(&mut store, &i1.id);
    assert!(is_empty_with(&reply, 404));
    assert!(listed(&store).is_empty());
}

#[test]
fn put_unknown_id_on_empty_store_is_404() {
    let mut store = Store::new();
    let reply = toggle_todo(&mut store, "deadbeef-dead-beef-dead-beefdeadbeef");
    assert!(is_empty_with(&reply, 404));
    assert!(listed(&store).is_empty());
}

#[test]
fn unknown_id_leaves_a_filled_store_unchanged() {
    let mut store = Store::new();
    let a = post(&mut store, "a");
    let b = post(&mut store, "b");
    let unknown = "deadbeef-dead-beef-dead-beefdeadbeef";
    assert!(is_empty_with(&toggle_todo(&mut store, unknown), 404));
    assert!(is_empty_with(&delete_todo(&mut store, unknown), 404));
    assert_eq!(listed(&store), vec![a, b]);
}

#[test]
fn put_after_delete_is_404() {
    let mut store = Store::new();
    let a = post(&mut store, "a");
    let b = post(&mut store, "b");
    assert!(is_empty_with(&delete_todo(&mut store, &a.id), 200));
    assert!(is_empty_with(&toggle_todo(&mut store, &a.id), 404));
    assert_eq!(listed(&store), vec![b]);
}

#[test]
fn delete_in_the_middle_keeps_the_order_of_the_rest() {
    let mut store = Store::new();
    let a = post(&mut store, "a");
    let b = post(&mut store, "b");
    let c = post(&mut store, "c");
    assert!(is_empty_with(&delete_todo(&mut store, &b.id), 200));
    assert_eq!(listed(&store), vec![a, c]);
}

#[test]
fn post_accepts_an_empty_title() {
    let mut store = Store::new();
    let item = post(&mut store, "");
    assert_eq!(item.title, "");
    assert_eq!(listed(&store), vec![item]);
}
