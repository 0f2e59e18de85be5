//! The four request handlers. Each takes the store and what the transport
//! has already decoded, performs one operation, and says what to answer:
//! a status code and what the body is to hold.

use crate::ident::is_uuid_v4;
use crate::item::{item_views, TodoItem};
use crate::model::{flip, fresh, has_id, position, toggled, without, TodoView};
use crate::store::Store;
use vstd::prelude::*;

verus! {

/// The status of an answer to a request that was carried out.
pub const STATUS_OK: u16 = 200;

/// The status of an answer to a request that names an unknown identifier.
pub const STATUS_NOT_FOUND: u16 = 404;

/// The decoded body of a creation request.
#[derive(Debug)]
pub struct CreateTodo {
    pub title: String,
}

/// What the body of an answer holds.
#[derive(Debug)]
pub enum Body {
    /// Nothing at all.
    Empty,
    /// One item.
    Item(TodoItem),
    /// A list of items.
    Items(Vec<TodoItem>),
}

/// An answer: the status code and the body.
#[derive(Debug)]
pub struct Reply {
    pub status: u16,
    pub body: Body,
}

/// A body, apart from how it is held in memory.
pub ghost enum BodyView {
    Empty,
    Item(TodoView),
    Items(Seq<TodoView>),
}

/// An answer, apart from how it is held in memory.
pub ghost struct ReplyView {
    pub status: int,
    pub body: BodyView,
}

impl View for Body {
    type V = BodyView;

    open spec fn view(&self) -> BodyView {
        match self {
            Body::Empty => BodyView::Empty,
            Body::Item(item) => BodyView::Item(item@),
            Body::Items(items) => BodyView::Items(item_views(items@)),
        }
    }
}

impl View for Reply {
    type V = ReplyView;

    open spec fn view(&self) -> ReplyView {
        ReplyView { status: self.status as int, body: self.body@ }
    }
}

/// The answer to a listing of the store `s`.
pub open spec fn listing_reply(s: Seq<TodoView>) -> ReplyView {
    ReplyView { status: 200, body: BodyView::Items(s) }
}

/// The answer to a creation that appended `item`.
pub open spec fn creation_reply(item: TodoView) -> ReplyView {
    ReplyView { status: 200, body: BodyView::Item(item) }
}

/// The answer to a toggle of `id` on the store `s`: the flipped item, or
/// 404 with nothing where no item carries `id`.
pub open spec fn toggle_reply(s: Seq<TodoView>, id: Seq<char>) -> ReplyView {
    if has_id(s, id) {
        ReplyView { status: 200, body: BodyView::Item(flip(s[position(s, id)])) }
    } else {
        ReplyView { status: 404, body: BodyView::Empty }
    }
}

/// The answer to a deletion of `id` from the store `s`: nothing, with 200
/// where an item carried `id` and 404 where none did.
pub open spec fn deletion_reply(s: Seq<TodoView>, id: Seq<char>) -> ReplyView {
    ReplyView { status: if has_id(s, id) { 200 } else { 404 }, body: BodyView::Empty }
}

/// Lists every item, in insertion order.
pub fn get_todos(store: &Store) -> (reply: Reply)
    ensures
        reply@ == listing_reply(store@),
{
    Reply { status: STATUS_OK, body: Body::Items(store.list()) }
}

/// Appends a new, not yet completed item with the title of the request
/// under a newly drawn version 4 UUID, and answers with that item, which is
/// then the last of the store.
pub fn create_todo(store: &mut Store, req: CreateTodo) -> (reply: Reply)
    ensures
        final(store)@ == old(store)@.push(fresh(final(store)@.last().id, req.title@)),
        is_uuid_v4(final(store)@.last().id),
        reply@ == creation_reply(final(store)@.last()),
{
    let item = store.create(req.title);
    Reply { status: STATUS_OK, body: Body::Item(item) }
}

/// Flips the completion flag of the first item that carries `id` and
/// answers with the item as it then is; answers 404, and changes nothing,
/// where no item carries `id`.
pub fn toggle_todo(store: &mut Store, id: &str) -> (reply: Reply)
    ensures
        reply@ == toggle_reply(old(store)@, id@),
        final(store)@ == toggled(old(store)@, id@),
        reply.status == 404 ==> final(store)@ == old(store)@,
{
    match store.toggle(id) {
        Ok(item) => Reply { status: STATUS_OK, body: Body::Item(item) },
        Err(_) => Reply { status: STATUS_NOT_FOUND, body: Body::Empty },
    }
}

/// Removes every item that carries `id`; answers 404, and changes
/// nothing, where no item does.
pub fn delete_todo(store: &mut Store, id: &str) -> (reply: Reply)
    ensures
        reply@ == deletion_reply(old(store)@, id@),
        final(store)@ == without(old(store)@, id@),
        reply.status == 404 ==> final(store)@ == old(store)@,
{
    match store.remove(id) {
        Ok(()) => Reply { status: STATUS_OK, body: Body::Empty },
        Err(_) => Reply { status: STATUS_NOT_FOUND, body: Body::Empty },
    }
}

} // verus!
