//! The store: the items in the order they were created.

use crate::ident::{fresh_id, is_uuid_v4};
use crate::item::{item_views, TodoItem};
use crate::laws::{
    law_remove_drops_one, law_remove_keeps_ids_distinct, law_remove_leaves_no_such_id,
    law_toggle_keeps_ids_and_titles,
};
use crate::model::{
    flip, fresh, has_id, ids_distinct, lemma_has_id_push, lemma_ids_distinct_push, lemma_position,
    lemma_position_is, lemma_without_push, position, toggled, without, TodoView,
};
use vstd::prelude::*;

verus! {

/// Why an operation on the store did nothing.
#[derive(Debug, Clone, Copy, PartialEq, Eq, Structural)]
pub enum StoreError {
    /// No item carries the identifier that was asked for.
    NotFound,
}

/// An ordered list of items. Creation appends; nothing ever reorders.
pub struct Store {
    todos: Vec<TodoItem>,
}

impl View for Store {
    type V = Seq<TodoView>;

    closed spec fn view(&self) -> Seq<TodoView> {
        item_views(self.todos@)
    }
}

impl Store {
    /// The empty store.
    pub fn new() -> (store: Store)
        ensures
            store@ == Seq::<TodoView>::empty(),
    {
        let store = Store { todos: Vec::new() };
        assert(store@ =~= Seq::<TodoView>::empty());
        store
    }

    /// A copy of every item, in insertion order.
    pub fn list(&self) -> (items: Vec<TodoItem>)
        ensures
            item_views(items@) == self@,
    {
        let mut items: Vec<TodoItem> = Vec::new();
        let mut i: usize = 0;
        while i < self.todos.len()
            invariant
                0 <= i <= self.todos.len(),
                items.len() == i,
                forall|j: int| 0 <= j < i ==> items[j] == self.todos[j],
            decreases self.todos.len() - i,
        {
            items.push(self.todos[i].clone());
            i += 1;
        }
        assert(item_views(items@) =~= self@);
        items
    }

    /// Appends a new, not yet completed item under the identifier given,
    /// whether or not an item of the store already carries it, and returns
    /// a copy of that item.
    pub fn create_with_id(&mut self, id: String, title: String) -> (item: TodoItem)
        ensures
            item.id == id,
            item.title == title,
            item@ == fresh(id@, title@),
            final(self)@ == old(self)@.push(item@),
            ids_distinct(old(self)@) && !has_id(old(self)@, id@) ==> ids_distinct(final(self)@),
    {
        let item = TodoItem::new(id, title);
        let copy = item.clone();
        self.todos.push(item);
        proof {
            assert(self@ =~= old(self)@.push(copy@));
            lemma_ids_distinct_push(old(self)@, copy@);
        }
        copy
    }

    /// Appends a new, not yet completed item with the given title under a
    /// newly drawn version 4 UUID, and returns a copy of that item.
    pub fn create(&mut self, title: String) -> (item: TodoItem)
        ensures
            item.title == title,
            is_uuid_v4(item@.id),
            item@ == fresh(item@.id, title@),
            final(self)@ == old(self)@.push(item@),
            ids_distinct(old(self)@) && !has_id(old(self)@, item@.id)
                ==> ids_distinct(final(self)@),
    {
        let id = fresh_id();
        self.create_with_id(id, title)
    }

    /// Flips the completion flag of the first item that carries `id` and
    /// returns a copy of the item as it then is. Without such an item the
    /// store is left as it was.
    pub fn toggle(&mut self, id: &str) -> (outcome: Result<TodoItem, StoreError>)
        ensures
            final(self)@ == toggled(old(self)@, id@),
            outcome is Ok <==> has_id(old(self)@, id@),
            outcome matches Ok(item) ==> item@ == flip(old(self)@[position(old(self)@, id@)]),
            outcome matches Err(e) ==> e == StoreError::NotFound && final(self)@ == old(self)@,
            final(self)@.len() == old(self)@.len(),
            ids_distinct(old(self)@) ==> ids_distinct(final(self)@),
    {
        proof {
            law_toggle_keeps_ids_and_titles(self@, id@);
        }
        let key = id.to_owned();
        let mut i: usize = 0;
        while i < self.todos.len()
            invariant
                0 <= i <= self.todos.len(),
                key@ == id@,
                self.todos == old(self).todos,
                forall|j: int| 0 <= j < i ==> (#[trigger] self@[j]).id != id@,
            decreases self.todos.len() - i,
        {
            if self.todos[i].id == key {
                proof {
                    lemma_position_is(self@, id@, i as int);
                    lemma_position(self@, id@);
                }
                let done = !self.todos[i].completed;
                self.todos[i].completed = done;
                let item = self.todos[i].clone();
                assert(self@ =~= old(self)@.update(i as int, item@));
                return Ok(item);
            }
            i += 1;
        }
        proof {
            lemma_position_is(self@, id@, i as int);
            lemma_position(self@, id@);
        }
        Err(StoreError::NotFound)
    }

    /// Removes every item that carries `id`, keeping the others in their
    /// order. Without such an item the store is left as it was.
    pub fn remove(&mut self, id: &str) -> (outcome: Result<(), StoreError>)
        ensures
            final(self)@ == without(old(self)@, id@),
            outcome is Ok <==> has_id(old(self)@, id@),
            outcome matches Err(e) ==> e == StoreError::NotFound && final(self)@ == old(self)@,
            !has_id(final(self)@, id@),
            ids_distinct(old(self)@) ==> ids_distinct(final(self)@),
            ids_distinct(old(self)@) && has_id(old(self)@, id@)
                ==> final(self)@ == old(self)@.remove(position(old(self)@, id@)),
            ids_distinct(old(self)@) && has_id(old(self)@, id@)
                ==> final(self)@.len() == old(self)@.len() - 1,
    {
        proof {
            law_remove_leaves_no_such_id(self@, id@);
            if ids_distinct(self@) {
                law_remove_keeps_ids_distinct(self@, id@);
                if has_id(self@, id@) {
                    law_remove_drops_one(self@, id@);
                }
            }
        }
        let key = id.to_owned();
        let ghost before = self@;
        let ghost seen: int = 0;
        let mut found = false;
        let mut i: usize = 0;
        proof {
            reveal(Seq::filter);
            assert(before.take(0) =~= Seq::<TodoView>::empty());
            assert(before.skip(0) =~= before);
            assert(without(before.take(0), id@) + before.skip(0) =~= self@);
        }
        while i < self.todos.len()
            invariant
                key@ == id@,
                before == old(self)@,
                0 <= seen <= before.len(),
                0 <= i <= self.todos.len(),
                i == without(before.take(seen), id@).len(),
                self@ == without(before.take(seen), id@) + before.skip(seen),
                found <==> has_id(before.take(seen), id@),
                !found ==> self@ == before,
            decreases before.len() - seen,
        {
            let ghost kept = without(before.take(seen), id@);
            let ghost head = before[seen];
            proof {
                assert(self@[i as int] == before.skip(seen)[0]);
                assert(before.take(seen + 1) =~= before.take(seen).push(head));
                lemma_without_push(before.take(seen), head, id@);
                lemma_has_id_push(before.take(seen), head, id@);
            }
            if self.todos[i].id == key {
                let ghost whole = self@;
                self.todos.remove(i);
                found = true;
                assert(self@ =~= whole.remove(i as int));
                assert(self@ =~= kept + before.skip(seen + 1));
            } else {
                i += 1;
                assert(self@ =~= kept.push(head) + before.skip(seen + 1));
            }
            proof {
                seen = seen + 1;
            }
        }
        proof {
            assert(before.take(seen) =~= before);
            assert(before.skip(seen) =~= Seq::<TodoView>::empty());
            assert(self@ =~= without(before, id@));
        }
        if found {
            Ok(())
        } else {
            Err(StoreError::NotFound)
        }
    }
}

} // verus!
