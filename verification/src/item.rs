//! The item as it is held in memory, and its view as a `TodoView`.

use crate::model::TodoView;
use vstd::prelude::*;
use vstd::std_specs::cmp::PartialEqSpecImpl;

verus! {

/// One entry of the list: an opaque identifier, a title kept verbatim, and
/// whether the entry is done.
#[derive(Debug)]
pub struct TodoItem {
    pub id: String,
    pub title: String,
    pub completed: bool,
}

impl View for TodoItem {
    type V = TodoView;

    open spec fn view(&self) -> TodoView {
        TodoView { id: self.id@, title: self.title@, completed: self.completed }
    }
}

/// The views of a run of items, in order.
pub open spec fn item_views(items: Seq<TodoItem>) -> Seq<TodoView> {
    items.map_values(|t: TodoItem| t@)
}

impl TodoItem {
    /// An item that is not yet completed.
    pub fn new(id: String, title: String) -> (item: TodoItem)
        ensures
            item@ == crate::model::fresh(id@, title@),
            item.id == id,
            item.title == title,
    {
        TodoItem { id, title, completed: false }
    }
}

impl Clone for TodoItem {
    fn clone(&self) -> (copy: TodoItem)
        ensures
            copy == *self,
    {
        TodoItem { id: self.id.clone(), title: self.title.clone(), completed: self.completed }
    }
}

impl PartialEq for TodoItem {
    fn eq(&self, other: &TodoItem) -> (same: bool) {
        self.id == other.id && self.title == other.title && self.completed == other.completed
    }
}

impl PartialEqSpecImpl for TodoItem {
    open spec fn obeys_eq_spec() -> bool {
        true
    }

    open spec fn eq_spec(&self, other: &TodoItem) -> bool {
        self@ == other@
    }
}

impl Eq for TodoItem {

}

} // verus!
