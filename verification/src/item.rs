//! A single task of a session.

use vstd::prelude::*;

verus! {

/// One task: an identifier that is unique within its session, a label, and
/// whether the task is done.
#[derive(Debug, PartialEq, Eq)]
pub struct TodoItem {
    pub id: u64,
    pub label: String,
    pub completed: bool,
}

/// What a task is, with its label as a sequence of characters.
pub struct ItemView {
    pub id: u64,
    pub label: Seq<char>,
    pub completed: bool,
}

impl View for TodoItem {
    type V = ItemView;

    open spec fn view(&self) -> ItemView {
        ItemView { id: self.id, label: self.label@, completed: self.completed }
    }
}

impl Clone for TodoItem {
    fn clone(&self) -> (copy: TodoItem)
        ensures
            copy@ == self@,
    {
        TodoItem { id: self.id, label: self.label.clone(), completed: self.completed }
    }
}

/// The tasks of a sequence, each by its view.
pub open spec fn item_views(items: Seq<TodoItem>) -> Seq<ItemView> {
    items.map_values(|item: TodoItem| item@)
}

impl TodoItem {
    /// A task that is not done yet.
    pub fn new(id: u64, label: String) -> (item: TodoItem)
        ensures
            item@ == (ItemView { id, label: label@, completed: false }),
    {
        TodoItem { id, label, completed: false }
    }
}

} // verus!
