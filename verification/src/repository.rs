//! The items of one session: creating, changing, removing and listing them.

use vstd::prelude::*;

use crate::filter::{shown_under, TodoFilter};
use crate::item::{item_views, ItemView, TodoItem};

verus! {

/// The item that an update or a removal names is not in the session.
#[derive(Clone, Copy, Debug, PartialEq, Eq, Structural)]
pub struct NotFound;

/// What a session holds: its items in creation order, and the identifier that
/// the next new item will get.
pub struct ListView {
    pub items: Seq<ItemView>,
    pub next_id: u64,
}

/// An item after an update that changes only the fields it supplies.
pub open spec fn revised(item: ItemView, label: Option<Seq<char>>, completed: Option<bool>) -> ItemView {
    ItemView {
        id: item.id,
        label: if label.is_some() { label.unwrap() } else { item.label },
        completed: if completed.is_some() { completed.unwrap() } else { item.completed },
    }
}

impl ListView {
    /// Identifiers grow along the sequence, so no two items share one, and each
    /// is below the identifier that comes next.
    pub open spec fn well_formed(self) -> bool {
        &&& forall|i: int, j: int|
            0 <= i < j < self.items.len() ==> self.items[i].id < self.items[j].id
        &&& forall|i: int| 0 <= i < self.items.len() ==> self.items[i].id < self.next_id
    }

    /// A session without items.
    pub open spec fn empty() -> ListView {
        ListView { items: Seq::empty(), next_id: 0 }
    }

    /// Whether the session has an item with this identifier.
    pub open spec fn has(self, id: u64) -> bool {
        exists|k: int| 0 <= k < self.items.len() && self.items[k].id == id
    }

    /// The session after a new item with this label was appended.
    pub open spec fn created(self, label: Seq<char>) -> ListView {
        ListView {
            items: self.items.push(ItemView { id: self.next_id, label, completed: false }),
            next_id: (self.next_id + 1) as u64,
        }
    }

    /// The session after the item with this identifier took the supplied fields.
    pub open spec fn updated(self, id: u64, label: Option<Seq<char>>, completed: Option<bool>) -> ListView {
        ListView {
            items: self.items.map_values(
                |item: ItemView| if item.id == id { revised(item, label, completed) } else { item },
            ),
            next_id: self.next_id,
        }
    }

    /// The session after the item with this identifier was removed.
    pub open spec fn destroyed(self, id: u64) -> ListView {
        ListView { items: self.items.filter(|item: ItemView| item.id != id), next_id: self.next_id }
    }
}

/// The labels of an update, as sequences of characters.
pub open spec fn label_view(label: Option<String>) -> Option<Seq<char>> {
    match label {
        Some(text) => Some(text@),
        None => None,
    }
}

/// A filter that every item passes changes nothing.
proof fn lemma_filter_keeps_all(items: Seq<ItemView>, keep: spec_fn(ItemView) -> bool)
    requires
        forall|i: int| 0 <= i < items.len() ==> keep(items[i]),
    ensures
        items.filter(keep) == items,
    decreases items.len(),
{
    reveal(Seq::filter);
    if items.len() > 0 {
        lemma_filter_keeps_all(items.drop_last(), keep);
        assert(items.drop_last().push(items.last()) =~= items);
    }
}

/// Where only the item at `k` has the identifier, dropping the items with that
/// identifier removes exactly the item at `k`.
proof fn lemma_destroy_removes_one(items: Seq<ItemView>, k: int, id: u64)
    requires
        0 <= k < items.len(),
        items[k].id == id,
        forall|j: int| 0 <= j < items.len() && j != k ==> items[j].id != id,
    ensures
        items.filter(|item: ItemView| item.id != id) == items.remove(k),
{
    let keep = |item: ItemView| item.id != id;
    let head = items.subrange(0, k);
    let tail = items.subrange(k + 1, items.len() as int);
    let one = seq![items[k]];
    assert(items =~= head + one + tail);
    Seq::filter_distributes_over_add(head + one, tail, keep);
    Seq::filter_distributes_over_add(head, one, keep);
    lemma_filter_keeps_all(head, keep);
    lemma_filter_keeps_all(tail, keep);
    assert(one.filter(keep) =~= Seq::<ItemView>::empty()) by {
        reveal_with_fuel(Seq::filter, 2);
        assert(one.drop_last() =~= Seq::<ItemView>::empty());
    }
    assert(head + Seq::<ItemView>::empty() + tail =~= items.remove(k));
}

/// A new item joins the others under the identifier that was next, and the
/// session stays well formed.
pub proof fn lemma_created(list: ListView, label: Seq<char>)
    requires
        list.well_formed(),
        list.next_id < u64::MAX,
    ensures
        list.created(label).well_formed(),
        forall|id: u64| #[trigger]
            list.created(label).has(id) <==> list.has(id) || id == list.next_id,
{
    let after = list.created(label);
    assert forall|id: u64| #[trigger] after.has(id) <==> list.has(id) || id == list.next_id by {
        if list.has(id) {
            let k = choose|k: int| 0 <= k < list.items.len() && list.items[k].id == id;
            assert(after.items[k].id == id);
        }
        if id == list.next_id {
            assert(after.items[list.items.len() as int].id == id);
        }
        if after.has(id) {
            let k = choose|k: int| 0 <= k < after.items.len() && after.items[k].id == id;
            if k < list.items.len() {
                assert(list.items[k].id == id);
            }
        }
    }
}

/// An update keeps the identifiers, their order and every item that it does not
/// name.
pub proof fn lemma_updated(list: ListView, id: u64, label: Option<Seq<char>>, completed: Option<bool>)
    requires
        list.well_formed(),
    ensures
        list.updated(id, label, completed).well_formed(),
        list.updated(id, label, completed).items.len() == list.items.len(),
        forall|k: int|
            0 <= k < list.items.len() && list.items[k].id != id ==> #[trigger] list.updated(
                id,
                label,
                completed,
            ).items[k] == list.items[k],
        forall|other: u64| #[trigger]
            list.updated(id, label, completed).has(other) <==> list.has(other),
        !list.has(id) ==> list.updated(id, label, completed) == list,
{
    let after = list.updated(id, label, completed);
    assert forall|other: u64| #[trigger] after.has(other) <==> list.has(other) by {
        if list.has(other) {
            let k = choose|k: int| 0 <= k < list.items.len() && list.items[k].id == other;
            assert(after.items[k].id == other);
        }
        if after.has(other) {
            let k = choose|k: int| 0 <= k < after.items.len() && after.items[k].id == other;
            assert(list.items[k].id == other);
        }
    }
    if !list.has(id) {
        assert(after.items =~= list.items);
    }
}

/// A removal takes out the item that it names and no other, and the session
/// stays well formed.
pub proof fn lemma_destroyed(list: ListView, id: u64)
    requires
        list.well_formed(),
    ensures
        list.destroyed(id).well_formed(),
        forall|other: u64| #[trigger]
            list.destroyed(id).has(other) <==> list.has(other) && other != id,
        !list.has(id) ==> list.destroyed(id) == list,
{
    let after = list.destroyed(id);
    if list.has(id) {
        let k = choose|k: int| 0 <= k < list.items.len() && list.items[k].id == id;
        assert forall|j: int| 0 <= j < list.items.len() && j != k implies list.items[j].id
            != id by {
            if j < k {
                assert(list.items[j].id < list.items[k].id);
            } else {
                assert(list.items[k].id < list.items[j].id);
            }
        }
        lemma_destroy_removes_one(list.items, k, id);
        assert(after.items == list.items.remove(k));
        assert forall|i: int| 0 <= i < after.items.len() implies after.items[i] == (if i < k {
            list.items[i]
        } else {
            list.items[i + 1]
        }) by {}
        assert forall|other: u64| #[trigger] after.has(other) <==> list.has(other) && other
            != id by {
            if list.has(other) && other != id {
                let j = choose|j: int| 0 <= j < list.items.len() && list.items[j].id == other;
                if j < k {
                    assert(after.items[j].id == other);
                } else {
                    assert(after.items[j - 1].id == other);
                }
            }
            if after.has(other) {
                let i = choose|i: int| 0 <= i < after.items.len() && after.items[i].id == other;
                let j = if i < k { i } else { i + 1 };
                assert(list.items[j].id == other);
            }
        }
    } else {
        lemma_filter_keeps_all(list.items, |item: ItemView| item.id != id);
    }
}

/// The items of one session.
#[derive(Debug, PartialEq, Eq)]
pub struct TodoList {
    items: Vec<TodoItem>,
    next_id: u64,
}

impl View for TodoList {
    type V = ListView;

    closed spec fn view(&self) -> ListView {
        ListView { items: item_views(self.items@), next_id: self.next_id }
    }
}

impl TodoList {
    #[verifier::type_invariant]
    spec fn valid(self) -> bool {
        self@.well_formed()
    }

    /// A session without items.
    pub fn new() -> (list: TodoList)
        ensures
            list@ == ListView::empty(),
    {
        let list = TodoList { items: Vec::new(), next_id: 0 };
        assert(list@.items =~= Seq::<ItemView>::empty());
        list
    }

    /// Rebuilds a session from stored items and the identifier that comes next.
    /// The parts are refused unless the identifiers grow along the items and all
    /// lie below the next one.
    pub fn from_parts(items: Vec<TodoItem>, next_id: u64) -> (made: Option<TodoList>)
        ensures
            match made {
                Some(list) => list@ == (ListView { items: item_views(items@), next_id })
                    && list@.well_formed(),
                None => !(ListView { items: item_views(items@), next_id }).well_formed(),
            },
    {
        let ghost parts = ListView { items: item_views(items@), next_id };
        let mut i: usize = 0;
        while i < items.len()
            invariant
                i <= items@.len(),
                parts == (ListView { items: item_views(items@), next_id }),
                forall|a: int, b: int| 0 <= a < b < i ==> items@[a].id < items@[b].id,
                forall|a: int| 0 <= a < i ==> items@[a].id < next_id,
            decreases items@.len() - i,
        {
            if items[i].id >= next_id {
                proof {
                    assert(parts.items[i as int].id >= parts.next_id);
                }
                return None;
            }
            if i > 0 && items[i - 1].id >= items[i].id {
                proof {
                    assert(parts.items[i - 1].id >= parts.items[i as int].id);
                }
                return None;
            }
            proof {
                assert forall|a: int| 0 <= a < i implies items@[a].id < items@[i as int].id by {
                    if a < i - 1 {
                        assert(items@[a].id < items@[i - 1].id);
                    }
                }
            }
            i += 1;
        }
        proof {
            assert forall|a: int, b: int| 0 <= a < b < parts.items.len() implies parts.items[a].id
                < parts.items[b].id by {
                assert(items@[a].id < items@[b].id);
            }
            assert forall|a: int| 0 <= a < parts.items.len() implies parts.items[a].id
                < parts.next_id by {
                assert(items@[a].id < next_id);
            }
        }
        Some(TodoList { items, next_id })
    }

    /// The identifier that the next new item will get.
    pub fn next_id(&self) -> (id: u64)
        ensures
            id == self@.next_id,
    {
        self.next_id
    }

    /// The items, in creation order.
    pub fn items(&self) -> (items: &Vec<TodoItem>)
        ensures
            item_views(items@) == self@.items,
            self@.well_formed(),
    {
        proof {
            use_type_invariant(self);
        }
        &self.items
    }

    /// Where the item with this identifier stands, if the session has it.
    fn position(&self, item_id: u64) -> (found: Option<usize>)
        ensures
            match found {
                Some(k) => k < self.items@.len() && self.items@[k as int].id == item_id,
                None => !self@.has(item_id),
            },
    {
        let mut k: usize = 0;
        while k < self.items.len()
            invariant
                k <= self.items@.len(),
                forall|j: int| 0 <= j < k ==> self.items@[j].id != item_id,
            decreases self.items@.len() - k,
        {
            if self.items[k].id == item_id {
                return Some(k);
            }
            k += 1;
        }
        proof {
            assert forall|j: int| 0 <= j < self@.items.len() implies self@.items[j].id
                != item_id by {
                assert(self@.items[j] == self.items@[j]@);
            }
        }
        None
    }

    /// The item with this identifier, if the session has it.
    pub fn get(&self, item_id: u64) -> (found: Option<&TodoItem>)
        ensures
            match found {
                Some(item) => item.id == item_id && self@.items.contains(item@),
                None => !self@.has(item_id),
            },
    {
        match self.position(item_id) {
            Some(k) => {
                proof {
                    assert(self@.items[k as int] == self.items@[k as int]@);
                }
                Some(&self.items[k])
            },
            None => None,
        }
    }

    /// The items that the filter shows, in creation order.
    pub fn list(&self, filter: TodoFilter) -> (shown: Vec<TodoItem>)
        ensures
            item_views(shown@) == shown_under(self@.items, filter),
    {
        filter.apply(&self.items)
    }

    /// Changes the label, the completion flag or both of the item with this
    /// identifier, and nothing else. Without such an item the session stays as it
    /// is and the update is refused.
    pub fn update(
        &mut self,
        item_id: u64,
        new_label: Option<String>,
        new_completed: Option<bool>,
    ) -> (outcome: Result<(), NotFound>)
        ensures
            outcome.is_ok() == old(self)@.has(item_id),
            final(self)@ == old(self)@.updated(item_id, label_view(new_label), new_completed),
            final(self)@.well_formed(),
            outcome.is_err() ==> final(self)@ == old(self)@,
    {
        proof {
            use_type_invariant(&*self);
        }
        let ghost before = self@;
        let ghost after = before.updated(item_id, label_view(new_label), new_completed);
        match self.position(item_id) {
            None => {
                proof {
                    assert(after.items =~= before.items);
                }
                Err(NotFound)
            },
            Some(k) => {
                proof {
                    assert(before.items[k as int] == self.items@[k as int]@);
                }
                let mut items: Vec<TodoItem> = Vec::new();
                std::mem::swap(&mut items, &mut self.items);
                let ghost stored = items@;
                let label = match new_label {
                    Some(text) => text,
                    None => items[k].label.clone(),
                };
                let completed = match new_completed {
                    Some(flag) => flag,
                    None => items[k].completed,
                };
                items.set(k, TodoItem { id: item_id, label, completed });
                proof {
                    assert forall|j: int| 0 <= j < after.items.len() implies item_views(items@)[j]
                        == after.items[j] by {
                        assert(before.items[j] == stored[j]@);
                        if j < k as int {
                            assert(before.items[j].id < before.items[k as int].id);
                        } else if j > k as int {
                            assert(before.items[k as int].id < before.items[j].id);
                        }
                    }
                    assert(item_views(items@) =~= after.items);
                }
                self.items = items;
                Ok(())
            },
        }
    }

    /// Removes the item with this identifier; the others keep their order.
    /// Without such an item the session stays as it is and the removal is
    /// refused.
    pub fn destroy(&mut self, item_id: u64) -> (outcome: Result<(), NotFound>)
        ensures
            outcome.is_ok() == old(self)@.has(item_id),
            final(self)@ == old(self)@.destroyed(item_id),
            final(self)@.well_formed(),
            outcome.is_err() ==> final(self)@ == old(self)@,
    {
        proof {
            use_type_invariant(&*self);
        }
        let ghost before = self@;
        match self.position(item_id) {
            None => {
                proof {
                    lemma_filter_keeps_all(before.items, |item: ItemView| item.id != item_id);
                }
                Err(NotFound)
            },
            Some(k) => {
                proof {
                    assert(before.items[k as int] == self.items@[k as int]@);
                    assert forall|j: int| 0 <= j < before.items.len() && j != k implies before.items[j].id
                        != item_id by {
                        if j < k as int {
                            assert(before.items[j].id < before.items[k as int].id);
                        } else {
                            assert(before.items[k as int].id < before.items[j].id);
                        }
                    }
                    lemma_destroy_removes_one(before.items, k as int, item_id);
                }
                let mut items: Vec<TodoItem> = Vec::new();
                std::mem::swap(&mut items, &mut self.items);
                let _ = items.remove(k);
                proof {
                    assert(item_views(items@) =~= before.items.remove(k as int));
                }
                self.items = items;
                Ok(())
            },
        }
    }

    /// Appends a new item with the given label and a false completion flag, under
    /// an identifier that no item of the session has or ever had.
    pub fn create(&mut self, label: String) -> (item: TodoItem)
        requires
            old(self)@.next_id < u64::MAX,
        ensures
            final(self)@ == old(self)@.created(label@),
            final(self)@.well_formed(),
            item@ == (ItemView { id: old(self)@.next_id, label: label@, completed: false }),
    {
        proof {
            use_type_invariant(&*self);
        }
        let ghost before = self@;
        let id = self.next_id;
        let item = TodoItem::new(id, label);
        let copy = item.clone();
        let mut items: Vec<TodoItem> = Vec::new();
        std::mem::swap(&mut items, &mut self.items);
        items.push(item);
        proof {
            assert(item_views(items@) =~= before.items.push(copy@));
        }
        self.next_id = id + 1;
        self.items = items;
        copy
    }
}

} // verus!
