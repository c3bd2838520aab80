//! What a session holds after any run of operations on it.

use vstd::prelude::*;

use crate::filter::{lemma_all_shows_everything, shown_under, TodoFilter};
use crate::repository::{lemma_created, lemma_destroyed, lemma_updated, ListView};

verus! {

/// One operation on a session.
pub enum Operation {
    Create { label: Seq<char> },
    Update { id: u64, new_label: Option<Seq<char>>, new_completed: Option<bool> },
    Destroy { id: u64 },
}

/// The session after one operation. An update or a removal that names no item
/// of the session leaves it as it is.
pub open spec fn step(list: ListView, operation: Operation) -> ListView {
    match operation {
        Operation::Create { label } => list.created(label),
        Operation::Update { id, new_label, new_completed } => list.updated(
            id,
            new_label,
            new_completed,
        ),
        Operation::Destroy { id } => list.destroyed(id),
    }
}

/// The session after a run of operations on an empty session.
pub open spec fn replay(operations: Seq<Operation>) -> ListView
    decreases operations.len(),
{
    if operations.len() == 0 {
        ListView::empty()
    } else {
        step(replay(operations.drop_last()), operations.last())
    }
}

/// How many items a run of operations creates.
pub open spec fn creations(operations: Seq<Operation>) -> nat
    decreases operations.len(),
{
    if operations.len() == 0 {
        0
    } else {
        creations(operations.drop_last()) + if operations.last() is Create {
            1nat
        } else {
            0nat
        }
    }
}

/// Whether the run removes the item with this identifier: some removal names it
/// after the item was created.
pub open spec fn removed_in(operations: Seq<Operation>, id: u64) -> bool {
    exists|j: int|
        0 <= j < operations.len() && operations[j] == (Operation::Destroy { id }) && id
            < creations(#[trigger] operations.take(j))
}

/// A run creates at least as many items as any of its beginnings.
pub proof fn lemma_creations_grow(operations: Seq<Operation>, j: int)
    requires
        0 <= j <= operations.len(),
    ensures
        creations(operations.take(j)) <= creations(operations),
    decreases operations.len(),
{
    if j < operations.len() {
        lemma_creations_grow(operations.drop_last(), j);
        assert(operations.drop_last().take(j) =~= operations.take(j));
    } else {
        assert(operations.take(j) =~= operations);
    }
}

/// After any run of creations, updates and removals on an empty session, the
/// session holds exactly the items that were created and never removed since, in
/// the order of their creation: the k-th created item has the identifier k - 1,
/// identifiers grow along the list, and `All` shows the whole list.
pub proof fn lemma_replay_lists_survivors(operations: Seq<Operation>)
    requires
        creations(operations) <= u64::MAX,
    ensures
        replay(operations).well_formed(),
        replay(operations).next_id == creations(operations),
        forall|id: u64| #[trigger]
            replay(operations).has(id) <==> id < creations(operations) && !removed_in(
                operations,
                id,
            ),
        forall|i: int, j: int|
            0 <= i < j < replay(operations).items.len() ==> replay(operations).items[i].id
                < replay(operations).items[j].id,
        shown_under(replay(operations).items, TodoFilter::All) == replay(operations).items,
    decreases operations.len(),
{
    let list = replay(operations);
    lemma_all_shows_everything(list.items);
    if operations.len() == 0 {
        assert forall|id: u64| #[trigger] list.has(id) <==> id < creations(operations)
            && !removed_in(operations, id) by {}
    } else {
        let earlier = operations.drop_last();
        let last = operations.last();
        let before = replay(earlier);
        lemma_replay_lists_survivors(earlier);
        assert(operations.take(operations.len() - 1) =~= earlier);
        assert forall|id: u64|
            removed_in(operations, id) <==> removed_in(earlier, id) || (last == (Operation::Destroy {
                id,
            }) && id < creations(earlier)) by {
            if removed_in(earlier, id) {
                let j = choose|j: int|
                    0 <= j < earlier.len() && earlier[j] == (Operation::Destroy { id }) && id
                        < creations(#[trigger] earlier.take(j));
                assert(operations.take(j) =~= earlier.take(j));
                assert(operations[j] == earlier[j]);
            }
            if removed_in(operations, id) {
                let j = choose|j: int|
                    0 <= j < operations.len() && operations[j] == (Operation::Destroy { id })
                        && id < creations(#[trigger] operations.take(j));
                if j < earlier.len() {
                    assert(operations.take(j) =~= earlier.take(j));
                    assert(operations[j] == earlier[j]);
                }
            }
        }
        match last {
            Operation::Create { label } => {
                lemma_created(before, label);
            },
            Operation::Update { id, new_label, new_completed } => {
                lemma_updated(before, id, new_label, new_completed);
            },
            Operation::Destroy { id } => {
                lemma_destroyed(before, id);
            },
        }
        assert forall|id: u64| #[trigger] list.has(id) <==> id < creations(operations)
            && !removed_in(operations, id) by {
            assert(before.has(id) <==> id < creations(earlier) && !removed_in(earlier, id));
            if removed_in(earlier, id) {
                let j = choose|j: int|
                    0 <= j < earlier.len() && earlier[j] == (Operation::Destroy { id }) && id
                        < creations(#[trigger] earlier.take(j));
                lemma_creations_grow(earlier, j);
            }
        }
    }
}

} // verus!
