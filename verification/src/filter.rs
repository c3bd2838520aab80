//! The three list views and how a query value selects one of them.

use vstd::prelude::*;

use crate::item::{item_views, ItemView, TodoItem};
use crate::text::same_text;

verus! {

/// Which items of a session a list view shows.
#[derive(Clone, Copy, Debug, PartialEq, Eq, Structural)]
pub enum TodoFilter {
    All,
    Active,
    Completed,
}

impl TodoFilter {
    /// Whether an item with the given completion flag is shown under this filter.
    pub open spec fn admits(self, completed: bool) -> bool {
        match self {
            TodoFilter::All => true,
            TodoFilter::Active => !completed,
            TodoFilter::Completed => completed,
        }
    }

    /// Decides whether an item with the given completion flag is shown.
    pub fn accepts(self, completed: bool) -> (shown: bool)
        ensures
            shown == self.admits(completed),
    {
        match self {
            TodoFilter::All => true,
            TodoFilter::Active => !completed,
            TodoFilter::Completed => completed,
        }
    }
}

/// The items that a filter shows, in the order in which they stand.
pub open spec fn shown_under(items: Seq<ItemView>, filter: TodoFilter) -> Seq<ItemView> {
    items.filter(|item: ItemView| filter.admits(item.completed))
}

impl TodoFilter {
    /// Narrows a sequence of items to those that this filter shows. `All` keeps
    /// every item; the other two keep the items whose completion flag matches.
    /// The items that stay keep their order.
    pub fn apply(self, items: &Vec<TodoItem>) -> (shown: Vec<TodoItem>)
        ensures
            item_views(shown@) == shown_under(item_views(items@), self),
    {
        let ghost all = item_views(items@);
        let ghost keep = |item: ItemView| self.admits(item.completed);
        let mut shown: Vec<TodoItem> = Vec::new();
        let mut i: usize = 0;
        proof {
            reveal(Seq::filter);
            assert(all.take(0) =~= Seq::<ItemView>::empty());
            assert(item_views(shown@) =~= all.take(0).filter(keep));
        }
        while i < items.len()
            invariant
                i <= items.len(),
                all == item_views(items@),
                keep == (|item: ItemView| self.admits(item.completed)),
                item_views(shown@) == all.take(i as int).filter(keep),
            decreases items.len() - i,
        {
            let ghost before = item_views(shown@);
            proof {
                assert(all.take(i + 1) =~= all.take(i as int).push(items@[i as int]@));
                Seq::lemma_filter_push(all.take(i as int), items@[i as int]@, keep);
            }
            if self.accepts(items[i].completed) {
                shown.push(items[i].clone());
                assert(item_views(shown@) =~= before.push(items@[i as int]@));
            }
            i += 1;
        }
        proof {
            assert(all.take(items.len() as int) =~= all);
        }
        shown
    }
}

/// An item is shown under a filter exactly when it is among the items and the
/// filter admits its completion flag.
pub proof fn lemma_shown_membership(items: Seq<ItemView>, filter: TodoFilter, item: ItemView)
    ensures
        shown_under(items, filter).contains(item) <==> items.contains(item) && filter.admits(
            item.completed,
        ),
    decreases items.len(),
{
    reveal(Seq::filter);
    let keep = |other: ItemView| filter.admits(other.completed);
    if items.len() > 0 {
        let rest = items.drop_last();
        let last = items.last();
        lemma_shown_membership(rest, filter, item);
        let shown_rest = rest.filter(keep);
        if items.contains(item) && filter.admits(item.completed) {
            let k = choose|k: int| 0 <= k < items.len() && items[k] == item;
            if k < items.len() - 1 {
                assert(rest[k] == item);
                let j = choose|j: int| 0 <= j < shown_rest.len() && shown_rest[j] == item;
                assert(items.filter(keep)[j] == item);
            } else {
                assert(items.filter(keep).last() == item);
            }
        }
        if items.filter(keep).contains(item) {
            let j = choose|j: int| 0 <= j < items.filter(keep).len() && items.filter(keep)[j] == item;
            if j < shown_rest.len() {
                assert(shown_rest[j] == item);
                let k = choose|k: int| 0 <= k < rest.len() && rest[k] == item;
                assert(items[k] == item);
            } else {
                assert(items[items.len() - 1] == item);
            }
        }
    }
}

/// `All` hands every item through, unchanged and in the same order.
pub proof fn lemma_all_shows_everything(items: Seq<ItemView>)
    ensures
        shown_under(items, TodoFilter::All) == items,
    decreases items.len(),
{
    reveal(Seq::filter);
    if items.len() > 0 {
        lemma_all_shows_everything(items.drop_last());
        assert(items.drop_last().push(items.last()) =~= items);
    }
}

/// The active and the completed items together are all the items, and no item is
/// both active and completed.
pub proof fn lemma_active_and_completed_partition(items: Seq<ItemView>)
    ensures
        shown_under(items, TodoFilter::Active).to_set().union(
            shown_under(items, TodoFilter::Completed).to_set(),
        ) == shown_under(items, TodoFilter::All).to_set(),
        shown_under(items, TodoFilter::Active).to_set().disjoint(
            shown_under(items, TodoFilter::Completed).to_set(),
        ),
{
    let active = shown_under(items, TodoFilter::Active).to_set();
    let completed = shown_under(items, TodoFilter::Completed).to_set();
    let all = shown_under(items, TodoFilter::All).to_set();
    assert forall|item: ItemView| active.union(completed).contains(item) == all.contains(item) by {
        lemma_shown_membership(items, TodoFilter::Active, item);
        lemma_shown_membership(items, TodoFilter::Completed, item);
        lemma_shown_membership(items, TodoFilter::All, item);
    }
    assert(active.union(completed) =~= all);
    assert forall|item: ItemView| active.contains(item) implies !completed.contains(item) by {
        lemma_shown_membership(items, TodoFilter::Active, item);
        lemma_shown_membership(items, TodoFilter::Completed, item);
    }
}

/// A query value that names none of the three filters. It keeps the rejected text.
#[derive(Debug, PartialEq, Eq)]
pub struct InvalidFilter {
    pub raw: String,
}

/// The filter that a query value names, if it names one. The match is exact and
/// case-sensitive.
pub open spec fn filter_named(value: Seq<char>) -> Option<TodoFilter> {
    if value == "all"@ {
        Some(TodoFilter::All)
    } else if value == "active"@ {
        Some(TodoFilter::Active)
    } else if value == "completed"@ {
        Some(TodoFilter::Completed)
    } else {
        None
    }
}

impl TodoFilter {
    /// Reads a filter from the raw value of a query parameter. Any value other
    /// than `all`, `active` or `completed` is rejected and handed back.
    pub fn from_form_value(value: &str) -> (parsed: Result<TodoFilter, InvalidFilter>)
        ensures
            match parsed {
                Ok(filter) => filter_named(value@) == Some(filter),
                Err(rejected) => filter_named(value@).is_none() && rejected.raw@ == value@,
            },
    {
        if same_text(value, "all") {
            Ok(TodoFilter::All)
        } else if same_text(value, "active") {
            Ok(TodoFilter::Active)
        } else if same_text(value, "completed") {
            Ok(TodoFilter::Completed)
        } else {
            Err(InvalidFilter { raw: value.to_owned() })
        }
    }
}

/// The query parameters of the list endpoint, once they have been read.
#[derive(Debug, PartialEq, Eq)]
pub struct QueryParams {
    filter: TodoFilter,
}

impl View for QueryParams {
    type V = TodoFilter;

    /// The filter that the parameters carry.
    closed spec fn view(&self) -> TodoFilter {
        self.filter
    }
}

impl QueryParams {
    /// Parameters that ask for the given filter.
    pub fn new(filter: TodoFilter) -> (params: QueryParams)
        ensures
            params@ == filter,
    {
        QueryParams { filter }
    }

    /// The filter that the parameters carry.
    pub fn filter(&self) -> (filter: TodoFilter)
        ensures
            filter == self@,
    {
        self.filter
    }

    /// Reads the parameters from the raw `filter` value of a query, if the query
    /// has one. There are parameters exactly when the value is present and names
    /// a filter.
    pub fn from_query_value(raw: Option<&str>) -> (params: Option<QueryParams>)
        ensures
            match params {
                Some(read) => raw.is_some() && filter_named(raw.unwrap()@) == Some(read@),
                None => raw.is_none() || filter_named(raw.unwrap()@).is_none(),
            },
    {
        match raw {
            None => None,
            Some(value) => match TodoFilter::from_form_value(value) {
                Ok(filter) => Some(QueryParams { filter }),
                Err(_) => None,
            },
        }
    }
}

/// The status code of a response that blames the request.
pub const BAD_REQUEST: u16 = 400;

/// A response that consists of a status code and a short text.
#[derive(Debug, PartialEq, Eq)]
pub struct StatusText {
    pub status: u16,
    pub text: String,
}

/// Whether a response is the one given for a missing or invalid filter.
pub open spec fn is_invalid_filter_response(response: StatusText) -> bool {
    response.status == BAD_REQUEST && response.text@ == "Invalid filter"@
}

/// The response to a request whose filter is missing or invalid.
pub fn invalid_filter_bad_request() -> (response: StatusText)
    ensures
        is_invalid_filter_response(response),
{
    StatusText { status: BAD_REQUEST, text: "Invalid filter".to_owned() }
}

/// The filter of a list request. Missing parameters are a client error; they
/// never stand for `All`.
pub fn todo_filter(filter: Option<QueryParams>) -> (outcome: Result<TodoFilter, StatusText>)
    ensures
        match outcome {
            Ok(chosen) => filter.is_some() && filter.unwrap()@ == chosen,
            Err(response) => filter.is_none() && is_invalid_filter_response(response),
        },
{
    match filter {
        Some(params) => Ok(params.filter),
        None => Err(invalid_filter_bad_request()),
    }
}

} // verus!
