use todo_session::filter::TodoFilter;
use todo_session::item::TodoItem;
use todo_session::repository::{NotFound, TodoList};

fn item(id: u64, label: &str, completed: bool) -> TodoItem {
    TodoItem { id, label: label.to_string(), completed }
}

fn labels(items: &[TodoItem]) -> Vec<String> {
    items.iter().map(|item| item.label.clone()).collect()
}

#[test]
fn new_list_is_empty() {
    let list = TodoList::new();
    assert!(list.items().is_empty());
    assert_eq!(list.next_id(), 0);
    assert!(list.list(TodoFilter::All).is_empty());
}

#[test]
fn new_item_is_not_done() {
    let item = TodoItem::new(4, "water plants".to_string());
    assert_eq!(item, TodoItem { id: 4, label: "water plants".to_string(), completed: false });
    assert_eq!(item.clone(), item);
}

#[test]
fn create_appends_with_fresh_identifiers() {
    let mut list = TodoList::new();
    let first = list.create("buy milk".to_string());
    let second = list.create("walk dog".to_string());
    assert_eq!(first, item(0, "buy milk", false));
    assert_eq!(second, item(1, "walk dog", false));
    assert_eq!(list.next_id(), 2);
    assert_eq!(list.items(), &vec![item(0, "buy milk", false), item(1, "walk dog", false)]);
}

#[test]
fn identifiers_are_not_used_again() {
    let mut list = TodoList::new();
    list.create("a".to_string());
    let b = list.create("b".to_string());
    assert_eq!(list.destroy(b.id), Ok(()));
    let c = list.create("c".to_string());
    assert_eq!(c.id, 2);
    assert_eq!(list.items(), &vec![item(0, "a", false), item(2, "c", false)]);
}

#[test]
fn scenario_milk_and_dog() {
    let mut list = TodoList::new();
    let milk = list.create("buy milk".to_string());
    list.create("walk dog".to_string());
    assert_eq!(list.update(milk.id, None, Some(true)), Ok(()));
    assert_eq!(labels(&list.list(TodoFilter::Active)), vec!["walk dog"]);
    assert_eq!(labels(&list.list(TodoFilter::Completed)), vec!["buy milk"]);
    assert_eq!(labels(&list.list(TodoFilter::All)), vec!["buy milk", "walk dog"]);
    assert_eq!(
        list.list(TodoFilter::All),
        vec![item(0, "buy milk", true), item(1, "walk dog", false)]
    );
}

#[test]
fn update_changes_only_supplied_fields() {
    let mut list = TodoList::new();
    list.create("a".to_string());
    list.create("b".to_string());
    list.create("c".to_string());
    assert_eq!(list.update(1, Some("B".to_string()), None), Ok(()));
    assert_eq!(list.items()[1], item(1, "B", false));
    assert_eq!(list.update(1, None, Some(true)), Ok(()));
    assert_eq!(list.items()[1], item(1, "B", true));
    assert_eq!(list.update(1, Some("bee".to_string()), Some(false)), Ok(()));
    assert_eq!(list.items()[1], item(1, "bee", false));
    assert_eq!(list.update(1, None, None), Ok(()));
    assert_eq!(
        list.items(),
        &vec![item(0, "a", false), item(1, "bee", false), item(2, "c", false)]
    );
    assert_eq!(list.next_id(), 3);
}

#[test]
fn update_of_a_missing_item_is_refused() {
    let mut list = TodoList::new();
    list.create("a".to_string());
    list.create("b".to_string());
    let before = list.items().clone();
    assert_eq!(list.update(2, Some("x".to_string()), Some(true)), Err(NotFound));
    assert_eq!(list.update(u64::MAX, None, None), Err(NotFound));
    assert_eq!(list.items(), &before);
    assert_eq!(list.next_id(), 2);
}

#[test]
fn destroy_removes_one_item() {
    let mut list = TodoList::new();
    list.create("a".to_string());
    list.create("b".to_string());
    list.create("c".to_string());
    assert_eq!(list.destroy(1), Ok(()));
    assert_eq!(list.items(), &vec![item(0, "a", false), item(2, "c", false)]);
    assert_eq!(list.destroy(0), Ok(()));
    assert_eq!(list.destroy(2), Ok(()));
    assert!(list.items().is_empty());
    assert_eq!(list.next_id(), 3);
}

#[test]
fn destroy_of_a_missing_item_is_refused() {
    let mut list = TodoList::new();
    assert_eq!(list.destroy(0), Err(NotFound));
    list.create("a".to_string());
    list.create("b".to_string());
    assert_eq!(list.destroy(1), Ok(()));
    let before = list.items().clone();
    assert_eq!(list.destroy(1), Err(NotFound));
    assert_eq!(list.destroy(5), Err(NotFound));
    assert_eq!(list.items(), &before);
}

#[test]
fn all_lists_survivors_in_creation_order() {
    let mut list = TodoList::new();
    for label in ["a", "b", "c", "d", "e", "f"] {
        list.create(label.to_string());
    }
    assert_eq!(list.destroy(4), Ok(()));
    assert_eq!(list.update(2, Some("C".to_string()), Some(true)), Ok(()));
    assert_eq!(list.destroy(0), Ok(()));
    assert_eq!(list.destroy(0), Err(NotFound));
    list.create("g".to_string());
    assert_eq!(list.update(4, None, Some(true)), Err(NotFound));
    assert_eq!(list.destroy(6), Ok(()));
    list.create("h".to_string());
    assert_eq!(
        list.list(TodoFilter::All),
        vec![
            item(1, "b", false),
            item(2, "C", true),
            item(3, "d", false),
            item(5, "f", false),
            item(7, "h", false),
        ]
    );
    assert_eq!(list.list(TodoFilter::Completed), vec![item(2, "C", true)]);
}

#[test]
fn get_finds_items_by_identifier() {
    let mut list = TodoList::new();
    list.create("a".to_string());
    list.create("b".to_string());
    assert_eq!(list.get(1), Some(&item(1, "b", false)));
    assert_eq!(list.get(2), None);
    assert_eq!(list.destroy(0), Ok(()));
    assert_eq!(list.get(0), None);
    assert_eq!(list.get(1), Some(&item(1, "b", false)));
}

#[test]
fn from_parts_accepts_growing_identifiers() {
    let items = vec![item(2, "x", true), item(5, "y", false), item(6, "z", false)];
    let mut list = TodoList::from_parts(items.clone(), 7).expect("well formed");
    assert_eq!(list.items(), &items);
    assert_eq!(list.next_id(), 7);
    assert_eq!(list.create("w".to_string()), item(7, "w", false));
    let empty = TodoList::from_parts(Vec::new(), 0).expect("well formed");
    assert_eq!(empty, TodoList::new());
    assert!(TodoList::from_parts(Vec::new(), u64::MAX).is_some());
}

#[test]
fn from_parts_refuses_broken_parts() {
    assert_eq!(TodoList::from_parts(vec![item(1, "a", false), item(1, "b", false)], 9), None);
    assert_eq!(TodoList::from_parts(vec![item(2, "a", false), item(1, "b", false)], 9), None);
    assert_eq!(TodoList::from_parts(vec![item(0, "a", false), item(3, "b", false)], 3), None);
    assert_eq!(TodoList::from_parts(vec![item(0, "a", false)], 0), None);
    assert_eq!(
        TodoList::from_parts(vec![item(0, "a", false), item(2, "b", false), item(1, "c", false)], 9),
        None
    );
}

#[test]
fn create_works_just_below_the_last_identifier() {
    let mut list = TodoList::from_parts(Vec::new(), u64::MAX - 1).expect("well formed");
    assert_eq!(list.create("last".to_string()).id, u64::MAX - 1);
    assert_eq!(list.next_id(), u64::MAX);
}
