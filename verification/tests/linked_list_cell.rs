use list::linked_list_cell::LinkedListCell;

#[test]
fn test_linked_list_cell() {
    let mut list = LinkedListCell::new(1);
    assert_eq!(list.is_empty(), false);

    list.push_back(2);
    list.push_back(3);
    list.push_back(4);
    list.push_back(5);

    assert_eq!(list.is_empty(), false);
}

#[test]
fn test_linked_list_cell_empty() {
    let list: LinkedListCell<i32> = LinkedListCell::default();
    assert_eq!(list.is_empty(), true);
}

#[test]
fn test_linked_list_cell_push_back() {
    let mut list = LinkedListCell::new(1);
    assert_eq!(list.is_empty(), false);

    list.push_back(2);
    list.push_back(3);
    list.push_back(4);
    list.push_back(5);

    assert_eq!(list.is_empty(), false);
}
