use algods::doubly_linked_list::DoublyLinkedList;

#[test]
fn test_append_and_get() {
    let mut list = DoublyLinkedList::new();
    list.append(1);
    list.append(2);
    list.append(3);

    assert_eq!(list.get(0), Some(1));
    assert_eq!(list.get(1), Some(2));
    assert_eq!(list.get(2), Some(3));
    assert_eq!(list.get(3), None);
}

#[test]
fn test_insert_at() {
    let mut list = DoublyLinkedList::new();
    list.append(1);
    list.append(3);
    list.insert_at(2, 1);

    assert_eq!(list.get(0), Some(1));
    assert_eq!(list.get(1), Some(2));
    assert_eq!(list.get(2), Some(3));
}

#[test]
fn test_remove_at() {
    let mut list = DoublyLinkedList::new();
    list.append(1);
    list.append(2);
    list.append(3);

    assert_eq!(list.remove_at(1), Some(2));
    assert_eq!(list.get(0), Some(1));
    assert_eq!(list.get(1), Some(3));
    assert_eq!(list.len(), 2);
}

#[test]
fn test_remove() {
    let mut list = DoublyLinkedList::new();
    list.append(1);
    list.append(2);
    list.append(3);

    assert_eq!(list.remove(2), Some(2));
    assert_eq!(list.get(0), Some(1));
    assert_eq!(list.get(1), Some(3));
    assert_eq!(list.len(), 2);
}

#[test]
fn test_empy_list_operations() {
    let mut list: DoublyLinkedList<i32> = DoublyLinkedList::new();

    assert_eq!(list.len(), 0);
    assert!(list.is_empty());
    assert_eq!(list.get(0), None);
    assert_eq!(list.remove_at(0), None);
    assert_eq!(list.remove(42), None);
}

#[test]
fn test_single_element_list() {
    let mut list = DoublyLinkedList::new();
    list.append(42);

    assert_eq!(list.len(), 1);
    assert!(!list.is_empty());
    assert_eq!(list.get(0), Some(42));
    assert_eq!(list.get(1), None);

    assert_eq!(list.remove_at(0), Some(42));
    assert_eq!(list.len(), 0);
    assert!(list.is_empty());
    assert_eq!(list.get(0), None);
}

#[test]
fn test_prepend_operations() {
    let mut list = DoublyLinkedList::new();

    list.prepend(1);
    assert_eq!(list.get(0), Some(1));
    assert_eq!(list.len(), 1);

    list.prepend(0);
    assert_eq!(list.get(0), Some(0));
    assert_eq!(list.get(1), Some(1));
    assert_eq!(list.len(), 2);
}

#[test]
fn test_boundary_insertions() {
    let mut list = DoublyLinkedList::new();

    list.insert_at(10, 0);
    assert_eq!(list.get(0), Some(10));
    assert_eq!(list.len(), 1);

    list.insert_at(20, 1);
    assert_eq!(list.get(1), Some(20));
    assert_eq!(list.len(), 2);

    list.insert_at(5, 0);
    assert_eq!(list.get(0), Some(5));
    assert_eq!(list.get(1), Some(10));
    assert_eq!(list.get(2), Some(20));
    assert_eq!(list.len(), 3);
}

#[test]
fn test_remove_at_boundaries() {
    let mut list = DoublyLinkedList::new();
    list.append(1);
    list.append(2);
    list.append(3);

    assert_eq!(list.remove_at(2), Some(3));
    assert_eq!(list.len(), 2);

    assert_eq!(list.remove_at(0), Some(1));
    assert_eq!(list.get(0), Some(2));
    assert_eq!(list.len(), 1);

    assert_eq!(list.remove_at(0), Some(2));
    assert_eq!(list.len(), 0);
    assert!(list.is_empty());
}

#[test]
fn test_remove_nonexistent_item() {
    let mut list = DoublyLinkedList::new();
    list.append(1);
    list.append(2);
    list.append(3);

    assert_eq!(list.remove(99), None);
    assert_eq!(list.len(), 3);

    let mut empty_list: DoublyLinkedList<i32> = DoublyLinkedList::new();
    assert_eq!(empty_list.remove(42), None);
}

#[test]
fn test_out_of_bounds_access() {
    let mut list = DoublyLinkedList::new();
    list.append(1);
    list.append(2);

    assert_eq!(list.get(2), None);
    assert_eq!(list.get(100), None);

    assert_eq!(list.remove_at(2), None);
    assert_eq!(list.remove_at(100), None);
    assert_eq!(list.len(), 2);
}

#[test]
fn test_iterator_on_empty_list() {
    let list: DoublyLinkedList<i32> = DoublyLinkedList::new();
    let mut iter = list.iter();
    assert_eq!(iter.next(), None);
}

#[test]
fn test_iterator_single_element() {
    let mut list = DoublyLinkedList::new();
    list.append(42);

    let mut iter = list.iter();
    assert_eq!(iter.next(), Some(42));
    assert_eq!(iter.next(), None);
}

#[test]
fn test_large_list_operations() {
    let mut list = DoublyLinkedList::new();

    for i in 0..1000 {
        list.append(i);
    }

    assert_eq!(list.len(), 1000);
    assert_eq!(list.get(0), Some(0));
    assert_eq!(list.get(999), Some(999));
    assert_eq!(list.get(1000), None);

    assert_eq!(list.remove_at(500), Some(500));
    assert_eq!(list.len(), 999);
    assert_eq!(list.get(500), Some(501));
}

#[test]
fn test_alternating_operations() {
    let mut list = DoublyLinkedList::new();

    list.append(2);
    list.prepend(1);
    list.append(3);
    list.prepend(0);

    assert_eq!(list.len(), 4);
    for i in 0..4 {
        assert_eq!(list.get(i), Some(i as i32));
    }

    assert_eq!(list.remove_at(1), Some(1));
    assert_eq!(list.remove(3), Some(3));
    assert_eq!(list.len(), 2);
    assert_eq!(list.get(0), Some(0));
    assert_eq!(list.get(1), Some(2));
}
