use algods::queue::Queue;

#[test]
fn test_basic_queue_operations() {
    let mut queue: Queue<i32> = Queue::new();

    // Test initial state
    assert_eq!(queue.len(), 0);
    assert!(queue.is_empty());
    assert!(queue.peek().is_none());
    assert_eq!(queue.dequeue_unchecked(), None);

    // Test enqueue and length tracking
    queue.enqueue(10);
    assert_eq!(queue.len(), 1);
    assert!(!queue.is_empty());

    // Test improved peek (returns reference)
    {
        let peeked = queue.peek().unwrap();
        assert_eq!(*peeked, 10);
    }

    queue.enqueue(20);
    queue.enqueue(30);
    assert_eq!(queue.len(), 3);

    // Test FIFO dequeue behavior with error handling
    assert_eq!(queue.dequeue_unchecked(), Some(10));
    assert_eq!(queue.len(), 2);

    assert_eq!(queue.dequeue_unchecked(), Some(20));
    assert_eq!(queue.dequeue_unchecked(), Some(30));
    assert_eq!(queue.len(), 0);
    assert!(queue.is_empty());
}

#[test]
fn test_empty_queue_operations() {
    let mut queue: Queue<i32> = Queue::new();

    // Test operations on empty queue
    assert_eq!(queue.length, 0);
    assert_eq!(queue.dequeue_unchecked(), None);
    assert!(queue.peek().is_none());

    // Ensure multiple dequeue calls on empty queue don't crash
    assert_eq!(queue.dequeue_unchecked(), None);
    assert_eq!(queue.dequeue_unchecked(), None);
    assert_eq!(queue.length, 0);
}

#[test]
fn test_single_element_queue() {
    let mut queue: Queue<&str> = Queue::new();

    // Add single element
    queue.enqueue("hello");
    assert_eq!(queue.length, 1);
    assert_eq!(*queue.peek().unwrap(), "hello");

    // Peek doesn't modify queue
    assert_eq!(*queue.peek().unwrap(), "hello");
    assert_eq!(queue.length, 1);

    // Dequeue single element
    assert_eq!(queue.dequeue().unwrap(), Some("hello"));
    assert_eq!(queue.length, 0);
    assert!(queue.peek().is_none());

    // Queue should be empty now
    assert_eq!(queue.dequeue().unwrap(), None);
}

#[test]
fn test_fifo_order_with_strings() {
    let mut queue: Queue<&str> = Queue::new();
    let items = vec!["first", "second", "third", "fourth", "fifth"];

    // Enqueue all items
    for item in &items {
        queue.enqueue(*item);
    }
    assert_eq!(queue.length, 5);

    // Dequeue and verify FIFO order
    for (i, expected_item) in items.iter().enumerate() {
        assert_eq!(*queue.peek().unwrap(), *expected_item);
        assert_eq!(queue.dequeue().unwrap(), Some(*expected_item));
        assert_eq!(queue.length, 4 - i);
    }

    // Queue should be empty
    assert_eq!(queue.length, 0);
    assert!(queue.peek().is_none());
}

#[test]
fn test_mixed_operations_and_length_consistency() {
    let mut queue: Queue<i32> = Queue::new();

    // Mix of enqueue and dequeue operations
    queue.enqueue(1);
    queue.enqueue(2);
    assert_eq!(queue.length, 2);

    assert_eq!(queue.dequeue().unwrap(), Some(1));
    assert_eq!(queue.length, 1);

    queue.enqueue(3);
    queue.enqueue(4);
    assert_eq!(queue.length, 3);
    assert_eq!(*queue.peek().unwrap(), 2);

    assert_eq!(queue.dequeue().unwrap(), Some(2));
    assert_eq!(queue.dequeue().unwrap(), Some(3));
    assert_eq!(queue.length, 1);

    queue.enqueue(5);
    assert_eq!(queue.length, 2);

    // Final state verification
    assert_eq!(queue.dequeue().unwrap(), Some(4));
    assert_eq!(queue.dequeue().unwrap(), Some(5));
    assert_eq!(queue.length, 0);
    assert_eq!(queue.dequeue().unwrap(), None);
}
