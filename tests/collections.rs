use exercises::collections::{Queue, Stack};

#[test]
fn test_stack() {
    let mut stack = Stack::new();
    assert!(stack.is_empty());

    stack.push(1);
    stack.push(2);
    stack.push(3);

    assert_eq!(stack.len(), 3);
    assert_eq!(stack.peek(), Some(&3));
    assert_eq!(stack.pop(), Some(3));
    assert_eq!(stack.pop(), Some(2));
    assert_eq!(stack.len(), 1);
}

#[test]
fn test_queue() {
    let mut queue = Queue::new();
    assert!(queue.is_empty());

    queue.enqueue(1);
    queue.enqueue(2);
    queue.enqueue(3);

    assert_eq!(queue.len(), 3);
    assert_eq!(queue.front(), Some(&1));
    assert_eq!(queue.dequeue(), Some(1));
    assert_eq!(queue.dequeue(), Some(2));
    assert_eq!(queue.len(), 1);
}

#[test]
fn empty_stack_and_queue_give_none() {
    let mut stack: Stack<u8> = Stack::new();
    assert_eq!(stack.pop(), None);
    assert_eq!(stack.peek(), None);
    let mut queue: Queue<u8> = Queue::new();
    assert_eq!(queue.dequeue(), None);
    assert_eq!(queue.front(), None);
}
