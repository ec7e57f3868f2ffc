use simple_runtime::queue::TaskQueue;

#[test]
fn queue_is_first_in_first_out() {
    let mut q = TaskQueue::new();
    assert!(q.is_empty());
    assert_eq!(q.pop(), None);
    q.push(4);
    q.push(9);
    q.push(4);
    assert_eq!(q.len(), 3);
    assert_eq!(q.occurrences(4), 2);
    assert_eq!(q.occurrences(9), 1);
    assert_eq!(q.occurrences(5), 0);
    assert_eq!(q.pop(), Some(4));
    assert_eq!(q.pop(), Some(9));
    assert_eq!(q.occurrences(4), 1);
    assert_eq!(q.pop(), Some(4));
    assert_eq!(q.pop(), None);
    assert!(q.is_empty());
}

#[test]
fn queue_keeps_order_across_interleaved_pushes_and_pops() {
    let mut q = TaskQueue::new();
    q.push(1);
    q.push(2);
    assert_eq!(q.pop(), Some(1));
    q.push(3);
    assert_eq!(q.pop(), Some(2));
    assert_eq!(q.pop(), Some(3));
    assert_eq!(q.len(), 0);
}
