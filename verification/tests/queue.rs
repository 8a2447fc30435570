use ners::conn::ConnId;
use ners::queue::RingQueue;

#[test]
fn test_push_pop() {
    let mut queue = RingQueue::new(4);

    assert!(queue.push(ConnId(1)).is_ok());
    assert!(queue.push(ConnId(2)).is_ok());

    assert_eq!(queue.pop(), Some(ConnId(1)));
    assert_eq!(queue.pop(), Some(ConnId(2)));
    assert_eq!(queue.pop(), None);
}

#[test]
fn test_full_queue() {
    let mut queue = RingQueue::new(3);

    assert!(queue.push(ConnId(1)).is_ok());
    assert!(queue.push(ConnId(2)).is_ok());
    assert!(queue.push(ConnId(3)).is_err()); // Full (capacity - 1 usable)
}

#[test]
fn test_len() {
    let mut queue = RingQueue::new(4);

    assert_eq!(queue.len(), 0);
    queue.push(ConnId(1)).unwrap();
    assert_eq!(queue.len(), 1);
    queue.push(ConnId(2)).unwrap();
    assert_eq!(queue.len(), 2);
    queue.pop();
    assert_eq!(queue.len(), 1);
}

#[test]
fn queue_fifo_order_many() {
    let mut queue = RingQueue::new(8);
    for i in 0..7 {
        assert!(queue.push(ConnId(i)).is_ok());
    }
    assert_eq!(queue.push(ConnId(99)), Err(ConnId(99)));
    for i in 0..7 {
        assert_eq!(queue.pop(), Some(ConnId(i)));
    }
    assert!(queue.is_empty());
}

#[test]
fn queue_wraps_around() {
    let mut queue = RingQueue::new(3);
    for round in 0..5 {
        assert!(queue.push(ConnId(round)).is_ok());
        assert!(queue.push(ConnId(round + 100)).is_ok());
        assert_eq!(queue.pop(), Some(ConnId(round)));
        assert_eq!(queue.pop(), Some(ConnId(round + 100)));
        assert_eq!(queue.len(), 0);
    }
}

#[test]
fn queue_sentinel_reads_as_nothing() {
    let mut queue = RingQueue::new(4);
    assert!(queue.push(ConnId(usize::MAX)).is_ok());
    assert!(queue.push(ConnId(7)).is_ok());
    assert_eq!(queue.pop(), None);
    assert_eq!(queue.len(), 1);
    assert_eq!(queue.pop(), Some(ConnId(7)));
}

#[test]
fn queue_capacity_one_holds_nothing() {
    let mut queue = RingQueue::new(1);
    assert_eq!(queue.push(ConnId(1)), Err(ConnId(1)));
    assert!(queue.is_empty());
}
