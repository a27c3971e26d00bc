use containers::queue::Queue;

#[test]
fn new_queue_is_empty() {
    let q = Queue::<i32>::new();
    assert!(q.is_empty());
    assert_eq!(q.size(), 0);
}

#[test]
fn default_queue_is_empty() {
    let q: Queue<String> = Queue::default();
    assert!(q.is_empty());
    assert_eq!(q.size(), 0);
}

#[test]
fn dequeue_on_empty_fails() {
    let mut q = Queue::<i32>::new();
    assert_eq!(q.dequeue(), Err("Queue is empty"));
    assert_eq!(q.size(), 0);
}

#[test]
fn peek_on_empty_fails() {
    let q = Queue::<i32>::new();
    assert_eq!(q.peek(), Err("Queue is empty"));
}

#[test]
fn elements_leave_in_the_order_they_came() {
    let mut q = Queue::new();
    for v in [7, 3, 9, 3, 1] {
        q.enqueue(v);
    }
    assert_eq!(q.size(), 5);
    assert_eq!(q.dequeue(), Ok(7));
    assert_eq!(q.dequeue(), Ok(3));
    assert_eq!(q.dequeue(), Ok(9));
    assert_eq!(q.dequeue(), Ok(3));
    assert_eq!(q.dequeue(), Ok(1));
    assert!(q.is_empty());
    assert_eq!(q.dequeue(), Err("Queue is empty"));
}

#[test]
fn peek_shows_the_head_and_keeps_it() {
    let mut q = Queue::new();
    q.enqueue("a");
    q.enqueue("b");
    assert_eq!(q.peek(), Ok(&"a"));
    assert_eq!(q.peek(), Ok(&"a"));
    assert_eq!(q.size(), 2);
    assert_eq!(q.dequeue(), Ok("a"));
    assert_eq!(q.peek(), Ok(&"b"));
}

#[test]
fn enqueue_between_dequeues_goes_to_the_tail() {
    let mut q = Queue::new();
    q.enqueue(1);
    q.enqueue(2);
    assert_eq!(q.dequeue(), Ok(1));
    q.enqueue(3);
    assert_eq!(q.size(), 2);
    assert_eq!(q.dequeue(), Ok(2));
    assert_eq!(q.dequeue(), Ok(3));
    assert!(q.is_empty());
}

#[test]
fn many_elements_stay_in_order() {
    let mut q = Queue::new();
    for v in 0..500u32 {
        q.enqueue(v * 3);
    }
    for v in 0..500u32 {
        assert_eq!(q.dequeue(), Ok(v * 3));
    }
    assert!(q.is_empty());
}

#[test]
fn queue_can_be_printed_for_debugging() {
    let mut q = Queue::new();
    q.enqueue(5);
    assert!(format!("{:?}", q).contains('5'));
}
