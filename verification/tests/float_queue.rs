use stag_toolkit::math::primqueue::FloatQueue;

#[test]
fn test_floatqueue() {
    let mut queue = FloatQueue::<f32>::new();

    // Test allocation
    queue.allocate(100);
    assert_eq!(100, queue.len());

    // Test indexing
    assert_eq!(0, queue.index());
    queue.increment(1);
    assert_eq!(1, queue.index());
    queue.increment(105);
    assert_eq!(6, queue.index());

    // Reset queue
    queue.allocate(5);
    assert_eq!(5, queue.len());
    assert_eq!(0, queue.index());

    // Test insertion
    queue.push(9.0);
    queue.push(-3.0);
    queue.push(2.0);
    queue.push(-1.5);
    queue.push(17.0);
    assert_eq!(&vec![9.0, -3.0, 2.0, -1.5, 17.0], queue.values());
    assert_eq!(5, queue.len_used());
    assert_eq!(vec![9.0, -3.0, 2.0, -1.5, 17.0], queue.used_values());

    queue.push(1.0);
    queue.push(1.0);
    assert_eq!(&vec![1.0, 1.0, 2.0, -1.5, 17.0], queue.values());
    assert_eq!(5, queue.len_used());

    // Test that queue analysis considers half-used queue length
    queue.allocate(5);
    queue.push(5.0);
    queue.push(3.0);
    queue.push(4.0);
    assert_eq!(3, queue.len_used(), "queue should only be half-used");
    assert_eq!(vec![5.0, 3.0, 4.0], queue.used_values());
}

#[test]
fn float_queue_fresh_state() {
    let queue = FloatQueue::<i32>::new();
    assert_eq!(queue.len(), 1);
    assert_eq!(queue.len_used(), 1);
    assert_eq!(queue.index(), 0);
    assert!(!queue.is_empty());
    assert_eq!(queue.used_values(), vec![0]);

    let default_queue = FloatQueue::<u8>::default();
    assert_eq!(default_queue.values(), &vec![0u8]);
}

#[test]
fn float_queue_allocate_resets() {
    let mut queue = FloatQueue::<i64>::new();
    queue.allocate(3);
    queue.push(4);
    queue.push(5);
    queue.push(6);
    assert_eq!(queue.index(), 0, "the cursor wraps around");
    queue.allocate(2);
    assert_eq!(queue.values(), &vec![0, 0]);
    assert_eq!(queue.len_used(), 1);
    assert_eq!(queue.used_values(), vec![0]);
    queue.push(7);
    queue.push(8);
    queue.allocate(4);
    assert_eq!(queue.values(), &vec![0, 0, 0, 0], "allocation resets the contents");
    assert_eq!(queue.used_values(), vec![0]);

    queue.allocate(0);
    assert!(queue.is_empty());
    assert_eq!(queue.len_used(), 1);
    assert!(queue.used_values().is_empty());
}

#[test]
fn float_queue_wraps_around() {
    let mut queue = FloatQueue::<u32>::new();
    queue.allocate(4);
    for v in 1..=6u32 {
        queue.push(v);
    }
    assert_eq!(queue.values(), &vec![5, 6, 3, 4]);
    assert_eq!(queue.index(), 2);
    assert_eq!(queue.len_used(), 4);
}
