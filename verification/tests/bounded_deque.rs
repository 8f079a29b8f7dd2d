use espresso_core::bounded_deque::BoundedVecDeque;

#[test]
fn test_bounded_vec_deque() {
    let mut deque = BoundedVecDeque::new(3);
    deque.push(1);
    deque.push(2);
    deque.push(3);
    deque.push(4);
    deque.push(5);
    assert_eq!(deque.inner().len(), 3);
    assert_eq!(*deque.inner(), vec![3, 4, 5]);
}

#[test]
fn bounded_vec_deque_below_capacity_keeps_all() {
    let mut deque = BoundedVecDeque::new(4);
    deque.push("a");
    deque.push("b");
    assert_eq!(deque.len(), 2);
    assert_eq!(*deque.inner(), vec!["a", "b"]);
}

#[test]
fn bounded_vec_deque_zero_capacity_holds_nothing() {
    let mut deque = BoundedVecDeque::new(0);
    deque.push(7u8);
    deque.push(8u8);
    assert_eq!(deque.len(), 0);
}

#[test]
fn bounded_vec_deque_capacity_one() {
    let mut deque = BoundedVecDeque::new(1);
    for i in 0..10u32 {
        deque.push(i);
        assert_eq!(deque.len(), 1);
    }
    assert_eq!(*deque.inner(), vec![9u32]);
}
