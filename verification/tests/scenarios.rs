use altdeque::AltDeque;
use altdeque::RawVec;
use altdeque::TryReserveError;

fn seen(d: &AltDeque<i32>) -> Vec<i32> {
    d.iter().into_iter().copied().collect()
}

fn stacks(d: &AltDeque<i32>) -> (Vec<i32>, Vec<i32>) {
    let (a, b) = d.as_slices();
    (a.into_iter().copied().collect(), b.into_iter().copied().collect())
}

#[test]
fn test_scenario_pop_sum() {
    let mut deque = AltDeque::new();
    for i in 0..=1000 {
        deque.push_back(i);
    }
    let mut sum: i64 = 0;
    while let Some(el) = deque.pop_front() {
        sum += el as i64;
    }
    assert_eq!(sum, 500500);
}

#[test]
fn test_scenario_two_stacks() {
    let deque = AltDeque::from_stacks(vec![1, 2, 3], vec![4, 5, 6]);
    assert_eq!(stacks(&deque), (vec![1, 2, 3], vec![4, 5, 6]));
    assert_eq!(seen(&deque), vec![1, 2, 3, 4, 5, 6]);
    assert_eq!(deque.len(), 3 + 3);
}

#[test]
fn test_insert_then_remove() {
    let mut deque = AltDeque::from_stacks(vec![10, 20], vec![30, 40]);
    for i in 0..=4 {
        let before = seen(&deque);
        deque.insert(i, 99);
        assert_eq!(deque.len(), 5);
        assert_eq!(deque.remove(i), Some(99));
        assert_eq!(seen(&deque), before);
    }
}

#[test]
fn test_rotate_round_trip_all_splits() {
    for front in 0..5 {
        let mut deque = AltDeque::new();
        for i in (0..front).rev() {
            deque.push_front(i);
        }
        for i in front..6 {
            deque.push_back(i);
        }
        let before = seen(&deque);
        for k in 0..=6 {
            deque.rotate_left(k);
            deque.rotate_right(k);
            assert_eq!(seen(&deque), before, "front: {}, k: {}", front, k);
        }
    }
}

#[test]
fn test_make_contiguous_twice() {
    let mut deque = AltDeque::from_stacks(vec![1, 2, 3], vec![4, 5]);
    deque.make_contiguous();
    let first = stacks(&deque);
    let cap = deque.capacity();
    deque.make_contiguous();
    assert_eq!(stacks(&deque), first);
    assert_eq!(deque.capacity(), cap);
    assert_eq!(first, (vec![1, 2, 3, 4, 5], vec![]));
}

#[test]
fn test_shrink_to_keeps_bounds() {
    let mut deque = AltDeque::with_capacity(16);
    for i in 0..4 {
        deque.push_back(i);
    }
    deque.shrink_to(7);
    assert!(deque.capacity() >= 7);
    assert!(deque.capacity() >= deque.len());
    deque.shrink_to(0);
    assert!(deque.capacity() >= 4);
    assert_eq!(seen(&deque), vec![0, 1, 2, 3]);
}

#[test]
fn test_drain_reverse_keeps_order() {
    let mut deque = AltDeque::from_stacks(vec![-3, -2, -1], vec![1, 2, 3]);
    let mut drain = deque.drain(1, 5);
    let mut backwards = Vec::new();
    while let Some(el) = drain.next_back() {
        backwards.push(el);
    }
    assert_eq!(backwards, vec![2, 1, -1, -2]);
    assert_eq!(seen(&deque), vec![-3, 3]);
}

#[test]
fn test_zero_sized_capacity() {
    let mut deque: AltDeque<()> = AltDeque::new();
    assert_eq!(deque.capacity(), usize::MAX);
    deque.push_back(());
    deque.push_front(());
    assert_eq!(deque.len(), 2);
    assert_eq!(deque.capacity(), usize::MAX);
    deque.shrink_to_fit();
    assert_eq!(deque.capacity(), usize::MAX);
    deque.shrink_to(1);
    assert_eq!(deque.capacity(), usize::MAX);
    assert_eq!(deque.pop_front(), Some(()));
    assert_eq!(deque.len(), 1);

    let deque = AltDeque::<()>::with_capacity(5);
    assert_eq!(deque.capacity(), usize::MAX);
    let buf = RawVec::<()>::with_capacity(3);
    assert_eq!(buf.capacity(), usize::MAX);
}

#[test]
fn test_try_reserve_byte_limit() {
    // an element count whose byte size exceeds the platform's object limit
    let mut buf: RawVec<u64> = RawVec::with_capacity(1);
    assert_eq!(buf.try_reserve(1, usize::MAX / 8), Err(TryReserveError::CapacityOverflow));
    assert_eq!(buf.capacity(), 1);
    assert_eq!(buf.try_reserve_exact(1, usize::MAX / 8), Err(TryReserveError::CapacityOverflow));
    assert_eq!(buf.capacity(), 1);
}

#[test]
fn test_try_reserve_overflow() {
    let mut buf: RawVec<i32> = RawVec::with_capacity(1);
    assert_eq!(buf.try_reserve(1, usize::MAX), Err(TryReserveError::CapacityOverflow));
    assert_eq!(buf.capacity(), 1);
    assert_eq!(buf.try_reserve_exact(1, usize::MAX), Err(TryReserveError::CapacityOverflow));
    assert_eq!(buf.capacity(), 1);
}

#[test]
fn test_try_reserve_grows() {
    let mut buf: RawVec<u8> = RawVec::new();
    assert_eq!(buf.try_reserve(0, 3), Ok(()));
    assert_eq!(buf.capacity(), 8);
    let mut buf: RawVec<u64> = RawVec::new();
    assert_eq!(buf.try_reserve_exact(0, 3), Ok(()));
    assert_eq!(buf.capacity(), 3);
}

#[test]
fn test_empty_edge_cases() {
    let mut deque: AltDeque<i32> = AltDeque::new();
    assert_eq!(deque.pop_front(), None);
    assert_eq!(deque.pop_back(), None);
    assert_eq!(deque.front(), None);
    assert_eq!(deque.back(), None);
    assert_eq!(deque.remove(0), None);
    assert_eq!(deque.swap_remove_front(0), None);
    assert_eq!(deque.swap_remove_back(0), None);
    deque.truncate(5);
    deque.make_contiguous();
    assert!(deque.is_empty());
}

#[test]
fn test_alternating_ends() {
    // exercise the stack flip from both sides against a reference model
    let mut deque = AltDeque::new();
    let mut model = std::collections::VecDeque::new();
    for i in 0..20 {
        if i % 3 == 0 {
            deque.push_front(i);
            model.push_front(i);
        } else {
            deque.push_back(i);
            model.push_back(i);
        }
        if i % 4 == 3 {
            assert_eq!(deque.pop_front(), model.pop_front());
        }
        if i % 5 == 4 {
            assert_eq!(deque.pop_back(), model.pop_back());
        }
    }
    let flat: Vec<i32> = model.into_iter().collect();
    assert_eq!(seen(&deque), flat);
}

#[test]
fn test_retain_keeps_order() {
    let mut deque = AltDeque::from_stacks(vec![9, 4, 7], vec![2, 5, 8, 1]);
    deque.retain(|el| el % 2 == 1);
    assert_eq!(seen(&deque), vec![9, 7, 5, 1]);
}
