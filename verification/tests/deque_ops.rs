use altdeque::AltDeque;
use std::rc::Rc;

fn contents(d: &AltDeque<i32>) -> Vec<i32> {
    d.iter().into_iter().copied().collect()
}

fn slices(d: &AltDeque<i32>) -> (Vec<i32>, Vec<i32>) {
    let (a, b) = d.as_slices();
    (a.into_iter().copied().collect(), b.into_iter().copied().collect())
}

#[test]
fn test_new() {
    let deque = AltDeque::<u64>::new();
    assert_eq!(deque.capacity(), 0);
    assert_eq!(deque.len(), 0);
    assert!(deque.iter().is_empty());
}

#[test]
fn test_with_capacity() {
    let deque = AltDeque::<u64>::with_capacity(8);
    assert_eq!(deque.capacity(), 8);
    assert_eq!(deque.len(), 0);
    assert!(deque.iter().is_empty());
}

#[test]
fn test_len_and_empty() {
    let mut deque = AltDeque::from_vec(vec![1, 2, 3]);
    assert_eq!(deque.len(), 3);
    assert!(!deque.is_empty());
    assert_eq!(deque.pop_front(), Some(1));
    assert_eq!(deque.pop_front(), Some(2));
    assert_eq!(deque.pop_front(), Some(3));
    assert_eq!(deque.len(), 0);
    assert!(deque.is_empty());
}

#[test]
fn test_as_slices() {
    let mut deque = AltDeque::new();
    deque.push_back(0);
    deque.push_back(1);
    deque.push_back(2);
    assert_eq!(slices(&deque), (vec![], vec![0, 1, 2]));
    deque.push_front(3);
    deque.push_front(4);
    assert_eq!(slices(&deque), (vec![4, 3], vec![0, 1, 2]));
}

#[test]
fn test_get() {
    let deque = AltDeque::from_stacks(vec![1, 2], vec![3, 4]);
    assert_eq!(deque.get(0), Some(&1));
    assert_eq!(deque.get(1), Some(&2));
    assert_eq!(deque.get(2), Some(&3));
    assert_eq!(deque.get(3), Some(&4));
    assert_eq!(deque.get(5), None);
}

#[test]
fn test_get_mut() {
    let mut deque = AltDeque::from_vec(vec![1, 2, 3]);
    *deque.get_mut(1).unwrap() += 40;
    assert_eq!(deque.get(1), Some(&42));
    assert_eq!(deque.get_mut(3), None);
}

#[test]
fn test_reserve_and_exact() {
    let mut deque = AltDeque::from_vec(vec![1, 2, 3, 4]);
    deque.reserve_exact(3);
    assert_eq!(deque.capacity(), 7);
    deque.reserve(4);
    assert_eq!(deque.capacity(), 14);
}

#[test]
fn test_resize() {
    let mut deque = AltDeque::from_vec(vec![1, 2, 3]);
    deque.resize(2, 5);
    assert_eq!(contents(&deque), vec![1, 2]);
    deque.resize(5, 5);
    assert_eq!(contents(&deque), vec![1, 2, 5, 5, 5]);
}

#[test]
fn test_resize_with() {
    let mut deque = AltDeque::from_vec(vec![1, 2, 3]);
    deque.resize_with(2, || unreachable!());
    assert_eq!(contents(&deque), vec![1, 2]);
    deque.resize_with(5, || 2 + 3);
    assert_eq!(contents(&deque), vec![1, 2, 5, 5, 5]);
}

#[test]
fn test_shrink() {
    let mut deque = AltDeque::<i8>::new();
    deque.push_front(-1);
    deque.push_back(1);
    let (a, b) = deque.as_slices();
    assert_eq!((a, b), (vec![&-1], vec![&1]));
    assert_eq!(deque.capacity(), 8);
    deque.shrink_to(0);
    let (a, b) = deque.as_slices();
    assert_eq!((a, b), (vec![&-1], vec![&1]));
    assert_eq!(deque.capacity(), 2);
}

#[test]
fn test_truncate() {
    let el_2 = Rc::new(2);
    let el_4 = Rc::new(4);
    let weak_2 = Rc::downgrade(&el_2);
    let weak_4 = Rc::downgrade(&el_4);
    {
        let mut deque = AltDeque::from_stacks(vec![Rc::new(1), el_2, Rc::new(3)], vec![el_4]);
        deque.truncate(1);
        let (a, b) = deque.as_slices();
        assert_eq!((a, b), (vec![&Rc::new(1)], vec![]));
    }
    // check that the truncated elements have been dropped
    assert!(weak_2.upgrade().is_none());
    assert!(weak_4.upgrade().is_none());
}

#[test]
fn test_clear() {
    let mut deque = AltDeque::from_vec(vec![1, 2, 3]);
    deque.clear();
    assert!(deque.is_empty());
}

#[test]
fn test_contains() {
    let deque = AltDeque::from_stacks(vec![1, 2], vec![3, 4]);
    assert!(deque.contains(&1));
    assert!(deque.contains(&3));
    assert!(!deque.contains(&5));
}

#[test]
fn test_front() {
    let mut deque = AltDeque::new();
    deque.push_back(1);
    deque.push_back(2);
    assert_eq!(deque.front(), Some(&1));
    deque.push_front(3);
    deque.push_front(4);
    assert_eq!(deque.front(), Some(&4));
    deque.clear();
    assert_eq!(deque.front(), None);

    let mut deque = AltDeque::new();
    deque.push_back(1);
    deque.push_back(2);
    assert_eq!(deque.front_mut(), Some(&mut 1));
    deque.push_front(3);
    deque.push_front(4);
    assert_eq!(deque.front_mut(), Some(&mut 4));
    deque.clear();
    assert_eq!(deque.front_mut(), None);
}

#[test]
fn test_back() {
    let mut deque = AltDeque::new();
    deque.push_front(1);
    deque.push_front(2);
    assert_eq!(deque.back(), Some(&1));
    deque.push_back(3);
    deque.push_back(4);
    assert_eq!(deque.back(), Some(&4));
    deque.clear();
    assert_eq!(deque.back(), None);

    let mut deque = AltDeque::new();
    deque.push_front(1);
    deque.push_front(2);
    assert_eq!(deque.back_mut(), Some(&mut 1));
    deque.push_back(3);
    deque.push_back(4);
    assert_eq!(deque.back_mut(), Some(&mut 4));
    deque.clear();
    assert_eq!(deque.back_mut(), None);
}

#[test]
fn test_pop_front() {
    let mut deque = AltDeque::new();
    deque.push_back(1);
    deque.push_back(2);
    deque.push_back(3);
    assert_eq!(deque.pop_front(), Some(1));
    assert_eq!(deque.pop_front(), Some(2));
    assert_eq!(slices(&deque), (vec![3], vec![]));
}

#[test]
fn test_pop_back() {
    let mut deque = AltDeque::new();
    deque.push_front(1);
    deque.push_front(2);
    deque.push_front(3);
    assert_eq!(deque.pop_back(), Some(1));
    assert_eq!(deque.pop_back(), Some(2));
    assert_eq!(slices(&deque), (vec![], vec![3]));
}

#[test]
fn test_push_front() {
    let mut deque = AltDeque::new();
    deque.push_front(1);
    deque.push_front(2);
    deque.push_front(3);
    assert_eq!(slices(&deque), (vec![3, 2, 1], vec![]));
}

#[test]
fn test_push_back() {
    let mut deque = AltDeque::new();
    deque.push_back(1);
    deque.push_back(2);
    deque.push_back(3);
    assert_eq!(slices(&deque), (vec![], vec![1, 2, 3]));
}

#[test]
fn test_swap() {
    let mut deque = AltDeque::from_stacks(vec![-3, -2, -1], vec![1, 2, 3]);
    deque.swap(0, 2);
    assert_eq!(contents(&deque), vec![-1, -2, -3, 1, 2, 3]);
    deque.swap(3, 5);
    assert_eq!(contents(&deque), vec![-1, -2, -3, 3, 2, 1]);
    deque.swap(2, 3);
    assert_eq!(contents(&deque), vec![-1, -2, 3, -3, 2, 1]);
    deque.swap(0, 0);
    assert_eq!(contents(&deque), vec![-1, -2, 3, -3, 2, 1]);
}

#[test]
fn test_swap_remove_front() {
    let mut deque = AltDeque::from_stacks(vec![-3, -2, -1], vec![1, 2, 3]);
    assert_eq!(deque.swap_remove_front(2), Some(-1));
    assert_eq!(contents(&deque), vec![-2, -3, 1, 2, 3]);
    assert_eq!(deque.swap_remove_front(2), Some(1));
    assert_eq!(contents(&deque), vec![-3, -2, 2, 3]);
    assert_eq!(deque.swap_remove_front(0), Some(-3));
    assert_eq!(contents(&deque), vec![-2, 2, 3]);
    assert_eq!(deque.swap_remove_front(2), Some(3));
    assert_eq!(contents(&deque), vec![2, -2]);
    assert_eq!(deque.swap_remove_front(2), None);
}

#[test]
fn test_swap_remove_back() {
    let mut deque = AltDeque::from_stacks(vec![-3, -2, -1], vec![1, 2, 3]);
    assert_eq!(deque.swap_remove_back(2), Some(-1));
    assert_eq!(contents(&deque), vec![-3, -2, 3, 1, 2]);
    assert_eq!(deque.swap_remove_back(2), Some(3));
    assert_eq!(contents(&deque), vec![-3, -2, 2, 1]);
    assert_eq!(deque.swap_remove_back(0), Some(-3));
    assert_eq!(contents(&deque), vec![1, -2, 2]);
    assert_eq!(deque.swap_remove_back(2), Some(2));
    assert_eq!(contents(&deque), vec![1, -2]);
    assert_eq!(deque.swap_remove_back(2), None);
}

#[test]
fn test_remove() {
    let mut deque = AltDeque::from_stacks(vec![-3, -2, -1], vec![1, 2, 3]);
    assert_eq!(deque.remove(2), Some(-1));
    assert_eq!(contents(&deque), vec![-3, -2, 1, 2, 3]);
    assert_eq!(deque.remove(2), Some(1));
    assert_eq!(contents(&deque), vec![-3, -2, 2, 3]);
    assert_eq!(deque.remove(0), Some(-3));
    assert_eq!(contents(&deque), vec![-2, 2, 3]);
    assert_eq!(deque.remove(2), Some(3));
    assert_eq!(contents(&deque), vec![-2, 2]);
    assert_eq!(deque.remove(2), None);
}

#[test]
fn test_insert() {
    let mut deque = AltDeque::from_stacks(vec![-3, -2, -1], vec![1, 2, 3]);
    deque.insert(0, 4);
    assert_eq!(contents(&deque), vec![4, -3, -2, -1, 1, 2, 3]);
    deque.insert(3, 5);
    assert_eq!(contents(&deque), vec![4, -3, -2, 5, -1, 1, 2, 3]);
    deque.insert(5, 6);
    assert_eq!(contents(&deque), vec![4, -3, -2, 5, -1, 6, 1, 2, 3]);
    deque.insert(9, 7);
    assert_eq!(contents(&deque), vec![4, -3, -2, 5, -1, 6, 1, 2, 3, 7]);
}

#[test]
fn test_split_off() {
    let mut deque = AltDeque::from_stacks(vec![-3, -2, -1], vec![1, 2, 3]);
    let other = deque.split_off(6);
    assert_eq!(slices(&deque), (vec![-3, -2, -1], vec![1, 2, 3]));
    assert_eq!(slices(&other), (vec![], vec![]));
    let other = deque.split_off(5);
    assert_eq!(slices(&deque), (vec![-3, -2, -1], vec![1, 2]));
    assert_eq!(slices(&other), (vec![3], vec![]));
    let other = deque.split_off(2);
    assert_eq!(slices(&deque), (vec![-3, -2], vec![]));
    assert_eq!(slices(&other), (vec![-1, 1, 2], vec![]));
    let other = deque.split_off(0);
    assert_eq!(slices(&deque), (vec![], vec![]));
    assert_eq!(slices(&other), (vec![-3, -2], vec![]));
}

#[test]
fn test_append() {
    let mut deque = AltDeque::from_stacks(vec![-3, -2, -1], vec![1, 2, 3]);
    let mut other = AltDeque::from_stacks(vec![-3, -2, -1], vec![1, 2, 3]);
    deque.append(&mut other);
    assert_eq!(slices(&deque), (vec![-3, -2, -1], vec![1, 2, 3, -3, -2, -1, 1, 2, 3]));
    assert!(other.is_empty());
}

#[test]
fn test_retain() {
    let mut deque = AltDeque::from_stacks(vec![-3, -2, -1], vec![1, 2, 3]);
    deque.retain(|el| el % 2 == 0);
    assert_eq!(contents(&deque), vec![-2, 2]);
}

#[test]
fn test_make_contiguous() {
    let mut deque = AltDeque::new();
    deque.push_back(1);
    deque.push_back(2);
    // everything is in the back stack
    deque.make_contiguous();
    assert_eq!(slices(&deque), (vec![1, 2], vec![]));
    // everything is in the front stack
    deque.make_contiguous();
    assert_eq!(slices(&deque), (vec![1, 2], vec![]));

    deque.push_back(3);
    deque.push_back(4);
    deque.reserve(2);
    // there is enough space to copy the back stack
    deque.make_contiguous();
    assert_eq!(slices(&deque), (vec![1, 2, 3, 4], vec![]));

    deque.push_back(5);
    deque.push_back(6);
    deque.push_back(7);
    deque.push_back(8);
    deque.pop_front();
    deque.pop_front();
    // there is enough space to copy the front stack but not to copy the back stack
    assert_eq!(deque.capacity(), 8);
    deque.make_contiguous();
    assert_eq!(slices(&deque), (vec![3, 4, 5, 6, 7, 8], vec![]));

    deque.push_back(9);
    deque.push_back(10);
    // there is neither enough space to copy the front stack nor the back stack
    assert_eq!(deque.capacity(), 8);
    deque.make_contiguous();
    assert_eq!(slices(&deque), (vec![3, 4, 5, 6, 7, 8, 9, 10], vec![]));

    // tight layouts with a small gap and both stacks occupied
    let mut deque = AltDeque::from_stacks(vec![1, 2], vec![3, 4, 5, 6, 7, 8, 9, 10, 11]);
    deque.pop_back();
    deque.pop_back();
    deque.make_contiguous();
    assert_eq!(slices(&deque), (vec![1, 2, 3, 4, 5, 6, 7, 8, 9], vec![]));
    let mut deque = AltDeque::from_stacks(vec![1, 2, 3, 4], vec![5, 6, 7, 8, 9, 10, 11]);
    deque.pop_back();
    deque.make_contiguous();
    assert_eq!(slices(&deque), (vec![1, 2, 3, 4, 5, 6, 7, 8, 9, 10], vec![]));
    let mut deque = AltDeque::from_stacks(vec![1, 2], vec![3, 4, 5, 6, 7, 8, 9, 10]);
    deque.pop_back();
    deque.make_contiguous();
    assert_eq!(slices(&deque), (vec![1, 2, 3, 4, 5, 6, 7, 8, 9], vec![]));
}

#[test]
fn test_rotate() {
    // just test every possible combination of front len, back len and mid in 0..10
    for left_count in 0..10i32 {
        for right_count in 0..10i32 {
            let len = left_count + right_count;
            for mid in 0..len + 1 {
                let mut deque = AltDeque::new();
                let vec_l: Vec<_> = (mid..len).chain(0..mid).collect();
                let vec_r: Vec<_> = (len - mid..len).chain(0..len - mid).collect();
                for i in (0..left_count).rev() {
                    deque.push_front(i);
                }
                for i in left_count..len {
                    deque.push_back(i);
                }
                let mut deque_l = deque.clone();
                let mut deque_r = deque;
                deque_l.rotate_left(mid as usize);
                deque_r.rotate_right(mid as usize);
                assert_eq!(
                    contents(&deque_l),
                    vec_l,
                    "left_count: {}, right_count: {}, mid: {}",
                    left_count,
                    right_count,
                    mid
                );
                assert_eq!(
                    contents(&deque_r),
                    vec_r,
                    "left_count: {}, right_count: {}, k: {}",
                    left_count,
                    right_count,
                    mid
                );
            }
        }
    }
}

#[test]
fn test_binary_search() {
    let deque = AltDeque::from_stacks(vec![-3, -2, -1], vec![1, 2, 3]);
    assert_eq!(deque.binary_search(&-3), Ok(0));
    assert_eq!(deque.binary_search(&-1), Ok(2));
    assert_eq!(deque.binary_search(&-5), Err(0));
    assert_eq!(deque.binary_search(&0), Err(3));
    assert_eq!(deque.binary_search(&5), Err(6));
}

#[test]
fn test_binary_search_by() {
    let deque = AltDeque::from_stacks(vec![-3, -2, -1], vec![1, 2, 3]);
    assert_eq!(deque.binary_search_by(|x| x.cmp(&-3)), Ok(0));
    assert_eq!(deque.binary_search_by(|x| x.cmp(&-1)), Ok(2));
    assert_eq!(deque.binary_search_by(|x| x.cmp(&-5)), Err(0));
    assert_eq!(deque.binary_search_by(|x| x.cmp(&0)), Err(3));
    assert_eq!(deque.binary_search_by(|x| x.cmp(&5)), Err(6));
}

#[test]
fn test_binary_search_by_key() {
    let deque = AltDeque::from_stacks(
        vec![(0, -3), (0, -2), (0, -1)],
        vec![(0, 1), (0, 2), (0, 3)],
    );
    assert_eq!(deque.binary_search_by_key(&-3, |x| x.1), Ok(0));
    assert_eq!(deque.binary_search_by_key(&-1, |x| x.1), Ok(2));
    assert_eq!(deque.binary_search_by_key(&-5, |x| x.1), Err(0));
    assert_eq!(deque.binary_search_by_key(&0, |x| x.1), Err(3));
    assert_eq!(deque.binary_search_by_key(&5, |x| x.1), Err(6));
}

#[test]
fn test_partition_point() {
    let deque = AltDeque::from_stacks(vec![1, 3, 5], vec![7, 9, 11]);
    assert_eq!(deque.partition_point(|&x| x < 1), 0);
    assert_eq!(deque.partition_point(|&x| x < 5), 2);
    assert_eq!(deque.partition_point(|&x| x < 7), 3);
    assert_eq!(deque.partition_point(|&x| x < 50), 6);
}

#[test]
fn test_iter() {
    let deque = AltDeque::<i32>::from_stacks(vec![-3, -2, -1], vec![1, 2, 3]);

    assert_eq!(deque.iter().into_iter().copied().collect::<Vec<_>>(), vec![-3, -2, -1, 1, 2, 3]);
    assert_eq!(deque.iter().into_iter().skip(4).copied().collect::<Vec<_>>(), vec![2, 3]);

    assert_eq!(deque.iter().len(), 6);
    assert_eq!(deque.iter().into_iter().skip(4).count(), 2);

    assert_eq!(deque.iter().into_iter().fold(0, |acc, x| acc + x.abs()), 12);
    assert_eq!(deque.iter().into_iter().skip(4).fold(0, |acc, x| acc + x.abs()), 5);

    let items = deque.iter();
    let mut iter = items.into_iter();
    assert_eq!((iter.nth(0), iter.nth(0)), (Some(&-3), Some(&-2)));
    assert_eq!((iter.nth(2), iter.nth(2)), (Some(&2), None));

    assert_eq!(deque.iter().into_iter().last(), Some(&3));
}

#[test]
fn test_range() {
    let deque = AltDeque::from_stacks(vec![-3, -2, -1], vec![1, 2, 3]);
    assert_eq!(deque.range(0, 6).into_iter().copied().collect::<Vec<_>>(), [-3, -2, -1, 1, 2, 3]);
    assert_eq!(deque.range(2, 4).into_iter().copied().collect::<Vec<_>>(), [-1, 1]);
    assert_eq!(deque.range(4, 6).into_iter().copied().collect::<Vec<_>>(), [2, 3]);
    assert_eq!(deque.range(0, 2).into_iter().copied().collect::<Vec<_>>(), [-3, -2]);
}

#[test]
fn test_drain() {
    let deque = AltDeque::from_stacks(vec![-3, -2, -1], vec![1, 2, 3]);

    let mut deque2 = deque.clone();
    {
        let mut drain = deque2.drain(0, 6);
        let mut drained = Vec::new();
        while let Some(el) = drain.next() {
            drained.push(el);
        }
        assert_eq!(drained, vec![-3, -2, -1, 1, 2, 3]);
    }
    assert_eq!(contents(&deque2), vec![]);

    let mut deque2 = deque.clone();
    {
        let mut drain = deque2.drain(1, 5);
        let mut drained = Vec::new();
        while let Some(el) = drain.next() {
            drained.push(el);
        }
        assert_eq!(drained, vec![-2, -1, 1, 2]);
    }
    assert_eq!(contents(&deque2), vec![-3, 3]);

    let mut deque2 = deque.clone();
    {
        let mut drain = deque2.drain(1, 2);
        let mut drained = Vec::new();
        while let Some(el) = drain.next() {
            drained.push(el);
        }
        assert_eq!(drained, vec![-2]);
    }
    assert_eq!(contents(&deque2), vec![-3, -1, 1, 2, 3]);

    let mut deque2 = deque.clone();
    {
        let mut drain = deque2.drain(4, 5);
        let mut drained = Vec::new();
        while let Some(el) = drain.next() {
            drained.push(el);
        }
        assert_eq!(drained, vec![2]);
    }
    assert_eq!(contents(&deque2), vec![-3, -2, -1, 1, 3]);

    let mut deque = deque;
    let mut drain = deque.drain(2, 4);
    assert_eq!(drain.size_hint(), (2, Some(2)));
    assert_eq!(drain.next_back(), Some(1));
    assert_eq!(drain.next_back(), Some(-1));
    assert_eq!(drain.next_back(), None);
}
