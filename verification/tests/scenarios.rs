use ringbuf::power::next_power_of_two;
use ringbuf::storage::is_representable;
use ringbuf::{reset_plan, ResetPlan, RingBuf, MINIMUM_CAPACITY};
use std::cmp::Ordering;

/// The elements front to back, by `get`.
fn contents(rb: &RingBuf<i64>) -> Vec<i64> {
    (0..rb.len()).map(|i| *rb.get(i)).collect()
}

/// A ring buffer of `capacity` slots whose first element lies `lo` slots
/// into the block, holding `items`.
fn ring_at(items: &[i64], capacity: usize, lo: usize) -> RingBuf<i64> {
    let mut rb = RingBuf::with_capacity(capacity);
    for _ in 0..lo {
        rb.push_back(0);
        rb.pop_front();
    }
    for &i in items {
        rb.push_back(i);
    }
    rb
}

#[test]
fn empty_then_two_pushed_back() {
    let mut rb = RingBuf::new();
    rb.push_back(1i64);
    rb.push_back(2);
    assert_eq!(rb.front(), Some(&1));
    assert_eq!(rb.back(), Some(&2));
    assert_eq!(rb.len(), 2);
    assert_eq!(rb.pop_front(), Some(1));
    assert_eq!(rb.into_vec(), vec![2]);
}

#[test]
fn wrap_and_growth_together() {
    let mut rb = RingBuf::with_capacity(1);
    rb.push_back(4i64);
    rb.push_back(5);
    rb.push_front(3);
    rb.push_back(6);
    rb.push_front(2);
    rb.push_front(1);
    assert_eq!(rb.capacity(), 8);
    assert_eq!(contents(&rb), vec![1, 2, 3, 4, 5, 6]);
    assert_eq!(rb.into_vec(), vec![1, 2, 3, 4, 5, 6]);
}

#[test]
fn sixty_six_pushed_front() {
    let mut rb = RingBuf::new();
    for v in 0..66i64 {
        rb.push_front(v);
    }
    assert_eq!(rb.len(), 66);
    assert!(rb.capacity() >= 66);
    assert!(rb.capacity().is_power_of_two());
    assert_eq!(rb.capacity(), 128);
    for i in 0..66usize {
        assert_eq!(*rb.get(i), 65 - i as i64);
    }
}

#[test]
fn new_has_no_block() {
    let rb: RingBuf<i64> = RingBuf::new();
    assert_eq!(rb.len(), 0);
    assert_eq!(rb.capacity(), 0);
}

#[test]
fn with_capacity_rounds_up_to_the_minimum() {
    assert_eq!(MINIMUM_CAPACITY, 2);
    assert_eq!(RingBuf::<i64>::with_capacity(0).capacity(), 2);
    assert_eq!(RingBuf::<i64>::with_capacity(1).capacity(), 2);
    assert_eq!(RingBuf::<i64>::with_capacity(2).capacity(), 2);
    assert_eq!(RingBuf::<i64>::with_capacity(10).capacity(), 10);
}

#[test]
fn full_ring_grows_to_twice_its_length() {
    let mut rb = RingBuf::new();
    rb.push_back(1i64);
    assert_eq!(rb.capacity(), 2);
    rb.push_back(2);
    assert_eq!(rb.capacity(), 2);
    rb.push_back(3);
    assert_eq!(rb.capacity(), 4);
    let mut one = RingBuf::from_vec(vec![7i64]);
    assert_eq!(one.capacity(), 1);
    one.push_front(6);
    assert_eq!(one.capacity(), 2);
    assert_eq!(one.into_vec(), vec![6, 7]);
}

#[test]
fn offsets_wrap_around() {
    let rb = ring_at(&[1, 2, 3], 4, 3);
    assert_eq!(rb.get_offset(0), 3);
    assert_eq!(rb.get_offset(1), 0);
    assert_eq!(rb.get_offset(2), 1);
    assert_eq!(rb.get_back_offset(), 2);
    assert_eq!(rb.get_front_offset(), 2);
    let at_start = ring_at(&[1], 4, 0);
    assert_eq!(at_start.get_front_offset(), 3);
    assert_eq!(at_start.get_back_offset(), 1);
    assert_eq!(at_start.get_offset(4), 0);
}

#[test]
fn spans_of_a_wrapped_ring() {
    let rb = ring_at(&[1, 2, 3], 4, 3);
    let (first, second) = rb.get_spans();
    assert_eq!((first.start, first.len), (3, 1));
    assert_eq!((second.start, second.len), (0, 2));
    let (head, tail) = rb.as_slices();
    assert_eq!(head.slots.to_vec(), vec![Some(1)]);
    assert_eq!(tail.slots.to_vec(), vec![Some(2), Some(3)]);
    assert!(head.items.is_empty() && tail.items.is_empty());
    assert_eq!((head.len(), tail.len()), (1, 2));
    assert_eq!((head.get(0), tail.get(1)), (&1, &3));
}

#[test]
fn spans_of_a_ring_that_does_not_wrap() {
    let rb = ring_at(&[1, 2], 4, 1);
    let (first, second) = rb.get_spans();
    assert_eq!((first.start, first.len), (1, 2));
    assert_eq!((second.start, second.len), (0, 0));
    let (head, tail) = rb.as_slices();
    assert_eq!(head.slots.to_vec(), vec![Some(1), Some(2)]);
    assert_eq!(tail.len(), 0);
    let full = ring_at(&[1, 2, 3, 4], 4, 0);
    let (first, second) = full.get_spans();
    assert_eq!((first.start, first.len), (0, 4));
    assert_eq!((second.start, second.len), (0, 0));
}

#[test]
fn writing_through_the_slices() {
    let mut rb = ring_at(&[1, 2, 3], 4, 3);
    {
        let (mut head, mut tail) = rb.as_mut_slices();
        head.slots[0] = Some(10);
        *tail.get_mut(1) = 30;
        assert_eq!((head.len(), tail.len()), (1, 2));
    }
    assert_eq!(contents(&rb), vec![10, 2, 30]);
}

#[test]
fn get_mut_and_the_ends() {
    let mut rb = ring_at(&[1, 2, 3], 4, 2);
    *rb.get_mut(1) = 20;
    *rb.front_mut().unwrap() = 10;
    *rb.back_mut().unwrap() = 30;
    assert_eq!(contents(&rb), vec![10, 20, 30]);
    let mut empty: RingBuf<i64> = RingBuf::new();
    assert!(empty.front_mut().is_none());
    assert!(empty.back_mut().is_none());
    assert_eq!(empty.front(), None);
    assert_eq!(empty.back(), None);
    assert_eq!(empty.pop_front(), None);
    assert_eq!(empty.pop_back(), None);
}

#[test]
fn swap_exchanges_two_elements() {
    let mut rb = ring_at(&[1, 2, 3], 4, 3);
    rb.swap(0, 2);
    assert_eq!(contents(&rb), vec![3, 2, 1]);
    rb.swap(1, 1);
    assert_eq!(contents(&rb), vec![3, 2, 1]);
}

#[test]
fn truncate_and_clear() {
    let mut rb = ring_at(&[1, 2, 3, 4], 4, 2);
    rb.truncate(7);
    assert_eq!(contents(&rb), vec![1, 2, 3, 4]);
    rb.truncate(2);
    assert_eq!(contents(&rb), vec![1, 2]);
    rb.truncate(2);
    assert_eq!(contents(&rb), vec![1, 2]);
    assert_eq!(rb.capacity(), 4);
    rb.clear();
    assert_eq!(rb.len(), 0);
    assert_eq!(rb.capacity(), 4);
}

#[test]
fn reset_plan_takes_the_first_case_that_holds() {
    assert_eq!(reset_plan(0, 0, 5), ResetPlan::Nothing);
    assert_eq!(reset_plan(0, 3, 0), ResetPlan::Nothing);
    assert_eq!(reset_plan(3, 0, 0), ResetPlan::ShiftDown);
    assert_eq!(reset_plan(2, 3, 2), ResetPlan::MoveBoth);
    assert_eq!(reset_plan(2, 3, 5), ResetPlan::MoveBoth);
    assert_eq!(reset_plan(2, 4, 1), ResetPlan::StashHead);
    assert_eq!(reset_plan(3, 2, 2), ResetPlan::StashTail);
    assert_eq!(reset_plan(3, 3, 1), ResetPlan::StashTail);
}

#[test]
fn into_vec_in_each_case_of_the_plan() {
    // no element
    assert_eq!(ring_at(&[], 4, 2).into_vec(), Vec::<i64>::new());
    // the live range does not wrap
    assert_eq!(ring_at(&[1, 2, 3], 7, 1).into_vec(), vec![1, 2, 3]);
    // both spans move: [3, 4, 5, _, _, 1, 2]
    assert_eq!(ring_at(&[1, 2, 3, 4, 5], 7, 5).into_vec(), vec![1, 2, 3, 4, 5]);
    // the first span waits: [3, 4, 5, 6, _, 1, 2]
    assert_eq!(ring_at(&[1, 2, 3, 4, 5, 6], 7, 5).into_vec(), vec![1, 2, 3, 4, 5, 6]);
    // the second span waits: [4, 5, _, _, 1, 2, 3] with one more element
    assert_eq!(ring_at(&[1, 2, 3, 4, 5, 6], 7, 4).into_vec(), vec![1, 2, 3, 4, 5, 6]);
    assert_eq!(ring_at(&[1, 2, 3, 4, 5, 6, 7], 7, 3).into_vec(), vec![1, 2, 3, 4, 5, 6, 7]);
}

#[test]
fn next_power_of_two_values() {
    assert_eq!(next_power_of_two(0), 1);
    assert_eq!(next_power_of_two(1), 1);
    assert_eq!(next_power_of_two(2), 2);
    assert_eq!(next_power_of_two(3), 4);
    assert_eq!(next_power_of_two(10), 16);
    assert_eq!(next_power_of_two(64), 64);
    assert_eq!(next_power_of_two(65), 128);
}

#[test]
fn reserve_grows_to_a_power_of_two() {
    let mut rb: RingBuf<i64> = RingBuf::new();
    rb.reserve(10);
    assert_eq!(rb.capacity(), 16);
    rb.reserve(4);
    assert_eq!(rb.capacity(), 16);
    let mut ten: RingBuf<i64> = RingBuf::with_capacity(10);
    ten.reserve(4);
    assert_eq!(ten.capacity(), 10);
    ten.reserve(11);
    assert_eq!(ten.capacity(), 16);
}

#[test]
fn reserve_exact_and_additional() {
    let mut rb: RingBuf<i64> = RingBuf::with_capacity(10);
    rb.reserve_exact(11);
    assert_eq!(rb.capacity(), 11);
    rb.reserve_exact(5);
    assert_eq!(rb.capacity(), 11);
    let mut one = ring_at(&[1], 2, 1);
    one.reserve_additional(1);
    assert_eq!(one.capacity(), 2);
    one.reserve_additional(10);
    assert_eq!(one.capacity(), 16);
    assert_eq!(contents(&one), vec![1]);
}

#[test]
fn shrink_to_fit_keeps_the_elements() {
    let mut rb = ring_at(&[1, 2, 3], 8, 6);
    rb.shrink_to_fit();
    assert_eq!(rb.capacity(), 3);
    assert_eq!(contents(&rb), vec![1, 2, 3]);
    let mut empty: RingBuf<i64> = RingBuf::with_capacity(4);
    empty.shrink_to_fit();
    assert_eq!(empty.capacity(), 0);
    empty.push_back(1);
    assert_eq!(empty.capacity(), 2);
}

#[test]
fn resize_moves_the_elements_to_the_start() {
    let mut rb = ring_at(&[1, 2, 3], 4, 3);
    rb.resize(6);
    assert_eq!(rb.capacity(), 6);
    let (first, second) = rb.get_spans();
    assert_eq!((first.start, first.len), (0, 3));
    assert_eq!(second.len, 0);
    assert_eq!(contents(&rb), vec![1, 2, 3]);
}

#[test]
fn resize_to_the_same_capacity_moves_nothing() {
    let mut rb = ring_at(&[1, 2, 3], 4, 3);
    rb.resize(4);
    let (first, second) = rb.get_spans();
    assert_eq!((first.start, first.len), (3, 1));
    assert_eq!((second.start, second.len), (0, 2));
    assert_eq!(contents(&rb), vec![1, 2, 3]);
}

#[test]
fn reset_at_the_start_moves_nothing() {
    let mut rb = ring_at(&[1, 2, 3], 4, 0);
    rb.reset();
    let (first, second) = rb.get_spans();
    assert_eq!((first.start, first.len), (0, 3));
    assert_eq!(second.len, 0);
    assert_eq!(contents(&rb), vec![1, 2, 3]);
}

#[test]
fn pop_front_moves_the_start_on() {
    let mut rb = ring_at(&[1, 2, 3], 4, 3);
    assert_eq!(rb.pop_front(), Some(1));
    assert_eq!(rb.get_spans().0.start, 0);
    assert_eq!(rb.pop_back(), Some(3));
    assert_eq!(rb.get_spans().0.start, 0);
    assert_eq!(contents(&rb), vec![2]);
    let mut one = RingBuf::from_vec(vec![5i64]);
    assert_eq!(one.pop_front(), Some(5));
    assert_eq!(one.get_spans().0.start, 0);
    assert_eq!(one.len(), 0);
}

#[test]
fn default_is_empty() {
    let rb: RingBuf<i64> = Default::default();
    assert_eq!(rb.len(), 0);
    assert_eq!(rb.capacity(), 0);
}

#[test]
fn reset_moves_the_elements_to_the_start() {
    let mut rb = ring_at(&[1, 2, 3], 4, 3);
    rb.reset();
    assert_eq!(rb.capacity(), 4);
    let (first, second) = rb.get_spans();
    assert_eq!((first.start, first.len), (0, 3));
    assert_eq!(second.len, 0);
    assert_eq!(contents(&rb), vec![1, 2, 3]);
}

#[test]
fn clone_is_equal_and_of_its_own() {
    let rb = ring_at(&[1, 2, 3], 4, 3);
    let mut copy = rb.clone();
    assert!(copy.eq(&rb));
    assert_eq!(copy.capacity(), 3);
    copy.push_back(4);
    *copy.get_mut(0) = 9;
    assert_eq!(contents(&rb), vec![1, 2, 3]);
    assert_eq!(contents(&copy), vec![9, 2, 3, 4]);
}

#[test]
fn clone_from_takes_the_source() {
    let source = ring_at(&[1, 2, 3], 4, 3);
    let mut longer = ring_at(&[7, 8, 9, 10, 11], 8, 5);
    longer.clone_from(&source);
    assert_eq!(contents(&longer), vec![1, 2, 3]);
    assert_eq!(longer.capacity(), 8);
    let mut shorter = ring_at(&[7], 2, 1);
    shorter.clone_from(&source);
    assert_eq!(contents(&shorter), vec![1, 2, 3]);
    assert_eq!(shorter.capacity(), 4);
}

#[test]
fn from_iter_takes_the_hint() {
    let rb = RingBuf::from_iter(vec![1i64, 2, 3, 4, 5, 6, 7, 8, 9, 10].into_iter());
    assert_eq!(rb.capacity(), 10);
    assert_eq!(contents(&rb), vec![1, 2, 3, 4, 5, 6, 7, 8, 9, 10]);
    let unhinted = RingBuf::from_iter((1..=5i64).filter(|x| x % 2 == 1));
    assert_eq!(unhinted.capacity(), 4);
    assert_eq!(contents(&unhinted), vec![1, 3, 5]);
}

#[test]
fn extend_reserves_for_the_hint() {
    let mut rb = ring_at(&[1], 2, 1);
    rb.extend(vec![2i64, 3, 4, 5].into_iter());
    assert_eq!(rb.capacity(), 8);
    assert_eq!(contents(&rb), vec![1, 2, 3, 4, 5]);
    let mut hinted = ring_at(&[1], 2, 1);
    hinted.reserve_hint(4);
    assert_eq!(hinted.capacity(), 8);
    hinted.reserve_hint(usize::MAX);
    assert_eq!(hinted.capacity(), 8);
    let mut pushed = ring_at(&[1], 2, 1);
    pushed.push_all(vec![2i64, 3, 4, 5].into_iter());
    assert_eq!(pushed.capacity(), 8);
    assert_eq!(contents(&pushed), vec![1, 2, 3, 4, 5]);
}

#[test]
fn order_of_pushes() {
    let mut front = RingBuf::new();
    let mut back = RingBuf::new();
    for v in 1..=5i64 {
        front.push_front(v);
        back.push_back(v);
    }
    assert_eq!(front.into_vec(), vec![5, 4, 3, 2, 1]);
    assert_eq!(back.into_vec(), vec![1, 2, 3, 4, 5]);
}

#[test]
fn equality_looks_at_the_elements_only() {
    let a = ring_at(&[1, 2, 3], 4, 3);
    let b = ring_at(&[1, 2, 3], 9, 0);
    assert!(a.eq(&b));
    assert!(!a.eq(&ring_at(&[1, 2], 4, 3)));
    assert!(!a.eq(&ring_at(&[1, 2, 4], 4, 3)));
}

#[test]
fn order_is_lexicographic() {
    let a = ring_at(&[1, 2, 3], 4, 3);
    assert_eq!(a.cmp(&ring_at(&[1, 2, 3], 8, 1)), Ordering::Equal);
    assert_eq!(a.cmp(&ring_at(&[1, 2], 4, 0)), Ordering::Greater);
    assert_eq!(a.cmp(&ring_at(&[1, 2, 3, 0], 4, 0)), Ordering::Less);
    assert_eq!(a.cmp(&ring_at(&[1, 3], 4, 0)), Ordering::Less);
    assert_eq!(a.cmp(&ring_at(&[0, 9, 9, 9], 4, 0)), Ordering::Greater);
    assert_eq!(a.partial_cmp(&ring_at(&[1, 3], 4, 0)), Some(Ordering::Less));
    assert_eq!(a.partial_cmp(&ring_at(&[1, 2, 3], 4, 0)), Some(Ordering::Equal));
    assert_eq!(a.partial_cmp(&ring_at(&[1, 2], 4, 0)), Some(Ordering::Greater));
}

#[test]
fn text_in_brackets() {
    assert_eq!(ring_at(&[1, 2, 3], 4, 3).to_string(), "[1, 2, 3]");
    assert_eq!(ring_at(&[7], 4, 0).to_string(), "[7]");
    assert_eq!(ring_at(&[], 4, 0).to_string(), "[]");
}

#[test]
fn traversal_from_both_ends() {
    let rb = ring_at(&[1, 2, 3, 4], 4, 3);
    let mut items = rb.iter();
    assert_eq!(items.size_hint(), (4, Some(4)));
    assert_eq!(items.next(), Some(&1));
    assert_eq!(items.next_back(), Some(&4));
    assert_eq!(items.next_back(), Some(&3));
    assert_eq!(items.size_hint(), (1, Some(1)));
    assert_eq!(items.next(), Some(&2));
    assert_eq!(items.next(), None);
    assert_eq!(items.next_back(), None);
    let mut again = rb.iter();
    assert_eq!(again.next(), Some(&1));
}

#[test]
fn traversal_for_writing() {
    let mut rb = ring_at(&[1, 2, 3, 4], 4, 3);
    {
        let mut items = rb.mut_iter();
        assert_eq!(items.size_hint(), (4, Some(4)));
        *items.next().unwrap() = 10;
        *items.next_back().unwrap() = 40;
        *items.next().unwrap() += 20;
        assert_eq!(items.size_hint(), (1, Some(1)));
        assert_eq!(items.next_back(), Some(&mut 3));
        assert!(items.next().is_none());
    }
    assert_eq!(contents(&rb), vec![10, 22, 3, 40]);
}

#[test]
fn traversal_that_moves_out() {
    let rb = RingBuf::from_vec(vec!["a".to_string(), "b".to_string(), "c".to_string()]);
    let mut items = rb.move_iter();
    assert_eq!(items.size_hint(), (3, Some(3)));
    assert_eq!(items.next(), Some("a".to_string()));
    assert_eq!(items.next_back(), Some("c".to_string()));
    assert_eq!(items.size_hint(), (1, Some(1)));
    items.release();
    let wrapped = ring_at(&[1, 2, 3, 4], 4, 3);
    let mut moved = wrapped.move_iter();
    assert_eq!(moved.next_back(), Some(4));
    assert_eq!(moved.next(), Some(1));
    assert_eq!(moved.next(), Some(2));
    assert_eq!(moved.next(), Some(3));
    assert_eq!(moved.next(), None);
    assert_eq!(moved.next_back(), None);
}

#[test]
fn traversal_that_pops() {
    let mut items = ringbuf::SafeMoveItems { ringbuf: ring_at(&[1, 2, 3], 4, 3) };
    assert_eq!(items.size_hint(), (3, Some(3)));
    assert_eq!(items.next(), Some(1));
    assert_eq!(items.next_back(), Some(3));
    assert_eq!(items.next(), Some(2));
    assert_eq!(items.next(), None);
    assert_eq!(items.next_back(), None);
}

#[test]
fn release_drops_every_element() {
    let counted = std::rc::Rc::new(());
    let mut rb = RingBuf::with_capacity(4);
    for _ in 0..3 {
        rb.push_front(counted.clone());
    }
    assert_eq!(std::rc::Rc::strong_count(&counted), 4);
    rb.pop_back();
    assert_eq!(std::rc::Rc::strong_count(&counted), 3);
    rb.release();
    assert_eq!(std::rc::Rc::strong_count(&counted), 1);
}

#[test]
fn from_vec_keeps_the_room() {
    let mut vec: Vec<i64> = Vec::with_capacity(10);
    vec.push(7);
    let room = vec.capacity();
    assert!(room >= 10);
    let mut rb = RingBuf::from_vec(vec);
    assert_eq!(rb.capacity(), room);
    assert_eq!(contents(&rb), vec![7]);
    rb.push_front(6);
    assert_eq!(rb.capacity(), room);
    assert_eq!(rb.get_spans().0.start, room - 1);
    assert_eq!(rb.into_vec(), vec![6, 7]);
    let exact = RingBuf::from_vec_with_capacity(vec![1i64, 2], 5);
    assert_eq!(exact.capacity(), 5);
    assert_eq!(contents(&exact), vec![1, 2]);
}

#[test]
fn blocks_that_can_be_counted() {
    assert!(is_representable::<i64>(0));
    assert!(is_representable::<i64>(usize::MAX / 8));
    assert!(!is_representable::<i64>(usize::MAX / 8 + 1));
    assert!(!is_representable::<i64>(usize::MAX));
    assert!(is_representable::<u8>(usize::MAX));
    assert!(is_representable::<()>(usize::MAX));
}

#[test]
fn weightless_elements_are_only_counted() {
    let mut rb: RingBuf<()> = RingBuf::new();
    assert_eq!(rb.capacity(), usize::MAX);
    assert_eq!(RingBuf::<()>::with_capacity(5).capacity(), usize::MAX);
    for _ in 0..5 {
        rb.push_back(());
        rb.push_front(());
    }
    assert_eq!(rb.len(), 10);
    assert_eq!(rb.capacity(), usize::MAX);
    let (first, second) = rb.get_spans();
    assert_eq!((first.start, first.len), (0, 10));
    assert_eq!((second.start, second.len), (0, 0));
    assert_eq!(rb.pop_front(), Some(()));
    assert_eq!(rb.pop_back(), Some(()));
    assert_eq!(rb.get_spans().0.start, 0);
    assert_eq!(rb.len(), 8);
    rb.resize(100);
    rb.reserve(1000);
    rb.reserve_exact(usize::MAX);
    rb.reserve_additional(usize::MAX - 8);
    rb.shrink_to_fit();
    rb.reset();
    assert_eq!(rb.capacity(), usize::MAX);
    assert_eq!(rb.front(), Some(&()));
    assert_eq!(rb.get(7), &());
    rb.swap(0, 7);
    rb.swap(3, 3);
    rb.truncate(6);
    assert_eq!(rb.len(), 6);
    {
        let (head, tail) = rb.as_slices();
        assert_eq!((head.len(), tail.len()), (6, 0));
        assert!(head.slots.is_empty());
        assert_eq!(head.items.len(), 6);
    }
    assert_eq!(rb.iter().size_hint(), (6, Some(6)));
    assert!(rb.mut_iter().next_back().is_some());
    let copy = rb.clone();
    assert!(copy.eq(&rb));
    assert_eq!(copy.capacity(), usize::MAX);
    let mut moved = copy.move_iter();
    assert_eq!(moved.size_hint(), (6, Some(6)));
    assert_eq!(moved.next(), Some(()));
    assert_eq!(moved.next_back(), Some(()));
    assert_eq!(moved.size_hint(), (4, Some(4)));
    moved.release();
    assert_eq!(rb.into_vec(), vec![(); 6]);
    let back = RingBuf::from_vec(vec![(); 3]);
    assert_eq!(back.capacity(), usize::MAX);
    assert_eq!(back.len(), 3);
    let mut all = RingBuf::from_iter(vec![(); 4].into_iter());
    all.extend(vec![(); 2].into_iter());
    assert_eq!(all.len(), 6);
    assert_eq!(all.capacity(), usize::MAX);
    all.clear();
    assert_eq!(all.len(), 0);
    all.release();
}

/// An element that takes no storage.
#[derive(Clone, PartialEq, PartialOrd, Eq, Ord, Debug)]
struct Tick;

impl std::fmt::Display for Tick {
    fn fmt(&self, f: &mut std::fmt::Formatter<'_>) -> std::fmt::Result {
        f.write_str("tick")
    }
}

#[test]
fn weightless_elements_compare_and_show() {
    let mut two = RingBuf::new();
    two.push_front(Tick);
    two.push_front(Tick);
    let mut three = two.clone();
    three.push_back(Tick);
    assert_eq!(two.to_string(), "[tick, tick]");
    assert!(!two.eq(&three));
    assert_eq!(two.cmp(&three), Ordering::Less);
    assert_eq!(three.partial_cmp(&two), Some(Ordering::Greater));
    three.clone_from(&two);
    assert!(two.eq(&three));
    assert_eq!(three.capacity(), usize::MAX);
    {
        let (mut head, tail) = three.as_mut_slices();
        assert_eq!((head.len(), tail.len()), (2, 0));
        *head.get_mut(1) = Tick;
    }
    assert_eq!(three.len(), 2);
}
