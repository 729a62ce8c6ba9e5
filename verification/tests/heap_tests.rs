use priority_heap::Heap;
use priority_heap::MaxOrder;
use priority_heap::MinOrder;
use priority_heap::ShorterFirst;

#[test]
fn test_add_and_get() {
    let mut heap: Heap<i32, MinOrder> = Heap::min_heap();
    let val: i32 = 42;

    heap.add(val.clone());
    let top = heap.top();

    assert_eq!(top, Some(&val));
}

#[test]
fn test_ordering_maintained() {
    let mut heap: Heap<i32, MinOrder> = Heap::min_heap();
    heap.add(2);
    heap.add(1);
    let top = heap.top().expect("top() returned none");
    assert_eq!(*top, 1i32);
}

#[test]
fn test_remove_first() {
    let mut heap: Heap<i32, MinOrder> = Heap::min_heap();
    heap.add(3);
    heap.add(2);
    heap.add(1);
    assert_eq!(heap.remove_first(), Some(1i32));
    assert_eq!(heap.remove_first(), Some(2i32));
    assert_eq!(heap.remove_first(), Some(3i32));
    assert_eq!(heap.remove_first(), None);
}

#[test]
fn test_custom_comparator() {
    let mut heap: Heap<&str, ShorterFirst> = Heap::new(ShorterFirst);
    heap.add("aaa");
    heap.add("b");
    heap.add("cc");
    assert_eq!(heap.remove_first(), Some("b"));
    assert_eq!(heap.remove_first(), Some("cc"));
    assert_eq!(heap.remove_first(), Some("aaa"));
    assert_eq!(heap.remove_first(), None);
}

#[test]
fn test_max_heap() {
    let mut heap: Heap<i32, MaxOrder> = Heap::max_heap();
    heap.add(3);
    heap.add(2);
    heap.add(1);
    assert_eq!(heap.remove_first(), Some(3i32));
    assert_eq!(heap.remove_first(), Some(2i32));
    assert_eq!(heap.remove_first(), Some(1i32));
    assert_eq!(heap.remove_first(), None);
}

#[test]
fn test_len() {
    let mut heap: Heap<i32, MinOrder> = Heap::min_heap();
    assert_eq!(heap.len(), 0);
    heap.add(1);
    assert_eq!(heap.len(), 1);
    heap.add(1);
    assert_eq!(heap.len(), 2);
}

#[test]
fn test_empty_heap_behavior() {
    let mut heap: Heap<i32, MinOrder> = Heap::min_heap();
    assert_eq!(heap.len(), 0);
    assert_eq!(heap.top(), None);
    assert_eq!(heap.remove_first(), None);
    assert_eq!(heap.len(), 0);

    let mut max: Heap<i32, MaxOrder> = Heap::max_heap();
    assert_eq!(max.len(), 0);
    assert_eq!(max.top(), None);
    assert_eq!(max.remove_first(), None);
}

#[test]
fn test_top_is_idempotent() {
    let mut heap: Heap<i32, MinOrder> = Heap::min_heap();
    heap.add(7);
    heap.add(4);
    heap.add(9);
    let first = heap.top().copied();
    assert_eq!(first, Some(4));
    assert_eq!(heap.top().copied(), first);
    assert_eq!(heap.top().copied(), first);
    assert_eq!(heap.len(), 3);
}

#[test]
fn test_size_accounting() {
    let mut heap: Heap<i32, MinOrder> = Heap::min_heap();
    heap.add(5);
    heap.add(6);
    assert_eq!(heap.len(), 2);
    assert_eq!(heap.remove_first(), Some(5));
    assert_eq!(heap.len(), 1);
    heap.add(2);
    heap.add(8);
    assert_eq!(heap.len(), 3);
    assert_eq!(heap.remove_first(), Some(2));
    assert_eq!(heap.remove_first(), Some(6));
    assert_eq!(heap.remove_first(), Some(8));
    assert_eq!(heap.len(), 0);
    // an absent-value removal changes nothing
    assert_eq!(heap.remove_first(), None);
    assert_eq!(heap.len(), 0);
}

#[test]
fn test_min_heap_drains_sorted() {
    let mut heap: Heap<i32, MinOrder> = Heap::min_heap();
    let input: Vec<i32> = vec![5, 3, 8, 3, 1, 9, 2, 7, 3];
    for v in &input {
        heap.add(*v);
    }
    assert_eq!(heap.len(), input.len());
    let mut drained: Vec<i32> = Vec::new();
    while let Some(v) = heap.remove_first() {
        drained.push(v);
    }
    assert_eq!(drained, vec![1, 2, 3, 3, 3, 5, 7, 8, 9]);
    assert_eq!(heap.remove_first(), None);
}

#[test]
fn test_max_heap_drains_sorted() {
    let mut heap: Heap<u64, MaxOrder> = Heap::max_heap();
    for v in [10u64, 40, 20, 50, 30, 40] {
        heap.add(v);
    }
    let mut drained: Vec<u64> = Vec::new();
    while let Some(v) = heap.remove_first() {
        drained.push(v);
    }
    assert_eq!(drained, vec![50, 40, 40, 30, 20, 10]);
}

#[test]
fn test_custom_comparator_longer_inputs() {
    let mut heap: Heap<&str, ShorterFirst> = Heap::new(ShorterFirst);
    for s in ["seven..", "a", "four", "xy", "12345"] {
        heap.add(s);
    }
    assert_eq!(heap.remove_first(), Some("a"));
    assert_eq!(heap.remove_first(), Some("xy"));
    assert_eq!(heap.remove_first(), Some("four"));
    assert_eq!(heap.remove_first(), Some("12345"));
    assert_eq!(heap.remove_first(), Some("seven.."));
    assert_eq!(heap.remove_first(), None);
}

#[test]
fn test_top_tracks_best_through_mixed_operations() {
    let mut heap: Heap<i32, MinOrder> = Heap::min_heap();
    heap.add(6);
    assert_eq!(heap.top(), Some(&6));
    heap.add(4);
    assert_eq!(heap.top(), Some(&4));
    heap.add(9);
    assert_eq!(heap.top(), Some(&4));
    assert_eq!(heap.remove_first(), Some(4));
    assert_eq!(heap.top(), Some(&6));
    heap.add(1);
    assert_eq!(heap.top(), Some(&1));
    assert_eq!(heap.remove_first(), Some(1));
    assert_eq!(heap.remove_first(), Some(6));
    assert_eq!(heap.top(), Some(&9));
    assert_eq!(heap.remove_first(), Some(9));
    assert_eq!(heap.top(), None);
}

#[test]
fn test_new_with_explicit_comparator() {
    let mut heap: Heap<i32, MinOrder> = Heap::new(MinOrder);
    heap.add(11);
    heap.add(-3);
    assert_eq!(heap.top(), Some(&-3));
    assert_eq!(heap.remove_first(), Some(-3));
    assert_eq!(heap.remove_first(), Some(11));
    assert_eq!(heap.remove_first(), None);
}
