use containers::heap::{Heap, MaxHeap, MinHeap};

#[test]
fn test_empty_heap() {
    let mut heap = MaxHeap::new::<i32>();
    assert_eq!(heap.next(), None);
}

#[test]
fn test_min_heap() {
    let mut heap = MinHeap::new();
    heap.add(4);
    heap.add(2);
    heap.add(9);
    heap.add(11);
    assert_eq!(heap.len(), 4);
    assert_eq!(heap.next(), Some(2));
    assert_eq!(heap.next(), Some(4));
    assert_eq!(heap.next(), Some(9));
    heap.add(1);
    assert_eq!(heap.next(), Some(1));
}

#[test]
fn test_max_heap() {
    let mut heap = MaxHeap::new();
    heap.add(4);
    heap.add(2);
    heap.add(9);
    heap.add(11);
    assert_eq!(heap.len(), 4);
    assert_eq!(heap.next(), Some(11));
    assert_eq!(heap.next(), Some(9));
    assert_eq!(heap.next(), Some(4));
    heap.add(1);
    assert_eq!(heap.next(), Some(2));
}

fn one_by_one<T: Default>(heap: &mut Heap<T>) -> Vec<T> {
    let mut out = Vec::new();
    while let Some(v) = heap.next() {
        out.push(v);
    }
    out
}

fn scrambled(n: u64) -> Vec<u64> {
    let mut x: u64 = 12345;
    let mut v = Vec::new();
    for _ in 0..n {
        x = x.wrapping_mul(6364136223846793005).wrapping_add(1442695040888963407);
        v.push((x >> 33) % 1000);
    }
    v
}

#[test]
fn new_heap_is_empty() {
    let heap = Heap::new(|a: &i64, b: &i64| a < b);
    assert!(heap.is_empty());
    assert_eq!(heap.len(), 0);
}

#[test]
fn empty_min_heap_yields_nothing_again_and_again() {
    let mut heap = MinHeap::new::<u8>();
    assert_eq!(heap.next(), None);
    assert_eq!(heap.next(), None);
    assert!(heap.is_empty());
    heap.add(3);
    assert_eq!(heap.next(), Some(3));
    assert_eq!(heap.next(), None);
}

#[test]
fn len_follows_adds_and_extractions() {
    let mut heap = Heap::<i32>::new_min();
    assert_eq!(heap.len(), 0);
    heap.add(5);
    assert_eq!(heap.len(), 1);
    assert!(!heap.is_empty());
    heap.add(5);
    heap.add(-1);
    assert_eq!(heap.len(), 3);
    assert_eq!(heap.next(), Some(-1));
    assert_eq!(heap.len(), 2);
    assert_eq!(heap.next(), Some(5));
    assert_eq!(heap.next(), Some(5));
    assert_eq!(heap.len(), 0);
    assert!(heap.is_empty());
}

#[test]
fn single_element_is_cleared() {
    let mut heap = Heap::<i32>::new_max();
    heap.add(42);
    assert_eq!(heap.next(), Some(42));
    assert!(heap.is_empty());
    heap.add(7);
    heap.add(8);
    assert_eq!(heap.next(), Some(8));
    assert_eq!(heap.next(), Some(7));
    assert_eq!(heap.next(), None);
}

#[test]
fn min_heap_sorts_with_duplicates() {
    let mut heap = Heap::new_min();
    let items = [5, 3, 8, 3, 1, 9, 1, 1, 7, 0];
    for v in items {
        heap.add(v);
    }
    assert_eq!(one_by_one(&mut heap), vec![0, 1, 1, 1, 3, 3, 5, 7, 8, 9]);
    assert!(heap.is_empty());
}

#[test]
fn max_heap_sorts_in_reverse() {
    let mut heap = Heap::new_max();
    let items = [5, 3, 8, 3, 1, 9, 1, 1, 7, 0];
    for v in items {
        heap.add(v);
    }
    assert_eq!(one_by_one(&mut heap), vec![9, 8, 7, 5, 3, 3, 1, 1, 1, 0]);
    assert!(heap.is_empty());
}

#[test]
fn round_trip_returns_every_element_sorted() {
    let items = scrambled(2000);
    let mut heap = MinHeap::new();
    for v in items.iter() {
        heap.add(*v);
    }
    assert_eq!(heap.len(), 2000);
    let out = one_by_one(&mut heap);
    let mut expected = items.clone();
    expected.sort();
    assert_eq!(out, expected);
    assert!(heap.is_empty());
    assert_eq!(heap.next(), None);
}

#[test]
fn round_trip_of_a_max_heap_is_reverse_sorted() {
    let items = scrambled(777);
    let mut heap = MaxHeap::new();
    for v in items.iter() {
        heap.add(*v);
    }
    let out = one_by_one(&mut heap);
    let mut expected = items.clone();
    expected.sort();
    expected.reverse();
    assert_eq!(out, expected);
    assert!(heap.is_empty());
}

#[test]
fn sorted_and_reversed_input_come_out_sorted() {
    let mut up = MinHeap::new();
    let mut down = MinHeap::new();
    for v in 0..64 {
        up.add(v);
        down.add(63 - v);
    }
    let expected: Vec<i32> = (0..64).collect();
    assert_eq!(one_by_one(&mut up), expected);
    assert_eq!(one_by_one(&mut down), expected);
}

#[test]
fn adds_between_extractions_keep_the_order() {
    let mut heap = MinHeap::new();
    heap.add(10);
    heap.add(20);
    heap.add(30);
    assert_eq!(heap.next(), Some(10));
    heap.add(5);
    heap.add(25);
    assert_eq!(heap.next(), Some(5));
    assert_eq!(heap.next(), Some(20));
    heap.add(40);
    heap.add(21);
    assert_eq!(heap.next(), Some(21));
    assert_eq!(heap.next(), Some(25));
    assert_eq!(heap.next(), Some(30));
    assert_eq!(heap.next(), Some(40));
    assert_eq!(heap.next(), None);
}

#[test]
fn custom_comparator_ranks_by_its_own_rule() {
    let mut heap = Heap::new(|a: &String, b: &String| a.len() > b.len());
    for w in ["pear", "fig", "banana", "kiwi", "clementine", "plum"] {
        heap.add(w.to_string());
    }
    let lengths: Vec<usize> = one_by_one(&mut heap).iter().map(|w| w.len()).collect();
    assert_eq!(lengths, vec![10, 6, 4, 4, 4, 3]);
}

#[test]
fn custom_comparator_on_a_key() {
    let mut heap = Heap::new(|a: &(u32, char), b: &(u32, char)| a.0 < b.0);
    heap.add((3, 'c'));
    heap.add((1, 'a'));
    heap.add((2, 'b'));
    assert_eq!(heap.next(), Some((1, 'a')));
    assert_eq!(heap.next(), Some((2, 'b')));
    assert_eq!(heap.next(), Some((3, 'c')));
    assert_eq!(heap.next(), None);
}

#[test]
fn min_and_max_constructors_agree_with_the_makers() {
    let mut a = Heap::<u16>::new_min();
    let mut b = MinHeap::new::<u16>();
    let mut c = Heap::<u16>::new_max();
    let mut d = MaxHeap::new::<u16>();
    for v in [6u16, 2, 9, 4] {
        a.add(v);
        b.add(v);
        c.add(v);
        d.add(v);
    }
    assert_eq!(a.drain(), vec![2, 4, 6, 9]);
    assert_eq!(b.drain(), vec![2, 4, 6, 9]);
    assert_eq!(c.drain(), vec![9, 6, 4, 2]);
    assert_eq!(d.drain(), vec![9, 6, 4, 2]);
}

#[test]
fn drain_gives_what_next_would_give() {
    let items = scrambled(300);
    let mut stepwise = Heap::new(|a: &u64, b: &u64| a % 7 < b % 7);
    let mut at_once = Heap::new(|a: &u64, b: &u64| a % 7 < b % 7);
    for v in items.iter() {
        stepwise.add(*v);
        at_once.add(*v);
    }
    let expected = one_by_one(&mut stepwise);
    let out = at_once.drain();
    assert_eq!(out, expected);
    assert_eq!(out.len(), 300);
    for pair in out.windows(2) {
        assert!(pair[0] % 7 <= pair[1] % 7);
    }
    assert!(at_once.is_empty());
    assert_eq!(at_once.next(), None);
}

#[test]
fn drain_of_an_empty_heap_is_empty() {
    let mut heap = MinHeap::new::<i8>();
    assert_eq!(heap.drain(), Vec::<i8>::new());
    heap.add(1);
    assert_eq!(heap.drain(), vec![1]);
    assert!(heap.is_empty());
}

#[test]
fn equally_ranked_elements_leave_as_the_sifts_place_them() {
    let mut heap = Heap::new(|a: &(u32, char), b: &(u32, char)| a.0 < b.0);
    heap.add((1, 'a'));
    heap.add((1, 'b'));
    heap.add((0, 'c'));
    assert_eq!(heap.next(), Some((0, 'c')));
    assert_eq!(heap.next(), Some((1, 'a')));
    assert_eq!(heap.next(), Some((1, 'b')));
    assert_eq!(heap.next(), None);
}
