use addressbook::util::rc::{Heap, Rc};
use core::sync::atomic::AtomicIsize;
use core::sync::atomic::Ordering;

#[derive(Debug, Clone)]
struct Value<'a> {
    pub x: i32,
    pub y: i64,
    drops: &'a AtomicIsize,
}

impl<'a> Drop for Value<'a> {
    fn drop(&mut self) {
        self.drops.fetch_add(1, Ordering::SeqCst);
    }
}

struct Person<'a> {
    name: String,
    address: String,
    drops: &'a AtomicIsize,
}

impl<'a> Drop for Person<'a> {
    fn drop(&mut self) {
        self.drops.fetch_add(1, Ordering::SeqCst);
    }
}

fn person<'a>(name: &str, address: &str, drops: &'a AtomicIsize) -> Person<'a> {
    Person { name: name.to_owned(), address: address.to_owned(), drops }
}

#[test]
fn test_basic() {
    let drops = AtomicIsize::new(0);
    let value = Value { x: 42, y: 800, drops: &drops };

    let mut heap = Heap::new();
    let first = Rc::new(&mut heap, value.clone());

    // Both cells of the block should be there
    assert_ne!(heap.len(), 0);
    assert!(heap.contains(&first));
    // Values on the heap should be as expected
    assert_eq!(first.ref_count(&heap), 1);
    assert_eq!(first.deref(&heap).x, value.x);
    assert_eq!(first.deref(&heap).y, value.y);

    assert_eq!(drops.load(Ordering::SeqCst), 0);

    first.drop(&mut heap);

    // Now that the only reference is gone, the value should be dropped
    assert_eq!(drops.load(Ordering::SeqCst), 1);
}

#[test]
fn test_allocation() {
    let drops = AtomicIsize::new(0);
    let value = Value { x: 42, y: 800, drops: &drops };

    let mut heap = Heap::new();
    let first = Rc::new(&mut heap, value.clone());

    // Both cells of the block should be there
    assert_ne!(heap.len(), 0);
    assert!(heap.contains(&first));
    // Values on the heap should be as expected
    assert_eq!(first.ref_count(&heap), 1);
    assert_eq!(first.deref(&heap).x, value.x);
    assert_eq!(first.deref(&heap).y, value.y);

    // Let's clone it, and check again
    let second = first.clone(&mut heap);

    assert!(first.ptr_eq(&second));
    assert_eq!(first.ref_count(&heap), 2);
    assert_eq!(second.ref_count(&heap), 2);

    second.drop(&mut heap);
    // We should not have actually dropped the value yet
    assert_eq!(drops.load(Ordering::SeqCst), 0);

    // The block should still be there for the first handle
    assert_eq!(heap.teardowns(), 0);
    assert!(heap.contains(&first));
    // Values on the heap should be as expected
    assert_eq!(first.ref_count(&heap), 1);

    assert_eq!(first.deref(&heap).x, value.x);
    assert_eq!(first.deref(&heap).y, value.y);

    first.drop(&mut heap);

    // Now that both references are gone, the value should be dropped
    assert_eq!(drops.load(Ordering::SeqCst), 1);
}

#[test]
fn new_heap_is_empty() {
    let heap: Heap<u32> = Heap::new();
    assert_eq!(heap.len(), 0);
    assert_eq!(heap.teardowns(), 0);
}

#[test]
fn count_is_clones_plus_one() {
    let mut heap = Heap::new();
    let first = Rc::new(&mut heap, 7u32);
    let mut family = Vec::new();
    for k in 1..=5usize {
        family.push(first.clone(&mut heap));
        assert_eq!(first.ref_count(&heap), k + 1);
    }
    for handle in family.iter() {
        assert_eq!(handle.ref_count(&heap), 6);
    }
}

#[test]
fn count_goes_down_by_one_per_drop() {
    let mut heap = Heap::new();
    let first = Rc::new(&mut heap, 7u32);
    let mut family = Vec::new();
    for _ in 0..4 {
        family.push(first.clone(&mut heap));
    }
    // k = 4 clones: the count is 5, and after j drops it is 5 - j
    assert_eq!(first.ref_count(&heap), 5);
    let mut j = 0usize;
    while let Some(handle) = family.pop() {
        handle.drop(&mut heap);
        j += 1;
        assert_eq!(first.ref_count(&heap), 5 - j);
    }
    assert_eq!(first.ref_count(&heap), 1);
    first.drop(&mut heap);
    assert_eq!(heap.teardowns(), 1);
}

#[test]
fn teardown_fires_once_however_many_handles() {
    for handles in 1..=6usize {
        let drops = AtomicIsize::new(0);
        let mut heap = Heap::new();
        let first = Rc::new(&mut heap, Value { x: 1, y: 2, drops: &drops });
        let mut family = vec![];
        for _ in 1..handles {
            family.push(first.clone(&mut heap));
        }
        family.push(first);
        while let Some(handle) = family.pop() {
            assert_eq!(drops.load(Ordering::SeqCst), 0);
            assert_eq!(heap.teardowns(), 0);
            handle.drop(&mut heap);
        }
        assert_eq!(drops.load(Ordering::SeqCst), 1);
        assert_eq!(heap.teardowns(), 1);
    }
}

#[test]
fn no_teardown_while_counted() {
    let drops = AtomicIsize::new(0);
    let mut heap = Heap::new();
    let a = Rc::new(&mut heap, Value { x: 3, y: 4, drops: &drops });
    let b = a.clone(&mut heap);
    let c = b.clone(&mut heap);
    a.drop(&mut heap);
    assert_eq!(c.ref_count(&heap), 2);
    assert_eq!(drops.load(Ordering::SeqCst), 0);
    b.drop(&mut heap);
    assert_eq!(c.ref_count(&heap), 1);
    assert_eq!(drops.load(Ordering::SeqCst), 0);
    assert!(heap.contains(&c));
    assert_eq!(c.deref(&heap).x, 3);
    c.drop(&mut heap);
    assert_eq!(drops.load(Ordering::SeqCst), 1);
}

#[test]
fn every_handle_reads_the_same_value() {
    let mut heap = Heap::new();
    let a = Rc::new(&mut heap, String::from("first"));
    let b = a.clone(&mut heap);
    let c = a.clone(&mut heap);
    assert_eq!(a.deref(&heap), "first");
    assert_eq!(b.deref(&heap), "first");
    assert_eq!(c.deref(&heap), "first");
    a.drop(&mut heap);
    assert_eq!(b.deref(&heap), "first");
    assert_eq!(c.deref(&heap), "first");
}

#[test]
fn a_write_through_one_handle_shows_through_the_others() {
    let mut heap = Heap::new();
    let a = Rc::new(&mut heap, 10u64);
    let b = a.clone(&mut heap);
    *a.deref_mut(&mut heap) = 11;
    assert_eq!(*b.deref(&heap), 11);
    *b.deref_mut(&mut heap) += 4;
    assert_eq!(*a.deref(&heap), 15);
    assert_eq!(a.ref_count(&heap), 2);
    a.drop(&mut heap);
    assert_eq!(*b.deref(&heap), 15);
}

#[test]
fn separate_constructions_do_not_share() {
    let drops_a = AtomicIsize::new(0);
    let drops_b = AtomicIsize::new(0);
    let mut heap = Heap::new();
    let a = Rc::new(&mut heap, Value { x: 1, y: 10, drops: &drops_a });
    let b = Rc::new(&mut heap, Value { x: 2, y: 20, drops: &drops_b });
    assert!(!a.ptr_eq(&b));
    let a2 = a.clone(&mut heap);
    assert_eq!(a.ref_count(&heap), 2);
    assert_eq!(b.ref_count(&heap), 1);
    a.drop(&mut heap);
    a2.drop(&mut heap);
    assert_eq!(drops_a.load(Ordering::SeqCst), 1);
    assert_eq!(drops_b.load(Ordering::SeqCst), 0);
    assert_eq!(b.ref_count(&heap), 1);
    assert_eq!(b.deref(&heap).x, 2);
    assert_eq!(b.deref(&heap).y, 20);
    b.drop(&mut heap);
    assert_eq!(drops_b.load(Ordering::SeqCst), 1);
}

#[test]
fn equal_values_are_still_two_families() {
    let mut heap = Heap::new();
    let a = Rc::new(&mut heap, 5u8);
    let b = Rc::new(&mut heap, 5u8);
    assert!(!a.ptr_eq(&b));
    *a.deref_mut(&mut heap) = 6;
    assert_eq!(*a.deref(&heap), 6);
    assert_eq!(*b.deref(&heap), 5);
}

#[test]
fn alice_outlives_her_first_handle() {
    let drops = AtomicIsize::new(0);
    let mut heap = Heap::new();
    let a = Rc::new(&mut heap, person("Alice", "123 Apple Ave", &drops));
    let b = a.clone(&mut heap);
    assert_eq!(a.ref_count(&heap), 2);
    assert_eq!(b.ref_count(&heap), 2);

    a.drop(&mut heap);
    assert_eq!(b.ref_count(&heap), 1);
    assert_eq!(drops.load(Ordering::SeqCst), 0);
    assert_eq!(b.deref(&heap).name, "Alice");
    assert_eq!(b.deref(&heap).address, "123 Apple Ave");

    b.drop(&mut heap);
    assert_eq!(drops.load(Ordering::SeqCst), 1);
    assert_eq!(heap.teardowns(), 1);
}

#[test]
fn dropping_a_container_spares_what_is_shared() {
    let alice_drops = AtomicIsize::new(0);
    let bob_drops = AtomicIsize::new(0);
    let carol_drops = AtomicIsize::new(0);
    let mut heap = Heap::new();

    let mut first = Vec::new();
    first.push(Rc::new(&mut heap, person("Alice", "123 Apple Ave", &alice_drops)));
    first.push(Rc::new(&mut heap, person("Bob", "123 Berry Boardwalk", &bob_drops)));
    first.push(Rc::new(&mut heap, person("Carol", "123 Cherry Crossing", &carol_drops)));

    let mut second = Vec::new();
    second.push(first[0].clone(&mut heap));
    assert_eq!(second[0].ref_count(&heap), 2);

    for handle in first {
        handle.drop(&mut heap);
    }

    assert_eq!(alice_drops.load(Ordering::SeqCst), 0);
    assert_eq!(bob_drops.load(Ordering::SeqCst), 1);
    assert_eq!(carol_drops.load(Ordering::SeqCst), 1);
    assert_eq!(heap.teardowns(), 2);
    assert_eq!(second[0].ref_count(&heap), 1);
    assert_eq!(second[0].deref(&heap).name, "Alice");
}

#[test]
fn heap_counts_blocks_and_teardowns() {
    let mut heap = Heap::new();
    let a = Rc::new(&mut heap, 1i32);
    let b = Rc::new(&mut heap, 2i32);
    let c = Rc::new(&mut heap, 3i32);
    assert_eq!(heap.len(), 3);
    assert_eq!(heap.teardowns(), 0);
    b.drop(&mut heap);
    assert_eq!(heap.len(), 3);
    assert_eq!(heap.teardowns(), 1);
    // A freed block is not used again: the next one is new
    let d = Rc::new(&mut heap, 4i32);
    assert_eq!(heap.len(), 4);
    assert_eq!(*a.deref(&heap), 1);
    assert_eq!(*c.deref(&heap), 3);
    assert_eq!(*d.deref(&heap), 4);
}

#[test]
fn a_handle_of_another_heap_is_told_apart() {
    let mut full = Heap::new();
    let empty: Heap<u8> = Heap::new();
    let handle = Rc::new(&mut full, 9u8);
    assert!(full.contains(&handle));
    assert!(!empty.contains(&handle));

    let mut other = Heap::new();
    let gone = Rc::new(&mut other, 1u8);
    let kept = gone.clone(&mut other);
    gone.drop(&mut other);
    let stale = Rc::new(&mut full, 2u8);
    kept.drop(&mut other);
    // `stale` refers to the second block of `full`; `other` has only one,
    // and that one is freed
    assert!(!other.contains(&stale));
    assert!(!other.contains(&handle));
}
