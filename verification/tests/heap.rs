use lib::vm::mem::array::{ArrayList, ArrayRef};
use lib::vm::mem::buddy::BuddyAllocator;
use lib::vm::mem::heap::{HeapRef, HeapStorage};
use lib::vm::mem::{Alloc, VmRef};

#[test]
fn test_alloc_array_basic() {
    let heap_size = 4096 * 4096;
    let array_size = 5000;
    let mut heap: HeapStorage<BuddyAllocator> = HeapStorage::new(heap_size);
    let mut array = heap.alloc_array(array_size).unwrap();

    assert_eq!(*array.get(0), 0);
    array.set(10, 5);
    assert_eq!(*array.get(10), 5);
    array.set(array_size - 1, 99);
    assert_eq!(*array.get(array_size - 1), 99);
}

#[derive(PartialEq, Debug, Clone)]
enum SomeValue {
    A(i64),
    B(f64),
    C(char),
    D,
}

impl Default for SomeValue {
    fn default() -> Self {
        SomeValue::D
    }
}

#[test]
fn test_alloc_array_objects() {
    let heap_size = 4096 * 4096;
    let array_size = 5000;
    let mut heap: HeapStorage<BuddyAllocator> = HeapStorage::new(heap_size);
    let mut array: ArrayRef<SomeValue> = heap.alloc_array(array_size).unwrap();

    let vals = &[SomeValue::A(10), SomeValue::B(-0.15), SomeValue::C('c'), SomeValue::D];
    for (i, val) in vals.iter().enumerate() {
        array.set(i, val.clone());
        array.set(array_size - i - 1, val.clone());
    }
    for (i, val) in vals.iter().enumerate() {
        assert_eq!(array.get(i), val);
        assert_eq!(array.get(array_size - i - 1), val);
    }
}

#[test]
fn buddy_blocks_do_not_overlap() {
    let mut alloc = BuddyAllocator::new(1024);
    let a = alloc.allocate(100, 8).unwrap();
    let b = alloc.allocate(100, 8).unwrap();
    let c = alloc.allocate(100, 8).unwrap();
    let mut addrs = vec![a.addr(), b.addr(), c.addr()];
    addrs.sort();
    // each block of 100 bytes takes a 128-byte block
    assert!(addrs[0] + 128 <= addrs[1]);
    assert!(addrs[1] + 128 <= addrs[2]);
    assert!(addrs[2] + 128 <= 1024);
}

#[test]
fn buddy_free_merges_blocks_again() {
    let mut alloc = BuddyAllocator::new(1024);
    let a = alloc.allocate(512, 8).unwrap();
    let b = alloc.allocate(512, 8).unwrap();
    assert!(alloc.allocate(16, 8).is_none());
    alloc.free(a);
    alloc.free(b);
    // the halves merge back into the whole heap
    let whole = alloc.allocate(1024, 8).unwrap();
    assert_eq!(whole.addr(), 0);
}

#[test]
fn buddy_refuses_oversized_request() {
    let mut alloc = BuddyAllocator::new(4096);
    assert!(alloc.allocate(4097, 8).is_none());
    assert!(alloc.allocate(16, 8192).is_none());
    assert!(alloc.allocate(4096, 8).is_some());
}

#[test]
fn buddy_small_heap_has_no_blocks() {
    let mut alloc = BuddyAllocator::new(15);
    assert!(alloc.allocate(1, 1).is_none());
}

#[test]
fn heap_ref_starts_unmarked() {
    let r = HeapRef::new(42);
    assert_eq!(r, HeapRef { addr: 42, mark: false });
}

#[test]
fn alloc_array_refuses_when_heap_is_full() {
    let mut heap: HeapStorage<BuddyAllocator> = HeapStorage::new(1024);
    let first = heap.alloc_array::<u64>(127);
    assert!(first.is_some());
    assert!(heap.alloc_array::<u64>(1).is_none());
}

#[test]
fn alloc_array_refuses_oversized_layout() {
    let mut heap: HeapStorage<BuddyAllocator> = HeapStorage::new(1024);
    assert!(heap.alloc_array::<u64>(usize::MAX / 4).is_none());
}

#[test]
fn array_list_push_get_resize() {
    let mut alloc = BuddyAllocator::new(4096);
    let mut list: ArrayList<i32> = ArrayList::with_capacity(&mut alloc, 4).unwrap();
    assert_eq!(list.len(), 0);
    assert_eq!(list.capacity(), 4);
    assert!(list.push(&mut alloc, 7));
    assert!(list.push(&mut alloc, 8));
    assert_eq!(list.get(0), Some(&7));
    assert_eq!(list.get(1), Some(&8));
    assert_eq!(list.get(2), None);
    assert!(list.resize(&mut alloc, 1));
    assert_eq!(list.len(), 1);
    assert_eq!(list.get(1), None);
    // growing within the capacity shows the cells' old contents
    assert!(list.resize(&mut alloc, 2));
    assert_eq!(list.get(1), Some(&8));
    assert!(list.resize_with(&mut alloc, 4, 3));
    assert_eq!(list.get(1), Some(&8));
    assert_eq!(list.get(2), Some(&3));
    assert_eq!(list.get(3), Some(&3));
    assert!(list.resize_with(&mut alloc, 1, 0));
    assert_eq!(list.len(), 1);
    assert_eq!(list.capacity(), 4);
}

#[test]
fn array_list_grows_when_full() {
    let mut alloc = BuddyAllocator::new(4096);
    let mut list: ArrayList<i32> = ArrayList::with_capacity(&mut alloc, 0).unwrap();
    assert_eq!(list.capacity(), 0);
    assert!(list.push(&mut alloc, 1));
    assert_eq!(list.capacity(), 1);
    assert!(list.push(&mut alloc, 2));
    assert_eq!(list.capacity(), 2);
    assert!(list.push(&mut alloc, 3));
    assert_eq!(list.capacity(), 3);
    assert!(list.push(&mut alloc, 4));
    assert_eq!(list.capacity(), 4);
    assert!(list.push(&mut alloc, 5));
    assert_eq!(list.capacity(), 6);
    for (i, v) in [1, 2, 3, 4, 5].iter().enumerate() {
        assert_eq!(list.get(i), Some(v));
    }
    // past the capacity: a new array of exactly the new size, default cells after the values
    assert!(list.resize(&mut alloc, 8));
    assert_eq!(list.capacity(), 8);
    assert_eq!(list.get(4), Some(&5));
    assert_eq!(list.get(7), Some(&0));
    assert!(list.resize_with(&mut alloc, 10, 9));
    assert_eq!(list.capacity(), 10);
    assert_eq!(list.get(7), Some(&0));
    assert_eq!(list.get(8), Some(&9));
    assert_eq!(list.get(9), Some(&9));
}

#[test]
fn array_list_growth_refused_by_a_full_heap() {
    let mut alloc = BuddyAllocator::new(64);
    let mut list: ArrayList<u64> = ArrayList::with_capacity(&mut alloc, 2).unwrap();
    assert!(list.push(&mut alloc, 1));
    assert!(list.push(&mut alloc, 2));
    assert!(!list.resize(&mut alloc, 100));
    assert_eq!(list.len(), 2);
    assert_eq!(list.capacity(), 2);
    assert!(!list.resize_with(&mut alloc, 100, 0));
    assert_eq!(list.len(), 2);
    assert_eq!(list.get(1), Some(&2));
}

#[test]
fn buddy_serves_exactly_what_a_free_block_fits() {
    let mut alloc = BuddyAllocator::new(100);
    assert!(alloc.allocate(65, 1).is_none());
    assert!(alloc.allocate(64, 1).is_some());
    assert!(alloc.allocate(40, 1).is_none());
    assert!(alloc.allocate(20, 32).is_some());
    assert!(alloc.allocate(1, 1).is_none());
}
