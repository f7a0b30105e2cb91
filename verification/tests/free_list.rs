use rendering_engine::free_list::{Allocation, FreeListAllocator};

#[test]
fn alloc_free_reuse() {
    let mut a = FreeListAllocator::new(100);
    let x = a.allocate(40).unwrap();
    let y = a.allocate(40).unwrap();
    assert_eq!(x.offset, 0);
    assert_eq!(y.offset, 40);

    a.free(x);
    // A same-size allocation reuses the freed block, not the tail.
    let z = a.allocate(40).unwrap();
    assert_eq!(z.offset, 0);
}

#[test]
fn coalesces_adjacent_frees() {
    let mut a = FreeListAllocator::new(100);
    let x = a.allocate(30).unwrap();
    let y = a.allocate(30).unwrap();
    let z = a.allocate(30).unwrap();

    a.free(x);
    a.free(z);
    a.free(y); // fills the gap between x and z: everything merges back

    assert_eq!(a.largest_free_block(), 100);
    assert_eq!(a.free_block_count(), 1);
}

#[test]
fn alloc_fails_when_too_big() {
    let mut a = FreeListAllocator::new(50);
    assert!(a.allocate(51).is_none());
    assert!(a.allocate(50).is_some());
    assert!(a.allocate(1).is_none());
}

#[test]
fn new_allocator_is_one_free_block() {
    let a = FreeListAllocator::new(64);
    assert_eq!(a.capacity(), 64);
    assert_eq!(a.free_space(), 64);
    assert_eq!(a.largest_free_block(), 64);
    assert_eq!(a.free_block_count(), 1);
}

#[test]
fn zero_length_allocation_is_empty() {
    let mut a = FreeListAllocator::new(10);
    let z = a.allocate(0).unwrap();
    assert_eq!(z, Allocation { offset: 0, len: 0 });
    assert_eq!(a.free_space(), 10);
}

#[test]
fn first_fit_takes_lowest_block_that_fits() {
    let mut a = FreeListAllocator::new(100);
    let x = a.allocate(10).unwrap();
    let _y = a.allocate(10).unwrap();
    let z = a.allocate(30).unwrap();
    let _w = a.allocate(10).unwrap();
    a.free(x);
    a.free(z);
    // [0,10) and [20,50) and [60,100) are free; 20 units fit first at 20.
    let b = a.allocate(20).unwrap();
    assert_eq!(b.offset, 20);
    assert_eq!(a.free_space(), 10 + 10 + 40);
    assert_eq!(a.largest_free_block(), 40);
}

#[test]
fn free_undoes_allocate_on_concrete_values() {
    let mut a = FreeListAllocator::new(32);
    let first = a.allocate(8).unwrap();
    let before_space = a.free_space();
    let before_largest = a.largest_free_block();
    let x = a.allocate(5).unwrap();
    assert_eq!(a.free_space(), before_space - 5);
    a.free(x);
    assert_eq!(a.free_space(), before_space);
    assert_eq!(a.largest_free_block(), before_largest);
    a.free(first);
    assert_eq!(a.free_space(), 32);
    assert_eq!(a.free_block_count(), 1);
}

#[test]
fn free_space_never_exceeds_capacity() {
    let mut a = FreeListAllocator::new(20);
    let x = a.allocate(7).unwrap();
    let y = a.allocate(7).unwrap();
    assert!(a.free_space() <= a.capacity());
    assert!(a.largest_free_block() <= a.free_space());
    a.free(y);
    a.free(x);
    assert_eq!(a.free_space(), a.capacity());
}

#[test]
fn releasable_ranges_are_the_allocated_ones() {
    let mut a = FreeListAllocator::new(40);
    let x = a.allocate(10).unwrap();
    assert!(a.is_releasable(x));
    assert!(!a.is_releasable(Allocation { offset: 10, len: 5 }));
    assert!(!a.is_releasable(Allocation { offset: 35, len: 10 }));
    assert!(a.is_releasable(Allocation { offset: 2, len: 3 }));
    assert!(a.is_releasable(Allocation { offset: 99, len: 0 }));
    a.free(x);
    assert!(!a.is_releasable(x));
}

#[test]
fn fragmentation_bounds_allocation_by_largest_block() {
    let mut a = FreeListAllocator::new(100);
    let p = a.allocate(30).unwrap();
    let _q = a.allocate(30).unwrap();
    let s = a.allocate(40).unwrap();
    a.free(p);
    a.free(s);
    assert_eq!(a.free_space(), 70);
    assert_eq!(a.largest_free_block(), 40);
    assert!(a.allocate(50).is_none());
    assert_eq!(a.free_block_count(), 2);
}
