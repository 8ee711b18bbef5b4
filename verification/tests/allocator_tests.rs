use nolos::allocator::{
    alloc_count, allocate, free_bytes, reset, total_bytes, used_bytes, BumpHeap, HEAP_SIZE,
};

#[test]
fn fresh_heap_is_empty() {
    let heap = BumpHeap::new();
    assert_eq!(used_bytes(&heap), 0);
    assert_eq!(alloc_count(&heap), 0);
    assert_eq!(free_bytes(&heap), HEAP_SIZE);
    assert_eq!(total_bytes(), 1024 * 1024);
}

#[test]
fn allocation_rounds_up_to_alignment() {
    let mut heap = BumpHeap::new();
    assert_eq!(allocate(&mut heap, 3, 1), Some(0));
    assert_eq!(used_bytes(&heap), 3);
    assert_eq!(allocate(&mut heap, 8, 8), Some(8));
    assert_eq!(used_bytes(&heap), 16);
    assert_eq!(alloc_count(&heap), 2);
    assert_eq!(allocate(&mut heap, 1, 16), Some(16));
    assert_eq!(allocate(&mut heap, 4, 4), Some(20));
    assert_eq!(used_bytes(&heap), 24);
    assert_eq!(free_bytes(&heap), HEAP_SIZE - 24);
    assert_eq!(alloc_count(&heap), 4);
}

#[test]
fn aligned_pointer_is_not_moved() {
    let mut heap = BumpHeap::new();
    assert_eq!(allocate(&mut heap, 64, 64), Some(0));
    assert_eq!(allocate(&mut heap, 64, 64), Some(64));
    assert_eq!(used_bytes(&heap), 128);
}

#[test]
fn zero_sized_allocation_counts() {
    let mut heap = BumpHeap::new();
    assert_eq!(allocate(&mut heap, 0, 1), Some(0));
    assert_eq!(used_bytes(&heap), 0);
    assert_eq!(alloc_count(&heap), 1);
}

#[test]
fn out_of_memory_leaves_heap_unchanged() {
    let mut heap = BumpHeap::new();
    assert_eq!(allocate(&mut heap, 10, 1), Some(0));
    assert_eq!(allocate(&mut heap, HEAP_SIZE, 1), None);
    assert_eq!(used_bytes(&heap), 10);
    assert_eq!(alloc_count(&heap), 1);
    // rounding up can be what makes it not fit
    assert_eq!(allocate(&mut heap, HEAP_SIZE - 16, 16), Some(16));
    assert_eq!(used_bytes(&heap), HEAP_SIZE);
    assert_eq!(free_bytes(&heap), 0);
    assert_eq!(allocate(&mut heap, 1, 1), None);
    assert_eq!(allocate(&mut heap, 0, 1), Some(HEAP_SIZE));
}

#[test]
fn exact_fit_succeeds() {
    let mut heap = BumpHeap::new();
    assert_eq!(allocate(&mut heap, HEAP_SIZE, 4096), Some(0));
    assert_eq!(free_bytes(&heap), 0);
}

#[test]
fn alignment_padding_can_exhaust_heap() {
    let mut heap = BumpHeap::new();
    assert_eq!(allocate(&mut heap, HEAP_SIZE - 8, 1), Some(0));
    // 8 bytes are free, but the next 16-aligned offset is the end of the heap
    assert_eq!(allocate(&mut heap, 8, 16), None);
    assert_eq!(allocate(&mut heap, 8, 8), Some(HEAP_SIZE - 8));
}

#[test]
fn reset_frees_everything() {
    let mut heap = BumpHeap::new();
    allocate(&mut heap, 100, 4);
    allocate(&mut heap, 100, 4);
    reset(&mut heap);
    assert_eq!(used_bytes(&heap), 0);
    assert_eq!(alloc_count(&heap), 0);
    assert_eq!(free_bytes(&heap), HEAP_SIZE);
    assert_eq!(allocate(&mut heap, 5, 2), Some(0));
}

#[test]
fn consecutive_blocks_do_not_overlap() {
    let mut heap = BumpHeap::new();
    let a = allocate(&mut heap, 13, 1).unwrap();
    let b = allocate(&mut heap, 7, 3).unwrap();
    let c = allocate(&mut heap, 1, 32).unwrap();
    assert!(a + 13 <= b);
    assert!(b + 7 <= c);
    assert_eq!(c % 32, 0);
}

#[test]
fn mask_rounding_with_non_power_of_two_alignment() {
    let mut heap = BumpHeap::new();
    assert_eq!(allocate(&mut heap, 5, 1), Some(0));
    // (5 + 3 - 1) & !(3 - 1) = 7 & !2 = 5
    assert_eq!(allocate(&mut heap, 1, 3), Some(5));
    assert_eq!(used_bytes(&heap), 6);
}

#[test]
fn free_plus_used_is_total() {
    let mut heap = BumpHeap::new();
    for size in [1usize, 17, 300, 4096] {
        allocate(&mut heap, size, 8);
        assert_eq!(free_bytes(&heap) + used_bytes(&heap), total_bytes());
    }
}

#[test]
fn huge_allocation_is_out_of_memory() {
    let mut heap = BumpHeap::new();
    assert_eq!(allocate(&mut heap, 1, 1), Some(0));
    assert_eq!(allocate(&mut heap, usize::MAX, 1), None);
    assert_eq!(allocate(&mut heap, usize::MAX - 1, 1), None);
    assert_eq!(allocate(&mut heap, 0, 1usize << (usize::BITS - 1)), None);
    assert_eq!(used_bytes(&heap), 1);
    assert_eq!(alloc_count(&heap), 1);
    // rounding up past the end of the address space
    assert_eq!(allocate(&mut heap, 1, 1), Some(1));
    assert_eq!(allocate(&mut heap, 1, usize::MAX), None);
    assert_eq!(used_bytes(&heap), 2);
}

#[test]
fn failed_calls_are_not_counted() {
    let mut heap = BumpHeap::new();
    let mut ok = 0;
    for size in [10usize, HEAP_SIZE, 20, usize::MAX, 30] {
        if allocate(&mut heap, size, 1).is_some() {
            ok += 1;
        }
    }
    assert_eq!(ok, 3);
    assert_eq!(alloc_count(&heap), 3);
    assert_eq!(used_bytes(&heap), 60);
}

#[test]
fn blocks_separated_by_failures_do_not_overlap() {
    let mut heap = BumpHeap::new();
    let a = allocate(&mut heap, 100, 16).unwrap();
    assert_eq!(allocate(&mut heap, HEAP_SIZE, 1), None);
    let b = allocate(&mut heap, 7, 64).unwrap();
    assert!(a + 100 <= b);
    assert_eq!(b, 128);
}
