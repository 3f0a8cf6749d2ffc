use bump_allocator::{AllocError, EarlyAllocator};

const PAGE: usize = 0x1000;

fn region(start: usize, size: usize) -> EarlyAllocator<PAGE> {
    let mut a = EarlyAllocator::<PAGE>::new();
    a.init(start, size);
    a
}

#[test]
fn new_allocator_is_empty() {
    let a = EarlyAllocator::<PAGE>::new();
    assert_eq!(a.total_bytes(), 0);
    assert_eq!(a.used_bytes(), 0);
    assert_eq!(a.available_bytes(), 0);
    assert_eq!(a.total_pages(), 0);
    assert_eq!(a.used_pages(), 0);
    assert_eq!(a.available_pages(), 0);
}

#[test]
fn new_allocator_grants_nothing_but_empty_blocks() {
    let mut a = EarlyAllocator::<PAGE>::new();
    assert_eq!(a.allocate(1, 1), Err(AllocError::NoMemory));
    assert_eq!(a.alloc_pages(1, PAGE), Err(AllocError::NoMemory));
    assert_eq!(a.allocate(0, 1), Ok(0));
}

#[test]
fn init_leaves_everything_available() {
    let a = region(0x1000, 0x5000);
    assert_eq!(a.total_bytes(), 0x5000);
    assert_eq!(a.used_bytes(), 0);
    assert_eq!(a.used_pages(), 0);
    assert_eq!(a.available_bytes(), 0x5000);
    assert_eq!(a.total_pages(), 5);
    assert_eq!(a.available_pages(), 5);
}

#[test]
fn init_of_unaligned_range_counts_whole_pages() {
    let a = region(0x1234, 0x2fff);
    assert_eq!(a.total_bytes(), 0x2fff);
    assert_eq!(a.available_bytes(), 0x2fff);
    assert_eq!(a.total_pages(), 2);
    assert_eq!(a.available_pages(), 2);
    assert_eq!(a.used_pages(), 0);
}

#[test]
fn init_again_resets_the_bookkeeping() {
    let mut a = region(0x1000, 0x4000);
    assert_eq!(a.allocate(64, 8), Ok(0x1000));
    assert_eq!(a.alloc_pages(1, PAGE), Ok(0x4000));
    a.init(0x8000, 0x2000);
    assert_eq!(a.used_bytes(), 0);
    assert_eq!(a.used_pages(), 0);
    assert_eq!(a.available_bytes(), 0x2000);
    assert_eq!(a.allocate(8, 8), Ok(0x8000));
}

#[test]
fn add_memory_always_fails() {
    let mut a = region(0x1000, 0x2000);
    assert_eq!(a.add_memory(0x10000, 0x1000), Err(AllocError::NoMemory));
    assert_eq!(a.add_memory(0, 0), Err(AllocError::NoMemory));
    assert_eq!(a.total_bytes(), 0x2000);
    assert_eq!(a.available_bytes(), 0x2000);
    assert_eq!(a.used_bytes(), 0);
}

#[test]
fn byte_blocks_ascend_and_are_aligned() {
    let mut a = region(0x1000, 0x4000);
    let requests: [(usize, usize); 6] = [(3, 1), (16, 8), (1, 64), (100, 4), (7, 256), (32, 16)];
    let mut blocks: Vec<(usize, usize)> = Vec::new();
    for (size, align) in requests {
        let addr = a.allocate(size, align).unwrap();
        assert_eq!(addr % align, 0);
        blocks.push((addr, size));
    }
    for i in 0..blocks.len() {
        for j in (i + 1)..blocks.len() {
            assert!(blocks[i].0 < blocks[j].0);
            assert!(blocks[i].0 + blocks[i].1 <= blocks[j].0);
        }
    }
    assert_eq!(
        blocks,
        vec![(0x1000, 3), (0x1008, 16), (0x1040, 1), (0x1044, 100), (0x1100, 7), (0x1110, 32)]
    );
    assert_eq!(a.used_bytes(), 0x130);
    assert_eq!(a.available_bytes(), 0x4000 - 0x130);
}

#[test]
fn byte_allocation_rounds_the_cursor_up() {
    let mut a = region(0x1001, 0x1000);
    assert_eq!(a.allocate(8, 16), Ok(0x1010));
    assert_eq!(a.used_bytes(), 0x17);
    assert_eq!(a.allocate(1, 1), Ok(0x1018));
    assert_eq!(a.allocate(1, 0x800), Ok(0x1800));
    assert_eq!(a.used_bytes(), 0x800);
}

#[test]
fn byte_allocation_refuses_alignment_that_is_no_power_of_two() {
    let mut a = region(0x1000, 0x1000);
    assert_eq!(a.allocate(8, 0), Err(AllocError::InvalidParam));
    assert_eq!(a.allocate(8, 3), Err(AllocError::InvalidParam));
    assert_eq!(a.allocate(8, 24), Err(AllocError::InvalidParam));
    assert_eq!(a.used_bytes(), 0);
    assert_eq!(a.available_bytes(), 0x1000);
}

#[test]
fn byte_allocation_with_huge_arguments_fails_cleanly() {
    let mut a = region(0x1001, 0x1000);
    assert_eq!(a.allocate(usize::MAX, 1), Err(AllocError::NoMemory));
    assert_eq!(a.allocate(1, 1usize << (usize::BITS - 1)), Err(AllocError::NoMemory));
    assert_eq!(a.allocate(usize::MAX, 1usize << (usize::BITS - 1)), Err(AllocError::NoMemory));
    assert_eq!(a.used_bytes(), 0);
    assert_eq!(a.available_bytes(), 0x1000);
}

#[test]
fn empty_blocks_may_share_an_address() {
    let mut a = region(0x1000, 0x1000);
    assert_eq!(a.allocate(0, 8), Ok(0x1000));
    assert_eq!(a.allocate(0, 8), Ok(0x1000));
    assert_eq!(a.used_bytes(), 0);
}

#[test]
fn page_blocks_descend_and_are_aligned() {
    let mut a = region(0x1000, 0x20000);
    let requests: [(usize, usize); 5] =
        [(1, 0x1000), (2, 0x2000), (1, 0x4000), (3, 0x1000), (1, 0x8000)];
    let mut blocks: Vec<(usize, usize)> = Vec::new();
    for (num, align) in requests {
        let addr = a.alloc_pages(num, align).unwrap();
        assert_eq!(addr % align, 0);
        blocks.push((addr, num));
    }
    for i in 0..blocks.len() {
        for j in (i + 1)..blocks.len() {
            assert!(blocks[j].0 < blocks[i].0);
            assert!(blocks[j].0 + blocks[j].1 * PAGE <= blocks[i].0);
        }
    }
    assert_eq!(
        blocks,
        vec![(0x20000, 1), (0x1e000, 2), (0x1c000, 1), (0x19000, 3), (0x18000, 1)]
    );
    assert_eq!(a.used_pages(), 9);
    assert_eq!(a.available_pages(), 0x17);
}

#[test]
fn page_allocation_rounds_the_start_down() {
    let mut a = region(0x1000, 0x8000);
    assert_eq!(a.alloc_pages(1, 0x4000), Ok(0x8000));
    assert_eq!(a.alloc_pages(1, 0x4000), Ok(0x4000));
    assert_eq!(a.used_pages(), 5);
    assert_eq!(a.available_pages(), 3);
    assert_eq!(a.available_bytes(), 0x3000);
}

#[test]
fn page_allocation_from_unaligned_end_starts_on_a_page() {
    let mut a = region(0x1000, 0x2800);
    assert_eq!(a.alloc_pages(1, PAGE), Ok(0x2000));
    assert_eq!(a.used_pages(), 1);
    assert_eq!(a.available_bytes(), 0x1000);
}

#[test]
fn release_in_reverse_order_rewinds() {
    let mut a = region(0x1000, 0x1000);
    let before = a.used_bytes();
    let block_a = a.allocate(32, 8).unwrap();
    let block_b = a.allocate(64, 8).unwrap();
    assert_eq!(a.used_bytes(), 96);
    a.dealloc(block_b, 64);
    assert_eq!(a.used_bytes(), 32);
    a.dealloc(block_a, 32);
    assert_eq!(a.used_bytes(), before);
    assert_eq!(a.allocate(8, 8), Ok(0x1000));
}

#[test]
fn release_out_of_order_is_ignored() {
    let mut a = region(0x1000, 0x1000);
    let block_a = a.allocate(32, 8).unwrap();
    let block_b = a.allocate(64, 8).unwrap();
    a.dealloc(block_a, 32);
    assert_eq!(a.used_bytes(), 96);
    assert_eq!(a.available_bytes(), 0x1000 - 96);
    a.dealloc(block_b, 64);
    assert_eq!(a.used_bytes(), 32);
    a.dealloc(block_a, 32);
    assert_eq!(a.used_bytes(), 0);
}

#[test]
fn release_of_a_block_that_was_never_handed_out_is_ignored() {
    let mut a = region(0x1000, 0x1000);
    assert_eq!(a.allocate(0x20, 1), Ok(0x1000));
    a.dealloc(0x1008, 8);
    assert_eq!(a.used_bytes(), 0x20);
    a.dealloc(0x800, 0x820);
    assert_eq!(a.used_bytes(), 0x20);
    a.dealloc(usize::MAX, 0x1021);
    assert_eq!(a.used_bytes(), 0x20);
    a.dealloc(0x1010, 0x10);
    assert_eq!(a.used_bytes(), 0x10);
}

#[test]
fn release_after_padding_keeps_the_padding() {
    let mut a = region(0x1000, 0x1000);
    let block_a = a.allocate(3, 1).unwrap();
    let block_b = a.allocate(8, 8).unwrap();
    assert_eq!(block_b, 0x1008);
    a.dealloc(block_b, 8);
    assert_eq!(a.used_bytes(), 8);
    a.dealloc(block_a, 3);
    assert_eq!(a.used_bytes(), 8);
}

#[test]
fn request_larger_than_the_range_fails() {
    let mut a = region(0x1000, 100);
    assert_eq!(a.allocate(101, 1), Err(AllocError::NoMemory));
    assert_eq!(a.used_bytes(), 0);
    assert_eq!(a.available_bytes(), 100);
    assert_eq!(a.used_pages(), 0);
    assert_eq!(a.allocate(100, 1), Ok(0x1000));
    assert_eq!(a.available_bytes(), 0);
    assert_eq!(a.allocate(1, 1), Err(AllocError::NoMemory));
    assert_eq!(a.used_bytes(), 100);
}

#[test]
fn bytes_stop_at_the_page_zone() {
    let mut a = region(0x1000, 2 * PAGE);
    assert_eq!(a.alloc_pages(1, PAGE), Ok(0x2000));
    assert_eq!(a.allocate(PAGE + 1, 1), Err(AllocError::NoMemory));
    assert_eq!(a.used_bytes(), 0);
    assert_eq!(a.allocate(PAGE, 1), Ok(0x1000));
    assert_eq!(a.used_bytes(), PAGE);
    assert_eq!(a.available_bytes(), 0);
    assert_eq!(a.allocate(1, 1), Err(AllocError::NoMemory));
    assert_eq!(a.used_bytes(), PAGE);
    assert_eq!(a.used_pages(), 1);
}

#[test]
fn pages_stop_above_the_byte_zone() {
    let mut a = region(0x1000, 3 * PAGE);
    assert_eq!(a.allocate(16, 8), Ok(0x1000));
    assert_eq!(a.alloc_pages(3, PAGE), Err(AllocError::NoMemory));
    assert_eq!(a.alloc_pages(4, PAGE), Err(AllocError::NoMemory));
    assert_eq!(a.used_pages(), 0);
    assert_eq!(a.available_bytes(), 3 * PAGE - 16);
    assert_eq!(a.alloc_pages(2, PAGE), Ok(0x2000));
    assert_eq!(a.alloc_pages(1, PAGE), Err(AllocError::NoMemory));
    assert_eq!(a.used_pages(), 2);
    assert_eq!(a.available_bytes(), PAGE - 16);
}

#[test]
fn pages_never_start_in_the_page_of_the_byte_cursor() {
    let mut a = region(0x1000, 2 * PAGE);
    assert_eq!(a.alloc_pages(2, PAGE), Err(AllocError::NoMemory));
    assert_eq!(a.used_pages(), 0);
    assert_eq!(a.available_pages(), 2);
    assert_eq!(a.alloc_pages(1, PAGE), Ok(0x2000));
}

#[test]
fn page_alignment_slack_can_exhaust_the_range() {
    let mut a = region(0x1000, 0x6000);
    assert_eq!(a.alloc_pages(1, 0x8000), Err(AllocError::NoMemory));
    assert_eq!(a.used_pages(), 0);
    assert_eq!(a.alloc_pages(1, 0x4000), Ok(0x4000));
    assert_eq!(a.used_pages(), 3);
}

#[test]
fn dealloc_pages_changes_nothing() {
    let mut a = region(0x1000, 0x8000);
    let addr = a.alloc_pages(2, PAGE).unwrap();
    let used = a.used_pages();
    let available = a.available_pages();
    a.dealloc_pages(addr, 2);
    assert_eq!(a.used_pages(), used);
    assert_eq!(a.available_pages(), available);
    a.dealloc_pages(0, usize::MAX);
    a.dealloc_pages(0x1234, 7);
    assert_eq!(a.used_pages(), 2);
    assert_eq!(a.available_pages(), 6);
    assert_eq!(a.alloc_pages(1, PAGE), Ok(0x6000));
}

#[test]
fn invalid_page_alignment_is_refused() {
    let mut a = region(0x1000, 0x10000);
    assert_eq!(a.alloc_pages(1, 4097), Err(AllocError::InvalidParam));
    assert_eq!(a.alloc_pages(1, 8192 * 3), Err(AllocError::InvalidParam));
    assert_eq!(a.alloc_pages(1, 0), Err(AllocError::InvalidParam));
    assert_eq!(a.alloc_pages(1, 8), Err(AllocError::InvalidParam));
    assert_eq!(a.alloc_pages(usize::MAX, 4097), Err(AllocError::InvalidParam));
    assert_eq!(a.used_pages(), 0);
    assert_eq!(a.available_pages(), 0x10);
}

#[test]
fn bytes_then_page_then_too_many_bytes() {
    let mut a = region(0x1000, 0x2000);
    assert_eq!(a.allocate(16, 8), Ok(0x1000));
    assert_eq!(a.alloc_pages(1, 0x1000), Ok(0x2000));
    assert_eq!(a.allocate(0x1010, 1), Err(AllocError::NoMemory));
    assert_eq!(a.used_bytes(), 16);
    assert_eq!(a.used_pages(), 1);
    assert_eq!(a.available_bytes(), 0xff0);
    assert_eq!(a.available_pages(), 0);
}

#[test]
fn other_page_sizes_are_honoured() {
    let mut a = EarlyAllocator::<0x200>::new();
    a.init(0x1000, 0x1000);
    assert_eq!(a.total_pages(), 8);
    assert_eq!(a.alloc_pages(3, 0x400), Ok(0x1800));
    assert_eq!(a.used_pages(), 4);
    assert_eq!(a.alloc_pages(1, 0x600), Err(AllocError::InvalidParam));
    assert_eq!(a.alloc_pages(1, 0x300), Err(AllocError::InvalidParam));
    assert_eq!(a.alloc_pages(1, 0x1000), Err(AllocError::NoMemory));
    assert_eq!(a.alloc_pages(1, 0x800), Err(AllocError::NoMemory));
    assert_eq!(a.alloc_pages(1, 0x400), Ok(0x1400));
    assert_eq!(a.used_pages(), 6);
}

#[test]
fn error_values_compare_and_copy() {
    let e = AllocError::NoMemory;
    let f = e;
    assert_eq!(e, f);
    assert_ne!(e, AllocError::InvalidParam);
    assert_eq!(format!("{:?}", AllocError::InvalidParam), "InvalidParam");
}
