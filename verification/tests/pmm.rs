use osmium::pmm::{get_bitmap_size, get_block_index, MemoryBitmapAllocator, BLOCK_SIZE};

#[test]
fn pmm_bitmap_test() {
    let mut allocator: MemoryBitmapAllocator<1024> = MemoryBitmapAllocator::new();
    assert_eq!(allocator.allocate_block(), None);
    allocator.mark_range_as_free(52, 60);
    for i in 52..60 {
        assert_eq!(allocator.allocate_block(), Some(i));
    }
    assert_eq!(allocator.allocate_block(), None);
}

#[test]
fn pmm_mark_single_blocks() {
    let mut allocator: MemoryBitmapAllocator<256> = MemoryBitmapAllocator::new();
    allocator.mark_as_free(200);
    allocator.mark_as_free(3);
    assert_eq!(allocator.allocate_block(), Some(3));
    allocator.mark_as_used(200);
    assert_eq!(allocator.allocate_block(), None);
}

#[test]
fn pmm_range_across_words() {
    let mut allocator: MemoryBitmapAllocator<256> = MemoryBitmapAllocator::new();
    allocator.mark_range_as_free(60, 200);
    allocator.mark_range_as_used(62, 199);
    assert_eq!(allocator.allocate_block(), Some(60));
    assert_eq!(allocator.allocate_block(), Some(61));
    assert_eq!(allocator.allocate_block(), Some(199));
    assert_eq!(allocator.allocate_block(), None);
}

#[test]
fn pmm_bit_range_mask() {
    assert_eq!(MemoryBitmapAllocator::<64>::get_bit_range_mask(4, 8), 0xf0);
    assert_eq!(MemoryBitmapAllocator::<64>::get_bit_range_mask(0, 64), u64::MAX);
    assert_eq!(MemoryBitmapAllocator::<64>::get_bit_range_mask(5, 5), 0);
}

#[test]
fn pmm_sizes() {
    assert_eq!(get_bitmap_size(1024), 16);
    assert_eq!(get_bitmap_size(1025), 17);
    assert_eq!(get_bitmap_size(0), 0);
    assert_eq!(get_block_index(3 * BLOCK_SIZE + 17), 3);
}
