use osmium::memory_token::{AllocatedMemoryToken, MemoryToken};
use osmium::pmm::BLOCK_SIZE;
use osmium::small_allocator::SmallAllocator;

const BASE: usize = 0x100_0000;

#[test]
fn entries_come_from_partial_slabs_first() {
    let mut allocator = SmallAllocator::<16384>::new();
    assert!(allocator.allocate_from_partial_list().is_none());
    let first = allocator.allocate_from_new_slab(AllocatedMemoryToken::new(BASE, BLOCK_SIZE));
    assert_eq!(first.address(), BASE + 16384);
    let second = allocator.allocate_from_partial_list().unwrap();
    assert_eq!(second.address(), BASE + 2 * 16384);
    let third = allocator.allocate_from_partial_list().unwrap();
    assert_eq!(third.address(), BASE + 3 * 16384);
    // The slab is full now, so the partial list is empty.
    assert!(allocator.allocate_from_partial_list().is_none());
    // Freeing from the full slab puts it back on the partial list.
    assert!(allocator.free_small_const(second).is_none());
    let again = allocator.allocate_from_partial_list().unwrap();
    assert_eq!(again.address(), BASE + 2 * 16384);
}

#[test]
fn empty_slabs_are_handed_back() {
    let mut allocator = SmallAllocator::<32>::new();
    let first = allocator.allocate_from_new_slab(AllocatedMemoryToken::new(BASE, BLOCK_SIZE));
    let second = allocator.allocate_from_partial_list().unwrap();
    assert!(allocator.free_small_const(second).is_none());
    let block = allocator.free_small_const(first).expect("the slab is empty");
    assert_eq!(block.address(), BASE);
    assert_eq!(block.size(), BLOCK_SIZE);
    assert!(allocator.allocate_from_partial_list().is_none());
}

#[test]
fn half_block_slabs_hold_one_entry() {
    let mut allocator = SmallAllocator::<32768>::new();
    let entry = allocator.allocate_from_new_slab(AllocatedMemoryToken::new(BASE, BLOCK_SIZE));
    assert_eq!(entry.address(), BASE + 32768);
    assert!(allocator.allocate_from_partial_list().is_none());
    let block = allocator.free_small_const(entry).unwrap();
    assert_eq!(block.address(), BASE);
}

#[test]
fn an_emptied_slab_leaves_the_partial_list() {
    let mut allocator = SmallAllocator::<16384>::new();
    let a1 = allocator.allocate_from_new_slab(AllocatedMemoryToken::new(BASE, BLOCK_SIZE));
    let _a2 = allocator.allocate_from_partial_list().unwrap();
    let _a3 = allocator.allocate_from_partial_list().unwrap();
    let b1 = allocator.allocate_from_new_slab(AllocatedMemoryToken::new(BASE + BLOCK_SIZE, BLOCK_SIZE));
    // The first slab is back in front, linked to the second.
    assert!(allocator.free_small_const(a1).is_none());
    // The second slab empties and is handed back; nothing links to it any more.
    let block = allocator.free_small_const(b1).expect("the second slab is empty");
    assert_eq!(block.address(), BASE + BLOCK_SIZE);
    let again = allocator.allocate_from_partial_list().unwrap();
    assert_eq!(again.address(), BASE + 16384);
    assert!(allocator.allocate_from_partial_list().is_none());
}
