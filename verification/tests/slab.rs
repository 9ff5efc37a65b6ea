use osmium::memory_token::{AllocatedMemoryToken, MemoryToken};
use osmium::pmm::BLOCK_SIZE;
use osmium::slab::Slab;

fn block() -> (Box<[u8; BLOCK_SIZE]>, AllocatedMemoryToken) {
    let boxed = Box::new([0u8; BLOCK_SIZE]);
    let address = boxed.as_ptr() as usize;
    (boxed, AllocatedMemoryToken::new(address, BLOCK_SIZE))
}

#[test]
fn test_slab_allocate_and_free() {
    let (_memory, allocation) = block();
    let mut slab = Slab::<32>::new(allocation);
    let token1 = slab.allocate().expect("Should allocate first entry");
    let token2 = slab.allocate().expect("Should allocate second entry");
    assert_ne!(token1.address(), token2.address(), "Allocated tokens should be different");
    let token1_address = token1.address();
    slab.free(token1);
    let token3 = slab.allocate().expect("Should allocate after freeing");
    assert_eq!(token1_address, token3.address(), "Freed token should be reallocated");
}

#[test]
fn test_slab_full() {
    let (_memory, allocation) = block();
    let mut slab = Slab::<32>::new(allocation);
    for _ in 0..(BLOCK_SIZE / 32 - 1) {
        assert!(slab.allocate().is_some(), "Should allocate until full");
    }
    assert!(slab.allocate().is_none(), "Should not allocate when full");
}

#[test]
fn test_slab_alloc_order() {
    let (_memory, allocation) = block();
    let mut slab = Slab::<32>::new(allocation);
    // Allocate several tokens, then free them in a different order and check that they are reallocated in (reverse-)freed order.
    let mut tokens = (0..5).map(|_| slab.allocate().expect("Should allocate")).collect::<Vec<_>>();
    let free_order = [3, 1, 4, 0, 2];
    for &i in &free_order {
        slab.free(tokens[i].take());
    }
    for &i in free_order.iter().rev() {
        let token = slab.allocate().expect("Should allocate");
        assert_eq!(token.address(), tokens[i].address(), "Reallocated token should match freed token");
    }
}

#[test]
fn test_slab_linked_list() {
    let (_memory1, allocation1) = block();
    let (_memory2, allocation2) = block();
    let (_memory3, allocation3) = block();
    let mut slab1 = Slab::<32>::new(allocation1);
    let mut slab2 = Slab::<32>::new(allocation2);
    let mut slab3 = Slab::<32>::new(allocation3);

    let slab2_pointer = slab2.address();
    let slab3_pointer = slab3.address();

    // Link slab1 -> slab2 -> slab3
    let (old_next, old_prev) = slab2.set_next(&mut slab3);
    assert!(old_next.is_none(), "slab2 should not have had a next slab");
    assert!(old_prev.is_none(), "slab3 should not have had a previous slab");

    let (old_next, old_prev) = slab1.set_next(&mut slab2);
    assert!(old_next.is_none(), "slab1 should not have had a next slab");
    assert!(old_prev.is_none(), "slab2 should not have had a previous slab");

    let next_slab1 = slab1.take_next().expect("slab1 should have a next slab");
    assert_eq!(next_slab1, slab2_pointer, "Next slab of slab1 should be slab2");
    assert!(slab1.take_next().is_none(), "slab1 should not have a next slab anymore");
    let next_slab2 = slab2.take_next().expect("slab2 should have a next slab");
    assert_eq!(next_slab2, slab3_pointer, "Next slab of slab2 should be slab3");
    assert!(slab2.take_next().is_none(), "slab2 should not have a next slab anymore");
    assert!(slab3.take_next().is_none(), "slab3 should not have a next slab");
    assert!(slab2.take_next().is_none(), "slab2 should not have a next slab anymore");
}

#[test]
fn test_slab_try_into_allocation() {
    let (memory, allocation) = block();
    let original_address = memory.as_ptr() as usize;
    let mut slab = Slab::<32>::new(allocation);
    let token1 = slab.allocate().expect("Should allocate first entry");
    let token2 = slab.allocate().expect("Should allocate second entry");
    let Err(mut slab) = slab.try_into_allocation() else {
        panic!("Slab should not be convertible to allocation when not empty");
    };
    slab.free(token1);
    slab.free(token2);
    let Ok(allocation) = slab.try_into_allocation() else {
        panic!("Slab should be convertible to allocation when empty");
    };
    assert_eq!(allocation.address(), original_address, "Allocation address should match original address");
    assert_eq!(allocation.size(), BLOCK_SIZE, "Allocation size should match block size");
}

#[test]
fn slab_entries_are_handed_out_from_the_lowest() {
    let (memory, allocation) = block();
    let base = memory.as_ptr() as usize;
    let mut slab = Slab::<64>::new(allocation);
    assert!(slab.is_empty());
    assert!(!slab.is_full());
    let first = slab.allocate().unwrap();
    let second = slab.allocate().unwrap();
    assert_eq!(first.address(), base + 64);
    assert_eq!(second.address(), base + 128);
    assert_eq!(first.size(), 64);
    assert!(!slab.is_empty());
    assert_eq!(Slab::<64>::entry_count(), BLOCK_SIZE / 64);
}

#[test]
fn slab_previous_links() {
    let (_memory1, allocation1) = block();
    let (_memory2, allocation2) = block();
    let mut slab1 = Slab::<128>::new(allocation1);
    let mut slab2 = Slab::<128>::new(allocation2);
    let (old_previous, old_next) = slab2.set_previous(&mut slab1);
    assert!(old_previous.is_none());
    assert!(old_next.is_none());
    assert_eq!(slab2.take_previous(), Some(slab1.address()));
    assert_eq!(slab1.take_next(), Some(slab2.address()));
    assert_eq!(slab2.take_previous(), None);
    assert_eq!(slab2.into_ptr() % 1, 0);
}
