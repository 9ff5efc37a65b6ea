use osmium::memory_token::{AllocatedMemoryToken, MemoryToken, VirtualMemoryToken};

#[test]
fn test_split_and_merge() {
    // Simple: split in half
    let token = VirtualMemoryToken::new(0x1000, 0x1000);
    let (first, second) = token.split_at(0x800);
    assert_eq!(first.address(), 0x1000);
    assert_eq!(first.size(), 0x800);
    assert_eq!(second.address(), 0x1800);
    assert_eq!(second.size(), 0x800);

    // More complex: split into non-equal parts
    let token = VirtualMemoryToken::new(0x2000, 0x1000);
    let (first, second) = token.split_at(0x600);
    assert_eq!(first.address(), 0x2000);
    assert_eq!(first.size(), 0x600);
    assert_eq!(second.address(), 0x2600);
    assert_eq!(second.size(), 0xA00);

    // Split into a zero-sized left token
    let token = VirtualMemoryToken::new(0x3000, 0x1000);
    let (first, second) = token.split_at(0);
    assert_eq!(first.address(), 0x3000);
    assert_eq!(first.size(), 0);
    assert_eq!(second.address(), 0x3000);
    assert_eq!(second.size(), 0x1000);
}

#[test]
fn test_view() {
    let token = VirtualMemoryToken::new(0x4000, 0x1000);
    let view = token.view(0x800, 0x400);
    assert_eq!(view.address(), 0x4800);
    assert_eq!(view.size(), 0x400);
}

#[test]
fn test_chunks() {
    let token = VirtualMemoryToken::new(0x5000, 0x1000);
    let mut chunks = token.chunks(0x400);
    let first_chunk = chunks.next().unwrap();
    assert_eq!(first_chunk.address(), 0x5000);
    assert_eq!(first_chunk.size(), 0x400);
    let second_chunk = chunks.next().unwrap();
    assert_eq!(second_chunk.address(), 0x5400);
    assert_eq!(second_chunk.size(), 0x400);
    let third_chunk = chunks.next().unwrap();
    assert_eq!(third_chunk.address(), 0x5800);
    assert_eq!(third_chunk.size(), 0x400);
    let fourth_chunk = chunks.next().unwrap();
    assert_eq!(fourth_chunk.address(), 0x5C00);
    assert_eq!(fourth_chunk.size(), 0x400);
    assert!(chunks.next().is_none());
}

#[test]
fn test_chunks_not_exact() {
    let token = VirtualMemoryToken::new(0x5000, 0x1000);
    let mut chunks = token.chunks(0x600);
    let first_chunk = chunks.next().unwrap();
    assert_eq!(first_chunk.address(), 0x5000);
    assert_eq!(first_chunk.size(), 0x600);
    let second_chunk = chunks.next().unwrap();
    assert_eq!(second_chunk.address(), 0x5600);
    assert_eq!(second_chunk.size(), 0x600);
    let third_chunk = chunks.next().unwrap();
    assert_eq!(third_chunk.address(), 0x5C00);
    assert_eq!(third_chunk.size(), 0x400);
    assert!(chunks.next().is_none());
}

#[test]
fn token_merge_take_and_hint() {
    let first = AllocatedMemoryToken::new(0x1000, 0x800);
    let second = AllocatedMemoryToken::new(0x1800, 0x200);
    let mut merged = first.merge(second);
    assert_eq!(merged.address(), 0x1000);
    assert_eq!(merged.size(), 0xA00);
    let taken = merged.take();
    assert_eq!(taken.size(), 0xA00);
    assert_eq!(merged.address(), 0x1000);
    assert_eq!(merged.size(), 0);
    let chunks = taken.chunks(0x300);
    assert_eq!(chunks.size_hint(), (4, Some(4)));
    let empty = AllocatedMemoryToken::empty(0x9000);
    assert_eq!(empty.into_ptr(), 0x9000);
}
