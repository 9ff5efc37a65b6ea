use osmium::memory_token::{MemoryToken, PhysicalMemoryToken};
use osmium::token_bitmap::{get_bitmap_size, BitmapToken, BitmapTokenError, TokenBitmap};

type Token = BitmapToken<PhysicalMemoryToken, 1>;

fn region(token: Option<Token>) -> Option<(usize, usize)> {
    token.map(|t| {
        let inner = t.into_inner();
        (inner.address(), inner.size())
    })
}

#[test]
fn simple_bitmap_test() {
    let mut bitmap: TokenBitmap<PhysicalMemoryToken, 1, 128> = TokenBitmap::new();
    // Store a single at index 0 and read it back
    bitmap.store_range(BitmapToken::try_from_inner(PhysicalMemoryToken::new(0, 1)).unwrap());
    let mut iter = bitmap.read_range(0, 128);
    assert_eq!(region(iter.next(&mut bitmap)), Some((0, 1)));
    assert!(iter.next(&mut bitmap).is_none());
    // Check that it actually cleared the bit
    let mut iter = bitmap.read_range(0, 128);
    assert!(iter.next(&mut bitmap).is_none());

    // Add a token in the second word
    bitmap.store_range(BitmapToken::try_from_inner(PhysicalMemoryToken::new(64, 1)).unwrap());
    let mut iter = bitmap.read_range(0, 128);
    assert_eq!(region(iter.next(&mut bitmap)), Some((64, 1)));
    assert!(iter.next(&mut bitmap).is_none());

    // Add a token that spans two words
    bitmap.store_range(BitmapToken::try_from_inner(PhysicalMemoryToken::new(63, 2)).unwrap());
    let mut iter = bitmap.read_range(0, 128);
    assert_eq!(region(iter.next(&mut bitmap)), Some((63, 1)));
    assert_eq!(region(iter.next(&mut bitmap)), Some((64, 1)));
    assert!(iter.next(&mut bitmap).is_none());
}

#[test]
fn bitmap_read_within_one_word() {
    let mut bitmap: TokenBitmap<PhysicalMemoryToken, 1, 128> = TokenBitmap::new();
    bitmap.store_range(BitmapToken::try_from_inner(PhysicalMemoryToken::new(10, 5)).unwrap());
    let mut iter = bitmap.read_range(12, 2);
    assert_eq!(region(iter.next(&mut bitmap)), Some((12, 1)));
    assert_eq!(region(iter.next(&mut bitmap)), Some((13, 1)));
    assert!(iter.next(&mut bitmap).is_none());
    let mut iter = bitmap.read_range(0, 64);
    assert_eq!(region(iter.next(&mut bitmap)), Some((10, 1)));
    assert_eq!(region(iter.next(&mut bitmap)), Some((11, 1)));
    assert_eq!(region(iter.next(&mut bitmap)), Some((14, 1)));
    assert!(iter.next(&mut bitmap).is_none());
}

#[test]
fn bitmap_token_errors_and_bytes() {
    match BitmapToken::<PhysicalMemoryToken, 4096>::try_from_inner(PhysicalMemoryToken::new(4097, 4096)) {
        Err(BitmapTokenError::UnalignedAddress) => {}
        _ => panic!("expected an unaligned address"),
    }
    match BitmapToken::<PhysicalMemoryToken, 4096>::try_from_inner(PhysicalMemoryToken::new(8192, 100)) {
        Err(BitmapTokenError::UnalignedSize) => {}
        _ => panic!("expected an unaligned size"),
    }
    let token = BitmapToken::<PhysicalMemoryToken, 4096>::try_from_inner(PhysicalMemoryToken::new(8192, 12288))
        .unwrap();
    assert_eq!(token.address(), 2);
    assert_eq!(token.size(), 3);
    assert_eq!(token.byte_address(), 8192);
    assert_eq!(token.byte_size(), 12288);
    assert_eq!(get_bitmap_size(128), 2);
    assert_eq!(get_bitmap_size(129), 3);
}

#[test]
fn storing_no_blocks_changes_nothing() {
    let mut bitmap: TokenBitmap<PhysicalMemoryToken, 1, 128> = TokenBitmap::new();
    bitmap.store_range(BitmapToken::try_from_inner(PhysicalMemoryToken::new(64, 0)).unwrap());
    bitmap.store_range(BitmapToken::try_from_inner(PhysicalMemoryToken::new(0, 0)).unwrap());
    bitmap.store_range(BitmapToken::try_from_inner(PhysicalMemoryToken::new(128, 0)).unwrap());
    let mut iter = bitmap.read_range(0, 128);
    assert!(iter.next(&mut bitmap).is_none());
}

#[test]
fn block_tokens_count_blocks() {
    let token: BitmapToken<PhysicalMemoryToken, 4096> =
        BitmapToken::try_from_inner(PhysicalMemoryToken::new(0x3000, 0x2000)).unwrap();
    assert_eq!(token.address(), 3);
    assert_eq!(token.size(), 2);
    assert_eq!(token.byte_address(), 0x3000);
    assert_eq!(token.byte_size(), 0x2000);
}

#[test]
fn an_empty_read_takes_nothing() {
    let mut bitmap: TokenBitmap<PhysicalMemoryToken, 1, 128> = TokenBitmap::new();
    bitmap.store_range(BitmapToken::try_from_inner(PhysicalMemoryToken::new(5, 3)).unwrap());
    let mut iter = bitmap.read_range(1000, 0);
    assert!(iter.next(&mut bitmap).is_none());
    let mut iter = bitmap.read_range(5, 0);
    assert!(iter.next(&mut bitmap).is_none());
    let mut iter = bitmap.read_range(0, 128);
    assert_eq!(region(iter.next(&mut bitmap)), Some((5, 1)));
}
