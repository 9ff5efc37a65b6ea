use osmium::paging::mapping::Lock;
use osmium::paging::tables::{get_physical_address, is_page_mapped, RecursivePageTables};
use osmium::paging::PagePermissions;
use osmium::pmm::MemoryBitmapAllocator;
use osmium::user_memory::allocate_user_memory_at;

fn user_read_write() -> PagePermissions {
    PagePermissions { user: true, writable: true, executable: false }
}

#[test]
fn user_memory_is_mapped_block_by_block() {
    let mut tables = RecursivePageTables::new(0x100_0000);
    let mut physical_memory = MemoryBitmapAllocator::<128>::new();
    physical_memory.mark_range_as_free(10, 13);
    let mut lock = Lock::new();
    // A block and a half takes two blocks, the lowest free ones.
    assert!(allocate_user_memory_at(&mut tables, &mut physical_memory, &mut lock, 0x40_0000, 0x1_8000, user_read_write()));
    assert_eq!(get_physical_address(&tables, 0x40_0000), 0xA_0000);
    assert_eq!(get_physical_address(&tables, 0x40_f123), 0xA_f123);
    assert_eq!(get_physical_address(&tables, 0x41_3000), 0xB_3000);
    assert_eq!(get_physical_address(&tables, 0x41_ffff), 0xB_ffff);
    assert!(!is_page_mapped(&tables, 0x42_0000));
    // Two blocks more, with one left: the first is mapped, then it stops.
    assert!(!allocate_user_memory_at(&mut tables, &mut physical_memory, &mut lock, 0x60_0000, 0x2_0000, user_read_write()));
    assert_eq!(get_physical_address(&tables, 0x60_8000), 0xC_8000);
    assert!(!is_page_mapped(&tables, 0x61_0000));
    assert_eq!(physical_memory.allocate_block(), None);
}

#[test]
fn empty_user_memory_maps_nothing() {
    let mut tables = RecursivePageTables::new(0x100_0000);
    let mut physical_memory = MemoryBitmapAllocator::<64>::new();
    let mut lock = Lock::new();
    assert!(allocate_user_memory_at(&mut tables, &mut physical_memory, &mut lock, 0x40_0000, 0, user_read_write()));
    assert!(!is_page_mapped(&tables, 0x40_0000));
}
