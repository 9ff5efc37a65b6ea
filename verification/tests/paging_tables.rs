use osmium::memory_token::{MemoryToken, PhysicalMemoryToken, VirtualMemoryToken};
use osmium::paging::entry::{deconstruct_page_table_entry, get_page_table_entry_address};
use osmium::paging::mapping::{create_page_mapping, is_page_table_entry_present, take_page_mapping, Lock};
use osmium::paging::tables::{
    ensure_page_table_exists, get_physical_address, is_page_mapped, is_page_table_present, map_page,
    unmap_page, PageTableMemory, RecursivePageTables,
};
use osmium::paging::x86_64::PageTableIndices;
use osmium::paging::{MemoryType, PagePermissions};

const R: usize = 256;

fn read_write() -> PagePermissions {
    PagePermissions { user: false, writable: true, executable: false }
}

#[test]
fn map_then_translate() {
    let mut tables = RecursivePageTables::new(0x10_0000);
    let virtual_address = 0x4000_1000usize;
    assert!(!is_page_mapped(&tables, virtual_address));
    map_page(&mut tables, virtual_address, 0x20_3000, MemoryType::Normal, read_write());
    assert!(is_page_mapped(&tables, virtual_address));
    assert_eq!(get_physical_address(&tables, virtual_address), 0x20_3000);
    assert_eq!(get_physical_address(&tables, virtual_address + 0x123), 0x20_3123);
    // The three new tables were handed out in order, from the top.
    let pml4_entry = deconstruct_page_table_entry(tables.read_word(get_page_table_entry_address(R, R, R, 0)));
    assert!(pml4_entry.present);
    assert!(pml4_entry.user_accessible);
    assert_eq!(pml4_entry.physical_address, 0x10_0000);
    let pml3_entry = deconstruct_page_table_entry(tables.read_word(get_page_table_entry_address(R, R, 0, 1)));
    assert_eq!(pml3_entry.physical_address, 0x10_1000);
    let pml2_entry = deconstruct_page_table_entry(tables.read_word(get_page_table_entry_address(R, 0, 1, 0)));
    assert_eq!(pml2_entry.physical_address, 0x10_2000);
    let leaf = deconstruct_page_table_entry(tables.read_word(get_page_table_entry_address(0, 1, 0, 1)));
    assert!(leaf.present && leaf.writeable && !leaf.user_accessible && leaf.no_execute && !leaf.global);
}

#[test]
fn unmap_clears_the_mapping() {
    let mut tables = RecursivePageTables::new(0x10_0000);
    let virtual_address = 0x7000usize;
    map_page(&mut tables, virtual_address, 0x9000, MemoryType::Device, read_write());
    let leaf = deconstruct_page_table_entry(tables.read_word(get_page_table_entry_address(0, 0, 0, 7)));
    assert!(leaf.cache_disabled);
    unmap_page(&mut tables, virtual_address);
    assert!(!is_page_mapped(&tables, virtual_address));
    assert_eq!(tables.read_word(get_page_table_entry_address(0, 0, 0, 7)), 0);
    // The page tables stay.
    let indices = osmium::paging::entry::deconstruct_virtual_address(virtual_address);
    assert!(is_page_table_present(&tables, &indices));
}

#[test]
fn mapping_reuses_existing_tables() {
    let mut tables = RecursivePageTables::new(0x10_0000);
    map_page(&mut tables, 0x1000, 0xa000, MemoryType::Normal, read_write());
    map_page(&mut tables, 0x2000, 0xb000, MemoryType::Normal, read_write());
    // No table was needed for the second page: the next one handed out is the fourth.
    ensure_page_table_exists(&mut tables, true, 0, 0, 1);
    let pml2_entry = deconstruct_page_table_entry(tables.read_word(get_page_table_entry_address(R, 0, 0, 1)));
    assert_eq!(pml2_entry.physical_address, 0x10_3000);
    assert_eq!(get_physical_address(&tables, 0x1000), 0xa000);
    assert_eq!(get_physical_address(&tables, 0x2000), 0xb000);
}

#[test]
fn kernel_pages_are_global() {
    let mut tables = RecursivePageTables::new(0x10_0000);
    let virtual_address = 0xffff_ffff_8000_0000usize;
    map_page(&mut tables, virtual_address, 0x1000, MemoryType::Normal, read_write());
    let indices = osmium::paging::entry::deconstruct_virtual_address(virtual_address);
    let leaf = deconstruct_page_table_entry(tables.read_word(get_page_table_entry_address(
        indices.pml4_index,
        indices.pml3_index,
        indices.pml2_index,
        indices.pml1_index,
    )));
    assert!(leaf.global);
    let pml4_entry =
        deconstruct_page_table_entry(tables.read_word(get_page_table_entry_address(R, R, R, indices.pml4_index)));
    assert!(!pml4_entry.user_accessible);
}

#[test]
fn token_mapping_round_trip() {
    let mut tables = RecursivePageTables::new(0x40_0000);
    let mut lock = Lock::new();
    let physical = PhysicalMemoryToken::new(0x5000, 4096);
    let virtual_page = VirtualMemoryToken::new(0x60_0000, 4096);
    let indices = PageTableIndices::new(0x60_0000);
    assert!(!is_page_table_entry_present(&tables, indices, &lock));
    let allocation = create_page_mapping(&mut tables, MemoryType::Normal, read_write(), physical, virtual_page, &mut lock);
    assert_eq!(allocation.address(), 0x60_0000);
    assert_eq!(allocation.size(), 4096);
    assert!(is_page_table_entry_present(&tables, indices, &lock));
    let (physical, virtual_page) = take_page_mapping(&mut tables, allocation, &mut lock);
    assert_eq!(physical.address(), 0x5000);
    assert_eq!(physical.size(), 4096);
    assert_eq!(virtual_page.address(), 0x60_0000);
    assert!(!is_page_table_entry_present(&tables, indices, &lock));
}

#[test]
fn token_mappings_keep_each_other() {
    let mut tables = RecursivePageTables::new(0x40_0000);
    let mut lock = Lock::new();
    let first = create_page_mapping(
        &mut tables,
        MemoryType::Normal,
        read_write(),
        PhysicalMemoryToken::new(0x5000, 4096),
        VirtualMemoryToken::new(0x60_0000, 4096),
        &mut lock,
    );
    let second = create_page_mapping(
        &mut tables,
        MemoryType::Device,
        read_write(),
        PhysicalMemoryToken::new(0x9000, 4096),
        VirtualMemoryToken::new(0x60_1000, 4096),
        &mut lock,
    );
    let third = create_page_mapping(
        &mut tables,
        MemoryType::Normal,
        read_write(),
        PhysicalMemoryToken::new(0x7_0000, 4096),
        VirtualMemoryToken::new(0x80_0000_0000, 4096),
        &mut lock,
    );
    assert!(is_page_table_entry_present(&tables, PageTableIndices::new(0x60_0000), &lock));
    let (physical, _) = take_page_mapping(&mut tables, first, &mut lock);
    assert_eq!(physical.address(), 0x5000);
    assert!(is_page_table_entry_present(&tables, PageTableIndices::new(0x60_1000), &lock));
    let (physical, _) = take_page_mapping(&mut tables, third, &mut lock);
    assert_eq!(physical.address(), 0x7_0000);
    let (physical, virtual_page) = take_page_mapping(&mut tables, second, &mut lock);
    assert_eq!(physical.address(), 0x9000);
    assert_eq!(virtual_page.address(), 0x60_1000);
}

#[test]
fn page_tables_are_handed_out_in_order() {
    let mut tables = RecursivePageTables::new(0x10_0000);
    assert_eq!(tables.allocate_page_table(), 0x10_0000);
    assert_eq!(tables.allocate_page_table(), 0x10_1000);
    let mut last = RecursivePageTables::new(0xffff_ffff_ffff_f000);
    assert_eq!(last.allocate_page_table(), 0xffff_ffff_ffff_f000);
    assert_eq!(last.allocate_page_table(), 0);
}
