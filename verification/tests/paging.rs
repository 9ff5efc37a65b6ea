use osmium::paging::entry::{
    construct_page_table_entry, deconstruct_page_table_entry, deconstruct_virtual_address,
    get_page_table_entry_address, PageTableEntry, RECURSIVE_PAGE_TABLE_POINTER,
};
use osmium::paging::{x86_64, aarch64, MemoryType, PagePermissions};

#[test]
fn get_page_table_entry_address_test() {
    let address = get_page_table_entry_address(0, 0, 0, 0);
    assert_eq!(address, RECURSIVE_PAGE_TABLE_POINTER);
    let address = get_page_table_entry_address(0, 0, 0, 1);
    assert_eq!(address, RECURSIVE_PAGE_TABLE_POINTER + 8);
    let address = get_page_table_entry_address(0, 0, 1, 0);
    assert_eq!(address, RECURSIVE_PAGE_TABLE_POINTER + 512 * 8);
    let address = get_page_table_entry_address(0, 1, 0, 0);
    assert_eq!(address, RECURSIVE_PAGE_TABLE_POINTER + 512 * 512 * 8);
    let address = get_page_table_entry_address(1, 0, 0, 0);
    assert_eq!(address, RECURSIVE_PAGE_TABLE_POINTER + 512 * 512 * 512 * 8);
}

#[test]
fn page_table_bits_test() {
    let entry = PageTableEntry {
        present: true,
        writeable: true,
        user_accessible: false,
        write_through: false,
        cache_disabled: true,
        accessed: false,
        dirty: true,
        huge_page: true,
        global: false,
        physical_address: 0x0000_dead_8086_7000,
        no_execute: true,
    };
    let entry_bits = construct_page_table_entry(entry);
    assert_eq!(entry_bits, 0x8000_0000_0000_0000 | 0x0000_dead_8086_7000 | 0x0d3);
    let entry2 = deconstruct_page_table_entry(entry_bits);
    assert_eq!(entry, entry2);

    let entry = PageTableEntry {
        present: false,
        writeable: false,
        user_accessible: true,
        write_through: true,
        cache_disabled: false,
        accessed: true,
        dirty: false,
        huge_page: false,
        global: true,
        physical_address: 0xffff_ffff_ffff_ffff,
        no_execute: false,
    };
    let entry_bits = construct_page_table_entry(entry);
    assert_eq!(entry_bits, 0x000f_ffff_ffff_f000 | 0x12c);
    let entry2 = deconstruct_page_table_entry(entry_bits);
    assert!(entry != entry2);
}

#[test]
fn virtual_address_indices() {
    let indices = deconstruct_virtual_address(0xffff_8000_4020_3000);
    assert_eq!(indices.pml4_index, 256);
    assert_eq!(indices.pml3_index, 1);
    assert_eq!(indices.pml2_index, 1);
    assert_eq!(indices.pml1_index, 3);
}

#[test]
fn x86_flags_from_type_permissions() {
    let flags = x86_64::PageTableFlags::from_type_permissions(
        MemoryType::Device,
        PagePermissions { user: true, writable: true, executable: false },
    );
    assert_eq!(flags.bits(), 0x8000_0000_0000_0037);
    assert!(flags.is_present());
    let flags = x86_64::PageTableFlags::from_type_permissions(
        MemoryType::Normal,
        PagePermissions { user: false, writable: false, executable: true },
    );
    assert_eq!(flags.bits(), 0x21);
    assert!(!x86_64::PageTableFlags::from_bits_truncate(0x7000).is_present());
    assert!(x86_64::is_valid_user_address(0x7fff_ffff_ffff_ffff));
    assert!(!x86_64::is_valid_user_address(0x8000_0000_0000_0000));
}

#[test]
fn aarch64_flags_from_type_permissions() {
    let flags = aarch64::PageTableFlags::from_type_permissions(
        MemoryType::Normal,
        PagePermissions { user: true, writable: false, executable: true },
    );
    assert_eq!(flags.bits(), 0x20_0000_0000_07c7);
    let flags = aarch64::PageTableFlags::from_type_permissions(
        MemoryType::Device,
        PagePermissions { user: false, writable: true, executable: false },
    );
    assert_eq!(flags.bits(), 0x60_0000_0000_0403);
    assert!(aarch64::is_valid_user_address(0x0000_ff7f_ffff_ffff));
    assert!(!aarch64::is_valid_user_address(0x0000_ff80_0000_0000));
}

#[test]
fn x86_indices_and_ancestors() {
    let indices = x86_64::PageTableIndices::new(0xffff_8000_4020_3000);
    assert!(indices.upper_half);
    assert_eq!(indices.indices, [256, 1, 1, 3]);
    let ancestors = indices.ancestor_indices();
    assert_eq!(ancestors.len(), 3);
    assert_eq!(ancestors[0].indices, [256, 256, 256, 1]);
    assert_eq!(ancestors[2].indices, [256, 1, 1, 3]);
    assert_eq!(
        indices.calculate_page_table_entry_address(),
        0xffff_8000_0000_0000 + 8 * (256 * 0x800_0000 + 0x4_0000 + 0x200 + 3)
    );
}

#[test]
fn aarch64_indices_round_trip() {
    let indices = aarch64::PageTableIndices::new(0x0000_0040_2030_4000);
    assert!(!indices.upper_half);
    assert_eq!(indices.address(), 0x0000_0040_2030_4000);
    let parent = indices.parent_indices();
    assert_eq!(parent.level_0_index, 511);
    assert_eq!(parent.level_1_index, indices.level_0_index);
    assert!(!indices.is_root_page_table());
}
