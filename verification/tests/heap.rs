use osmium::heap::{initialize_entry_list, SlabEntry, SlabHeadEntry, SlabUnusedEntry};

#[test]
fn fresh_slab_entries_are_linked() {
    let entries = initialize_entry_list::<4096>();
    assert_eq!(entries.len(), 16);
    assert_eq!(
        entries[0],
        SlabEntry::Head(SlabHeadEntry { next_of_this_size: 0, previous_of_this_size: 0, first_unused_entry: 1 })
    );
    assert_eq!(entries[1], SlabEntry::Unused(SlabUnusedEntry { next_index: 2, previous_index: 0 }));
    assert_eq!(entries[15], SlabEntry::Unused(SlabUnusedEntry { next_index: 16, previous_index: 14 }));
    assert_eq!(initialize_entry_list::<32>().len(), 2048);
    assert_eq!(initialize_entry_list::<65536>().len(), 1);
}
