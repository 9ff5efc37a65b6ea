use osmium::console;
use osmium::global_allocator::{allocation_size, is_small_allocation, power_of_two_at_least};
use osmium::interrupts::{handle_interrupt, IdtEntry, InterruptAction};
use osmium::task_state_segment::task_state_segment_descriptor;
use osmium::user_memory::UserAddressSpaceHandle;
use osmium::vga::{VgaCell, VgaConsole};

#[test]
fn interrupt_gates() {
    let trap = IdtEntry::new(0x1234_5678_9abc_def0, true);
    assert_eq!(trap.offset_low, 0xdef0);
    assert_eq!(trap.offset_middle, 0x9abc);
    assert_eq!(trap.offset_high, 0x1234_5678);
    assert_eq!(trap.selector, 0x08);
    assert_eq!(trap.flags, 0xef);
    assert_eq!(IdtEntry::new(0, false).flags, 0xee);
}

#[test]
fn interrupt_actions() {
    assert_eq!(handle_interrupt(0xff), InterruptAction::Ignore);
    assert_eq!(handle_interrupt(0x20), InterruptAction::TimerTick);
    assert_eq!(handle_interrupt(0x21), InterruptAction::Report);
}

#[test]
fn task_state_segment_descriptor_fields() {
    let descriptor = task_state_segment_descriptor(0xffff_ffff_8012_3456, 103);
    assert_eq!(descriptor.limit_low, 103);
    assert_eq!(descriptor.limit_high_and_additional_flags, 0);
    assert_eq!(descriptor.offset_low, 0x3456);
    assert_eq!(descriptor.offset_low_middle, 0x12);
    assert_eq!(descriptor.offset_high_middle, 0x80);
    assert_eq!(descriptor.offset_high, 0xffff_ffff);
    assert_eq!(descriptor.flags, 0b1000_1001);
}

#[test]
fn allocation_sizes() {
    assert_eq!(allocation_size(0), 32);
    assert_eq!(allocation_size(32), 32);
    assert_eq!(allocation_size(33), 64);
    assert_eq!(allocation_size(4096), 4096);
    assert_eq!(allocation_size(4097), 8192);
    assert!(is_small_allocation(32768));
    assert!(!is_small_allocation(65536));
}

#[test]
fn user_memory_handles() {
    let address_space = UserAddressSpaceHandle::new();
    let memory = address_space.memory(0x1000, 0x20);
    assert_eq!(memory.address(), 0x1000);
    assert_eq!(memory.length(), 0x20);
}

#[test]
fn vga_console_writes() {
    let mut screen = VgaConsole::new();
    assert!(screen.cells().iter().all(|cell| *cell == VgaCell { character: b' ', attribute: 0x07 }));
    console::write_string(&mut screen, "hi\nx");
    assert_eq!(screen.cells()[0].character, b'h');
    assert_eq!(screen.cells()[1].character, b'i');
    assert_eq!(screen.cells()[80].character, b'x');
    assert_eq!(screen.cells()[80].attribute, 0x07);
    console::write_character(&mut screen, 'y');
    assert_eq!(screen.cells()[81].character, b'y');
    console::clear(&mut screen);
    assert_eq!(screen.cells()[0].character, b' ');
    // A full row moves on to the next.
    let row: String = std::iter::repeat('a').take(80).collect();
    console::write_string(&mut screen, &row);
    console::write_character(&mut screen, 'b');
    assert_eq!(screen.cells()[80].character, b'b');
}

#[test]
fn powers_of_two_at_least() {
    assert_eq!(power_of_two_at_least(0), 1);
    assert_eq!(power_of_two_at_least(1), 1);
    assert_eq!(power_of_two_at_least(5), 8);
    assert_eq!(power_of_two_at_least(4096), 4096);
    assert_eq!(power_of_two_at_least(4097), 8192);
}
