use osmium::multiboot::{
    parse_frame_buffer, parse_multiboot_structures, scan_tags, MbiFrameBufferTag, MbiTag, MultibootError,
};
use osmium::memory::FromBytes;

fn push_u32(bytes: &mut Vec<u8>, value: u32) {
    bytes.extend_from_slice(&value.to_le_bytes());
}

fn push_u64(bytes: &mut Vec<u8>, value: u64) {
    bytes.extend_from_slice(&value.to_le_bytes());
}

fn pad(bytes: &mut Vec<u8>) {
    while bytes.len() % 8 != 0 {
        bytes.push(0);
    }
}

fn module_tag(bytes: &mut Vec<u8>, start: u32, end: u32) {
    push_u32(bytes, 3);
    push_u32(bytes, 16);
    push_u32(bytes, start);
    push_u32(bytes, end);
}

fn memory_map_tag(bytes: &mut Vec<u8>, entries: &[(u64, u64, u32)]) {
    push_u32(bytes, 6);
    push_u32(bytes, 16 + 24 * entries.len() as u32);
    push_u32(bytes, 24);
    push_u32(bytes, 0);
    for &(base, length, entry_type) in entries {
        push_u64(bytes, base);
        push_u64(bytes, length);
        push_u32(bytes, entry_type);
        push_u32(bytes, 0);
    }
}

fn frame_buffer_tag(bytes: &mut Vec<u8>, framebuffer_type: u8) {
    push_u32(bytes, 8);
    push_u32(bytes, 38);
    push_u64(bytes, 0xfd00_0000);
    push_u32(bytes, 4096);
    push_u32(bytes, 1024);
    push_u32(bytes, 768);
    bytes.push(32);
    bytes.push(framebuffer_type);
    bytes.push(0);
    bytes.push(0);
    bytes.extend_from_slice(&[16, 8, 8, 8, 0, 8]);
    pad(bytes);
}

fn acpi_old_tag(bytes: &mut Vec<u8>, rsdt: u32) {
    push_u32(bytes, 14);
    push_u32(bytes, 28);
    bytes.extend_from_slice(b"RSD PTR ");
    bytes.push(0);
    bytes.extend_from_slice(b"OSMIUM");
    bytes.push(0);
    push_u32(bytes, rsdt);
    pad(bytes);
}

fn acpi_new_tag(bytes: &mut Vec<u8>, xsdt: u64) {
    push_u32(bytes, 15);
    push_u32(bytes, 44);
    bytes.extend_from_slice(b"RSD PTR ");
    bytes.push(0);
    bytes.extend_from_slice(b"OSMIUM");
    bytes.push(2);
    push_u32(bytes, 0x1234);
    push_u32(bytes, 36);
    push_u64(bytes, xsdt);
    bytes.push(0);
    bytes.extend_from_slice(&[0, 0, 0]);
    pad(bytes);
}

fn end_tag(bytes: &mut Vec<u8>) {
    push_u32(bytes, 0);
    push_u32(bytes, 8);
}

#[test]
fn boot_information_is_taken_apart() {
    let mut tags = Vec::new();
    module_tag(&mut tags, 0x30_0000, 0x31_0000);
    memory_map_tag(&mut tags, &[(0, 0x9fc00, 1), (0x10_0000, 0x70_0000, 1), (0x80_0000, 0x10_0000, 2)]);
    frame_buffer_tag(&mut tags, 1);
    acpi_new_tag(&mut tags, 0x7fe_1000);
    end_tag(&mut tags);
    let info = parse_multiboot_structures(&tags, 0x20_0000).unwrap();
    let expected: Vec<u64> = (0x20u64..0x80).filter(|&block| block != 0x30).map(|block| block * 0x1_0000).collect();
    assert_eq!(info.free_blocks, expected);
    assert_eq!(info.module, Some((0x30_0000, 0x1_0000)));
    assert_eq!(info.root_table_address, Some(0x7fe_1000));
    let frame_buffer = info.frame_buffer.unwrap();
    assert_eq!(frame_buffer.physical_address, 0xfd00_0000);
    assert_eq!(frame_buffer.size, 4096 * 768);
    assert_eq!(frame_buffer.frame_buffer.width, 1024);
    assert_eq!(frame_buffer.frame_buffer.height, 768);
    assert_eq!(frame_buffer.frame_buffer.pitch, 4096);
    assert_eq!(frame_buffer.frame_buffer.bytes_per_pixel, 4);
    assert_eq!(frame_buffer.frame_buffer.red_byte, 2);
    assert_eq!(frame_buffer.frame_buffer.green_byte, 1);
    assert_eq!(frame_buffer.frame_buffer.blue_byte, 0);
}

#[test]
fn old_acpi_tag_after_new_is_passed_over() {
    let mut tags = Vec::new();
    acpi_new_tag(&mut tags, 0x5000);
    acpi_old_tag(&mut tags, 0x6000);
    end_tag(&mut tags);
    let info = parse_multiboot_structures(&tags, 0).unwrap();
    assert_eq!(info.root_table_address, Some(0x5000));
    assert!(info.free_blocks.is_empty());
    assert_eq!(info.module, None);
    assert!(info.frame_buffer.is_none());
}

#[test]
fn root_table_given_twice_is_refused() {
    let mut tags = Vec::new();
    acpi_old_tag(&mut tags, 0x6000);
    acpi_new_tag(&mut tags, 0x5000);
    end_tag(&mut tags);
    assert_eq!(parse_multiboot_structures(&tags, 0).unwrap_err(), MultibootError::RootTableSetTwice);
}

#[test]
fn invalid_module_is_refused() {
    let mut tags = Vec::new();
    module_tag(&mut tags, 0x31_0000, 0x30_0000);
    end_tag(&mut tags);
    assert_eq!(parse_multiboot_structures(&tags, 0).unwrap_err(), MultibootError::InvalidTag(3));
}

#[test]
fn invalid_memory_map_entry_is_refused() {
    let mut tags = Vec::new();
    memory_map_tag(&mut tags, &[(0x10_0000, 0, 1)]);
    end_tag(&mut tags);
    assert_eq!(parse_multiboot_structures(&tags, 0).unwrap_err(), MultibootError::InvalidMemoryMapEntry);
}

#[test]
fn tags_after_the_end_tag_are_ignored() {
    let mut tags = Vec::new();
    end_tag(&mut tags);
    module_tag(&mut tags, 0x31_0000, 0x30_0000);
    let scan = scan_tags(&tags).unwrap();
    assert!(scan.module.is_none());
    assert!(scan.memory_map.is_none());
}

#[test]
fn only_rgb_frame_buffers_are_used() {
    let mut tag = Vec::new();
    frame_buffer_tag(&mut tag, 2);
    let frame_buffer = MbiFrameBufferTag::from_bytes(&tag).unwrap();
    assert!(parse_frame_buffer(&frame_buffer).is_none());
    let header = MbiTag::from_bytes(&tag).unwrap();
    assert_eq!(header.tag_type, 8);
    assert_eq!(header.size, 38);
}
