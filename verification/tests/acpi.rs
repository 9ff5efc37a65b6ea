use osmium::acpi::{handle_acpi_info, AcpiError, AcpiTable};

fn table(identifier: &[u8; 4], body: Vec<u8>) -> AcpiTable {
    AcpiTable { identifier: *identifier, body }
}

fn hpet_body(counter_info: u8, address: u64) -> Vec<u8> {
    let mut body = vec![1, counter_info, 0x86, 0x80, 0, 64, 0, 0];
    body.extend_from_slice(&address.to_le_bytes());
    body.extend_from_slice(&[0, 0x80, 0, 0]);
    body
}

#[test]
fn finds_the_madt_and_the_hpet() {
    let tables = vec![
        table(b"FACP", vec![9; 30]),
        table(b"APIC", vec![1, 2, 3]),
        table(b"HPET", hpet_body(0b1010_0010, 0xfed0_0000)),
        table(b"APIC", vec![4, 5]),
    ];
    let info = handle_acpi_info(tables).ok().unwrap();
    assert_eq!(info.madt, vec![4, 5]);
    assert_eq!(info.hpet.address, 0xfed0_0000);
    assert_eq!(info.hpet.comparator_count, 3);
    assert!(info.hpet.is_64_bit);
    assert!(info.hpet.legacy_replacement);
}

#[test]
fn missing_tables_are_errors() {
    let no_madt = vec![table(b"HPET", hpet_body(0, 0xfed0_0000))];
    assert_eq!(handle_acpi_info(no_madt).err(), Some(AcpiError::MadtNotFound));
    let no_hpet = vec![table(b"APIC", vec![1])];
    assert_eq!(handle_acpi_info(no_hpet).err(), Some(AcpiError::HpetNotFound));
    assert_eq!(handle_acpi_info(Vec::new()).err(), Some(AcpiError::MadtNotFound));
}

#[test]
fn a_short_hpet_table_is_an_error() {
    let tables = vec![table(b"HPET", vec![0; 19]), table(b"APIC", vec![1]), table(b"HPET", hpet_body(0, 1))];
    assert_eq!(handle_acpi_info(tables).err(), Some(AcpiError::InvalidHpetTable));
}
