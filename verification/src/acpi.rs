//! The ACPI tables the kernel needs: the interrupt controllers' (MADT) and
//! the timer's (HPET), picked out of the tables the firmware lists.
use vstd::prelude::*;
use crate::hpet::{hpet_info_of, HpetInfo, HpetTableBody, HPET_TABLE_BODY_SIZE};

verus! {

/// An ACPI table: its four-byte signature and its body.
pub struct AcpiTable {
    pub identifier: [u8; 4],
    pub body: Vec<u8>,
}

/// What the kernel takes from the ACPI tables: the body of the MADT, whose
/// entries describe the interrupt controllers, and the HPET.
pub struct AcpiInfo {
    pub madt: Vec<u8>,
    pub hpet: HpetInfo,
}

/// Why the ACPI tables do not give what the kernel needs.
#[derive(Clone, Copy, Debug, PartialEq, Eq, Structural)]
pub enum AcpiError {
    /// An HPET table's body is too short to hold the HPET's description.
    InvalidHpetTable,
    /// No table has the signature `APIC`.
    MadtNotFound,
    /// No table has the signature `HPET`.
    HpetNotFound,
}

/// The signature of the MADT: `APIC`.
pub open spec fn madt_signature() -> Seq<u8> {
    seq![0x41u8, 0x50u8, 0x49u8, 0x43u8]
}

/// The signature of the HPET table: `HPET`.
pub open spec fn hpet_signature() -> Seq<u8> {
    seq![0x48u8, 0x50u8, 0x45u8, 0x54u8]
}

/// The index of the last table of `tables` with the signature `signature`,
/// or -1 where there is none.
pub open spec fn last_with(tables: Seq<AcpiTable>, signature: Seq<u8>) -> int
    decreases tables.len(),
{
    if tables.len() == 0 {
        -1
    } else if tables.last().identifier@ == signature {
        tables.len() - 1
    } else {
        last_with(tables.drop_last(), signature)
    }
}

/// Some HPET table of `tables` is too short.
pub open spec fn has_invalid_hpet_table(tables: Seq<AcpiTable>) -> bool {
    exists|i: int|
        0 <= i < tables.len() && #[trigger] tables[i].identifier@ == hpet_signature() && tables[i].body@.len()
            < HPET_TABLE_BODY_SIZE
}

/// Of the tables with a signature, the last one listed is picked: it is in
/// range and has the signature, and no table after it has it; where none
/// is picked, no table has it.
pub proof fn law_last_with_picks_last_listed(tables: Seq<AcpiTable>, signature: Seq<u8>)
    ensures
        -1 <= last_with(tables, signature) < tables.len(),
        last_with(tables, signature) >= 0 ==> tables[last_with(tables, signature)].identifier@ == signature,
        forall|i: int|
            last_with(tables, signature) < i < tables.len() ==> #[trigger] tables[i].identifier@ != signature,
    decreases tables.len(),
{
    if tables.len() > 0 {
        law_last_with_picks_last_listed(tables.drop_last(), signature);
        if tables.last().identifier@ != signature {
            assert forall|i: int| 0 <= i < tables.len() - 1 implies #[trigger] tables[i].identifier@ == tables.drop_last()[i].identifier@ by {}
        }
    }
}

/// The four bytes of `identifier` are `a`, `b`, `c` and `d`.
fn identifier_is(identifier: &[u8; 4], a: u8, b: u8, c: u8, d: u8) -> (r: bool)
    ensures
        r == (identifier@ == seq![a, b, c, d]),
{
    let r = identifier[0] == a && identifier[1] == b && identifier[2] == c && identifier[3] == d;
    proof {
        if r {
            assert(identifier@ =~= seq![a, b, c, d]);
        }
    }
    r
}

/// Picks the MADT and the HPET out of the tables: of each, the last one
/// listed. An HPET table too short to read makes it fail whichever it is;
/// then a missing MADT, then a missing HPET.
pub fn handle_acpi_info(acpi_tables: Vec<AcpiTable>) -> (r: Result<AcpiInfo, AcpiError>)
    ensures
        has_invalid_hpet_table(acpi_tables@) ==> r == Err::<AcpiInfo, AcpiError>(AcpiError::InvalidHpetTable),
        !has_invalid_hpet_table(acpi_tables@) && last_with(acpi_tables@, madt_signature()) == -1 ==> r == Err::<
            AcpiInfo,
            AcpiError,
        >(AcpiError::MadtNotFound),
        !has_invalid_hpet_table(acpi_tables@) && last_with(acpi_tables@, madt_signature()) != -1 && last_with(
            acpi_tables@,
            hpet_signature(),
        ) == -1 ==> r == Err::<AcpiInfo, AcpiError>(AcpiError::HpetNotFound),
        !has_invalid_hpet_table(acpi_tables@) && last_with(acpi_tables@, madt_signature()) != -1 && last_with(
            acpi_tables@,
            hpet_signature(),
        ) != -1 ==> r is Ok,
        r matches Ok(info) ==> {
            &&& !has_invalid_hpet_table(acpi_tables@)
            &&& last_with(acpi_tables@, madt_signature()) != -1
            &&& last_with(acpi_tables@, hpet_signature()) != -1
            &&& info.madt@ == acpi_tables@[last_with(acpi_tables@, madt_signature())].body@
            &&& info.hpet == hpet_info_of(acpi_tables@[last_with(acpi_tables@, hpet_signature())].body@)
        },
{
    let mut madt: Option<usize> = None;
    let mut hpet: Option<usize> = None;
    let mut i: usize = 0;
    while i < acpi_tables.len()
        invariant
            i <= acpi_tables.len(),
            forall|j: int|
                0 <= j < i ==> !(#[trigger] acpi_tables@[j].identifier@ == hpet_signature()
                    && acpi_tables@[j].body@.len() < HPET_TABLE_BODY_SIZE),
            match madt {
                Some(m) => m == last_with(acpi_tables@.subrange(0, i as int), madt_signature()),
                None => last_with(acpi_tables@.subrange(0, i as int), madt_signature()) == -1,
            },
            match hpet {
                Some(h) => h == last_with(acpi_tables@.subrange(0, i as int), hpet_signature()),
                None => last_with(acpi_tables@.subrange(0, i as int), hpet_signature()) == -1,
            },
        decreases acpi_tables.len() - i,
    {
        let table = &acpi_tables[i];
        proof {
            assert(acpi_tables@.subrange(0, i + 1).drop_last() =~= acpi_tables@.subrange(0, i as int));
        }
        if identifier_is(&table.identifier, 0x41, 0x50, 0x49, 0x43) {
            madt = Some(i);
        } else if identifier_is(&table.identifier, 0x48, 0x50, 0x45, 0x54) {
            if table.body.len() < HPET_TABLE_BODY_SIZE {
                proof {
                    assert(acpi_tables@[i as int].identifier@ == hpet_signature());
                }
                return Err(AcpiError::InvalidHpetTable);
            }
            hpet = Some(i);
        }
        proof {
            assert(madt_signature() != hpet_signature()) by {
                assert(madt_signature()[0] != hpet_signature()[0]);
            }
        }
        i = i + 1;
    }
    proof {
        assert(acpi_tables@.subrange(0, i as int) =~= acpi_tables@);
        law_last_with_picks_last_listed(acpi_tables@, madt_signature());
        law_last_with_picks_last_listed(acpi_tables@, hpet_signature());
    }
    let madt_index = match madt {
        Some(m) => m,
        None => {
            return Err(AcpiError::MadtNotFound);
        },
    };
    let hpet_index = match hpet {
        Some(h) => h,
        None => {
            return Err(AcpiError::HpetNotFound);
        },
    };
    let body = match HpetTableBody::from_bytes(acpi_tables[hpet_index].body.as_slice()) {
        Some(body) => body,
        None => {
            return Err(AcpiError::InvalidHpetTable);
        },
    };
    let hpet_info = HpetInfo::new(&body);
    let ghost hpet_bytes = acpi_tables@[hpet_index as int].body@;
    proof {
        assert(hpet_info == hpet_info_of(hpet_bytes));
    }
    let mut acpi_tables = acpi_tables;
    let madt_table = acpi_tables.swap_remove(madt_index);
    Ok(AcpiInfo { madt: madt_table.body, hpet: hpet_info })
}

} // verus!
