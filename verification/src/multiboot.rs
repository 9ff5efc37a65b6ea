//! The Multiboot 2 boot information: its tags, and what the kernel takes
//! from them (the memory map, the initial ramdisk module, the frame buffer
//! and the ACPI root table).
use vstd::prelude::*;
use crate::bytes::{le_value, read_u32, read_u64};
use crate::memory::{
    DynamicallySized, FromBytes, Validateable, align_up_spec, align_down_spec, is_power_of_two,
    lemma_mask_is_mod, reinterpreted, reinterpret_memory, item_at, next_offset, DynamicallySizedObjectIterator,
};
use crate::pmm::BLOCK_SIZE;
use crate::framebuffer::FrameBuffer;

verus! {

pub const MBI_TAG_MODULE: u32 = 3;
pub const MBI_TAG_MEMORY_MAP: u32 = 6;
pub const MBI_TAG_FRAME_BUFFER: u32 = 8;
pub const MBI_TAG_ACPI_OLD: u32 = 14;
pub const MBI_TAG_ACPI_NEW: u32 = 15;

/// The signature that starts an ACPI RSDP.
pub open spec fn rsdp_signature() -> Seq<u8> {
    seq![0x52u8, 0x53, 0x44, 0x20, 0x50, 0x54, 0x52, 0x20]
}

/// The header of the boot information.
#[derive(Clone, Copy, Debug, PartialEq, Eq, Structural)]
pub struct MbiHeader {
    pub total_size: u32,
}

pub const MBI_HEADER_SIZE: usize = 8;

impl FromBytes for MbiHeader {
    open spec fn parsed(bytes: Seq<u8>) -> Option<Self> {
        if bytes.len() >= MBI_HEADER_SIZE {
            Some(MbiHeader { total_size: le_value(bytes, 0, 4) as u32 })
        } else {
            None
        }
    }

    fn from_bytes(bytes: &[u8]) -> (r: Option<Self>) {
        if bytes.len() < MBI_HEADER_SIZE {
            return None;
        }
        Some(MbiHeader { total_size: read_u32(bytes, 0) })
    }
}

impl Validateable for MbiHeader {
    /// At least 8 bytes, and a multiple of 8.
    open spec fn valid(&self) -> bool {
        self.total_size >= 8 && self.total_size % 8 == 0
    }

    fn validate(&self) -> (r: bool) {
        // We must be at least 8 bytes and aligned to an 8-byte boundary.
        self.total_size >= 8 && self.total_size % 8 == 0
    }
}

/// The common start of every tag: its type and its size in bytes.
#[derive(Clone, Copy, Debug, PartialEq, Eq, Structural)]
pub struct MbiTag {
    pub tag_type: u32,
    pub size: u32,
}

pub const MBI_TAG_SIZE: usize = 8;

/// The tag at the start of `bytes`.
pub open spec fn tag_at(bytes: Seq<u8>) -> MbiTag {
    MbiTag { tag_type: le_value(bytes, 0, 4) as u32, size: le_value(bytes, 4, 4) as u32 }
}

fn read_tag(bytes: &[u8]) -> (r: MbiTag)
    requires
        bytes@.len() >= MBI_TAG_SIZE,
    ensures
        r == tag_at(bytes@),
{
    MbiTag { tag_type: read_u32(bytes, 0), size: read_u32(bytes, 4) }
}

impl FromBytes for MbiTag {
    open spec fn parsed(bytes: Seq<u8>) -> Option<Self> {
        if bytes.len() >= MBI_TAG_SIZE {
            Some(tag_at(bytes))
        } else {
            None
        }
    }

    fn from_bytes(bytes: &[u8]) -> (r: Option<Self>) {
        if bytes.len() < MBI_TAG_SIZE {
            return None;
        }
        Some(read_tag(bytes))
    }
}

impl Validateable for MbiTag {
    /// A tag is at least as large as its common start.
    open spec fn valid(&self) -> bool {
        self.size >= 8
    }

    fn validate(&self) -> (r: bool) {
        self.size >= 8
    }
}

impl DynamicallySized for MbiTag {
    open spec fn dynamic_size(&self) -> nat {
        self.size as nat
    }

    fn size(&self) -> (r: usize) {
        self.size as usize
    }

    const ALIGNMENT: usize = 8;
}

/// A boot module (the initial ramdisk): where it starts and ends.
#[derive(Clone, Copy, Debug, PartialEq, Eq, Structural)]
pub struct MbiModuleTag {
    pub base_tag: MbiTag,
    pub module_start: u32,
    pub module_end: u32,
}

pub const MBI_MODULE_TAG_SIZE: usize = 16;

impl FromBytes for MbiModuleTag {
    open spec fn parsed(bytes: Seq<u8>) -> Option<Self> {
        if bytes.len() >= MBI_MODULE_TAG_SIZE {
            Some(
                MbiModuleTag {
                    base_tag: tag_at(bytes),
                    module_start: le_value(bytes, 8, 4) as u32,
                    module_end: le_value(bytes, 12, 4) as u32,
                },
            )
        } else {
            None
        }
    }

    fn from_bytes(bytes: &[u8]) -> (r: Option<Self>) {
        if bytes.len() < MBI_MODULE_TAG_SIZE {
            return None;
        }
        Some(MbiModuleTag { base_tag: read_tag(bytes), module_start: read_u32(bytes, 8), module_end: read_u32(bytes, 12) })
    }
}

impl Validateable for MbiModuleTag {
    /// The right type, and the module ends after it starts.
    open spec fn valid(&self) -> bool {
        self.base_tag.tag_type == MBI_TAG_MODULE && self.module_end > self.module_start
    }

    fn validate(&self) -> (r: bool) {
        self.base_tag.tag_type == MBI_TAG_MODULE && self.module_end > self.module_start
    }
}

/// The memory map: the size and version of its entries, which follow.
#[derive(Clone, Copy, Debug, PartialEq, Eq, Structural)]
pub struct MbiMemoryMapTag {
    pub base_tag: MbiTag,
    pub entry_size: u32,
    pub entry_version: u32,
}

pub const MBI_MEMORY_MAP_TAG_SIZE: usize = 16;

impl FromBytes for MbiMemoryMapTag {
    open spec fn parsed(bytes: Seq<u8>) -> Option<Self> {
        if bytes.len() >= MBI_MEMORY_MAP_TAG_SIZE {
            Some(
                MbiMemoryMapTag {
                    base_tag: tag_at(bytes),
                    entry_size: le_value(bytes, 8, 4) as u32,
                    entry_version: le_value(bytes, 12, 4) as u32,
                },
            )
        } else {
            None
        }
    }

    fn from_bytes(bytes: &[u8]) -> (r: Option<Self>) {
        if bytes.len() < MBI_MEMORY_MAP_TAG_SIZE {
            return None;
        }
        Some(MbiMemoryMapTag { base_tag: read_tag(bytes), entry_size: read_u32(bytes, 8), entry_version: read_u32(bytes, 12) })
    }
}

impl Validateable for MbiMemoryMapTag {
    /// The right type, and entries of at least 24 bytes, a multiple of 8.
    open spec fn valid(&self) -> bool {
        self.base_tag.tag_type == MBI_TAG_MEMORY_MAP && self.entry_size >= 24 && self.entry_size % 8 == 0
    }

    fn validate(&self) -> (r: bool) {
        self.base_tag.tag_type == MBI_TAG_MEMORY_MAP && self.entry_size >= 24 && self.entry_size % 8 == 0
    }
}

/// The frame buffer: where it is, its geometry and its pixel format.
#[derive(Clone, Copy, Debug, PartialEq, Eq, Structural)]
pub struct MbiFrameBufferTag {
    pub base_tag: MbiTag,
    pub address: u64,
    pub pitch: u32,
    pub width: u32,
    pub height: u32,
    pub bits_per_pixel: u8,
    pub framebuffer_type: u8,
    pub red_position: u8,
    pub red_mask_size: u8,
    pub green_position: u8,
    pub green_mask_size: u8,
    pub blue_position: u8,
    pub blue_mask_size: u8,
}

pub const MBI_FRAME_BUFFER_TAG_SIZE: usize = 38;

impl FromBytes for MbiFrameBufferTag {
    open spec fn parsed(bytes: Seq<u8>) -> Option<Self> {
        if bytes.len() >= MBI_FRAME_BUFFER_TAG_SIZE {
            Some(
                MbiFrameBufferTag {
                    base_tag: tag_at(bytes),
                    address: le_value(bytes, 8, 8) as u64,
                    pitch: le_value(bytes, 16, 4) as u32,
                    width: le_value(bytes, 20, 4) as u32,
                    height: le_value(bytes, 24, 4) as u32,
                    bits_per_pixel: bytes[28],
                    framebuffer_type: bytes[29],
                    red_position: bytes[32],
                    red_mask_size: bytes[33],
                    green_position: bytes[34],
                    green_mask_size: bytes[35],
                    blue_position: bytes[36],
                    blue_mask_size: bytes[37],
                },
            )
        } else {
            None
        }
    }

    fn from_bytes(bytes: &[u8]) -> (r: Option<Self>) {
        if bytes.len() < MBI_FRAME_BUFFER_TAG_SIZE {
            return None;
        }
        Some(
            MbiFrameBufferTag {
                base_tag: read_tag(bytes),
                address: read_u64(bytes, 8),
                pitch: read_u32(bytes, 16),
                width: read_u32(bytes, 20),
                height: read_u32(bytes, 24),
                bits_per_pixel: bytes[28],
                framebuffer_type: bytes[29],
                red_position: bytes[32],
                red_mask_size: bytes[33],
                green_position: bytes[34],
                green_mask_size: bytes[35],
                blue_position: bytes[36],
                blue_mask_size: bytes[37],
            },
        )
    }
}

impl Validateable for MbiFrameBufferTag {
    /// The right type; an RGB frame buffer (type 1) has exactly the size of
    /// this structure; whole bytes per pixel; and rows at least as long as
    /// their pixels.
    open spec fn valid(&self) -> bool {
        &&& self.base_tag.tag_type == MBI_TAG_FRAME_BUFFER
        &&& (self.framebuffer_type != 1 || self.base_tag.size == MBI_FRAME_BUFFER_TAG_SIZE)
        &&& self.bits_per_pixel % 8 == 0
        &&& self.pitch >= self.width * self.bits_per_pixel / 8
    }

    fn validate(&self) -> (r: bool) {
        let width = self.width as u64;
        let bits_per_pixel = self.bits_per_pixel as u64;
        assert(width * bits_per_pixel <= 0xffff_ffffu64 * 255) by (nonlinear_arith)
            requires
                width <= 0xffff_ffff,
                bits_per_pixel <= 255,
        ;
        self.base_tag.tag_type == MBI_TAG_FRAME_BUFFER && (self.framebuffer_type != 1
            || self.base_tag.size == MBI_FRAME_BUFFER_TAG_SIZE as u32) && self.bits_per_pixel % 8 == 0
            && self.pitch as u64 >= width * bits_per_pixel / 8
    }
}

/// The ACPI 1.0 RSDP.
#[derive(Clone, Copy, Debug)]
pub struct MbiAcpiOldTag {
    pub base_tag: MbiTag,
    pub rsdp_signature: [u8; 8],
    pub rsdp_checksum: u8,
    pub rsdp_oem_id: [u8; 6],
    pub rsdp_revision: u8,
    pub rsdt_address: u32,
}

pub const MBI_ACPI_OLD_TAG_SIZE: usize = 28;

/// The ACPI 2.0 RSDP.
#[derive(Clone, Copy, Debug)]
pub struct MbiAcpiNewTag {
    pub base_tag: MbiTag,
    pub rsdp_signature: [u8; 8],
    pub rsdp_checksum: u8,
    pub rsdp_oem_id: [u8; 6],
    pub rsdp_revision: u8,
    pub rsdt_address: u32,
    pub rsdp_length: u32,
    pub xsdt_address: u64,
    pub extended_checksum: u8,
}

pub const MBI_ACPI_NEW_TAG_SIZE: usize = 44;

/// The signature `"RSD PTR "`.
fn is_rsdp_signature(signature: &[u8; 8]) -> (r: bool)
    ensures
        r == (signature@ == rsdp_signature()),
{
    let r = signature[0] == 0x52 && signature[1] == 0x53 && signature[2] == 0x44 && signature[3] == 0x20
        && signature[4] == 0x50 && signature[5] == 0x54 && signature[6] == 0x52 && signature[7] == 0x20;
    assert(r == (signature@ == rsdp_signature())) by {
        if r {
            assert(signature@ =~= rsdp_signature());
        }
    }
    r
}

fn read_signature(bytes: &[u8], offset: usize) -> (r: [u8; 8])
    requires
        offset + 8 <= bytes@.len(),
    ensures
        r@ == bytes@.subrange(offset as int, offset + 8),
{
    let r = [
        bytes[offset],
        bytes[offset + 1],
        bytes[offset + 2],
        bytes[offset + 3],
        bytes[offset + 4],
        bytes[offset + 5],
        bytes[offset + 6],
        bytes[offset + 7],
    ];
    assert(r@ =~= bytes@.subrange(offset as int, offset + 8));
    r
}

fn read_oem_id(bytes: &[u8], offset: usize) -> (r: [u8; 6])
    requires
        offset + 6 <= bytes@.len(),
    ensures
        r@ == bytes@.subrange(offset as int, offset + 6),
{
    let r = [bytes[offset], bytes[offset + 1], bytes[offset + 2], bytes[offset + 3], bytes[offset + 4], bytes[offset + 5]];
    assert(r@ =~= bytes@.subrange(offset as int, offset + 6));
    r
}

/// The RSDP of the 1.0 tag at the start of `bytes`.
pub open spec fn acpi_old_at(bytes: Seq<u8>, tag: MbiAcpiOldTag) -> bool {
    &&& tag.base_tag == tag_at(bytes)
    &&& tag.rsdp_signature@ == bytes.subrange(8, 16)
    &&& tag.rsdp_checksum == bytes[16]
    &&& tag.rsdp_oem_id@ == bytes.subrange(17, 23)
    &&& tag.rsdp_revision == bytes[23]
    &&& tag.rsdt_address == le_value(bytes, 24, 4)
}

impl MbiAcpiOldTag {
    /// The tag at the start of `bytes`, if they are long enough.
    pub fn from_bytes(bytes: &[u8]) -> (r: Option<Self>)
        ensures
            bytes@.len() < MBI_ACPI_OLD_TAG_SIZE <==> r is None,
            r matches Some(tag) ==> acpi_old_at(bytes@, tag),
    {
        if bytes.len() < MBI_ACPI_OLD_TAG_SIZE {
            return None;
        }
        Some(
            MbiAcpiOldTag {
                base_tag: read_tag(bytes),
                rsdp_signature: read_signature(bytes, 8),
                rsdp_checksum: bytes[16],
                rsdp_oem_id: read_oem_id(bytes, 17),
                rsdp_revision: bytes[23],
                rsdt_address: read_u32(bytes, 24),
            },
        )
    }

    /// The right type, exactly the size of this structure, and the RSDP signature.
    pub fn validate(&self) -> (r: bool)
        ensures
            r == (self.base_tag.tag_type == MBI_TAG_ACPI_OLD && self.base_tag.size == MBI_ACPI_OLD_TAG_SIZE
                && self.rsdp_signature@ == rsdp_signature()),
    {
        self.base_tag.tag_type == MBI_TAG_ACPI_OLD && self.base_tag.size == MBI_ACPI_OLD_TAG_SIZE as u32
            && is_rsdp_signature(&self.rsdp_signature)
    }
}

/// The RSDP of the 2.0 tag at the start of `bytes`.
pub open spec fn acpi_new_at(bytes: Seq<u8>, tag: MbiAcpiNewTag) -> bool {
    &&& tag.base_tag == tag_at(bytes)
    &&& tag.rsdp_signature@ == bytes.subrange(8, 16)
    &&& tag.rsdp_checksum == bytes[16]
    &&& tag.rsdp_oem_id@ == bytes.subrange(17, 23)
    &&& tag.rsdp_revision == bytes[23]
    &&& tag.rsdt_address == le_value(bytes, 24, 4)
    &&& tag.rsdp_length == le_value(bytes, 28, 4)
    &&& tag.xsdt_address == le_value(bytes, 32, 8)
    &&& tag.extended_checksum == bytes[40]
}

impl MbiAcpiNewTag {
    /// The tag at the start of `bytes`, if they are long enough.
    pub fn from_bytes(bytes: &[u8]) -> (r: Option<Self>)
        ensures
            bytes@.len() < MBI_ACPI_NEW_TAG_SIZE <==> r is None,
            r matches Some(tag) ==> acpi_new_at(bytes@, tag),
    {
        if bytes.len() < MBI_ACPI_NEW_TAG_SIZE {
            return None;
        }
        Some(
            MbiAcpiNewTag {
                base_tag: read_tag(bytes),
                rsdp_signature: read_signature(bytes, 8),
                rsdp_checksum: bytes[16],
                rsdp_oem_id: read_oem_id(bytes, 17),
                rsdp_revision: bytes[23],
                rsdt_address: read_u32(bytes, 24),
                rsdp_length: read_u32(bytes, 28),
                xsdt_address: read_u64(bytes, 32),
                extended_checksum: bytes[40],
            },
        )
    }

    /// The right type, exactly the size of this structure, the RSDP
    /// signature, revision 2 or later, and the RSDP length of this structure
    /// without its tag header.
    pub fn validate(&self) -> (r: bool)
        ensures
            r == (self.base_tag.tag_type == MBI_TAG_ACPI_NEW && self.base_tag.size == MBI_ACPI_NEW_TAG_SIZE
                && self.rsdp_signature@ == rsdp_signature() && self.rsdp_revision >= 2 && self.rsdp_length
                == MBI_ACPI_NEW_TAG_SIZE - MBI_TAG_SIZE),
    {
        self.base_tag.tag_type == MBI_TAG_ACPI_NEW && self.base_tag.size == MBI_ACPI_NEW_TAG_SIZE as u32
            && is_rsdp_signature(&self.rsdp_signature) && self.rsdp_revision >= 2 && self.rsdp_length
            == (MBI_ACPI_NEW_TAG_SIZE - MBI_TAG_SIZE) as u32
    }
}

/// One entry of the memory map: a range and its type (1 is available).
#[derive(Clone, Copy, Debug, PartialEq, Eq, Structural)]
pub struct MemoryMapEntry {
    pub base_address: u64,
    pub length: u64,
    pub entry_type: u32,
}

pub const MEMORY_MAP_ENTRY_SIZE: usize = 24;

impl FromBytes for MemoryMapEntry {
    open spec fn parsed(bytes: Seq<u8>) -> Option<Self> {
        if bytes.len() >= MEMORY_MAP_ENTRY_SIZE {
            Some(
                MemoryMapEntry {
                    base_address: le_value(bytes, 0, 8) as u64,
                    length: le_value(bytes, 8, 8) as u64,
                    entry_type: le_value(bytes, 16, 4) as u32,
                },
            )
        } else {
            None
        }
    }

    fn from_bytes(bytes: &[u8]) -> (r: Option<Self>) {
        if bytes.len() < MEMORY_MAP_ENTRY_SIZE {
            return None;
        }
        Some(MemoryMapEntry { base_address: read_u64(bytes, 0), length: read_u64(bytes, 8), entry_type: read_u32(bytes, 16) })
    }
}

impl Validateable for MemoryMapEntry {
    /// Not empty, and ending below the limit of the physical address space
    /// (56 bits).
    open spec fn valid(&self) -> bool {
        self.length > 0 && self.base_address + self.length < 0x100_0000_0000_0000
    }

    fn validate(&self) -> (r: bool) {
        self.length > 0 && match self.base_address.checked_add(self.length) {
            Some(end) => end < 0x100_0000_0000_0000u64,
            None => false,
        }
    }
}

/// The block size is a power of two.
proof fn lemma_block_size_power_of_two()
    ensures
        is_power_of_two(BLOCK_SIZE as u64),
{
    assert(is_power_of_two(65536u64)) by (bit_vector);
}

/// The block at `block_start` overlaps the range `exclusion` (start, length).
pub open spec fn overlaps_exclusion(block_start: int, exclusion: (u64, u64)) -> bool {
    !(block_start + BLOCK_SIZE <= exclusion.0 || block_start >= exclusion.0 + exclusion.1)
}

/// The block at `block_start` overlaps one of `exclusions`.
pub open spec fn excluded(block_start: int, exclusions: Seq<(u64, u64)>) -> bool {
    exists|j: int| 0 <= j < exclusions.len() && #[trigger] overlaps_exclusion(block_start, exclusions[j])
}

/// The whole blocks that lie within `base..base + length`, from the lowest.
pub open spec fn blocks_within(base: int, length: int) -> Seq<u64> {
    let start = align_up_spec(base, BLOCK_SIZE as int);
    let end = align_down_spec(base + length, BLOCK_SIZE as int);
    Seq::new(
        if start < end {
            ((end - start) / BLOCK_SIZE as int) as nat
        } else {
            0nat
        },
        |k: int| (start + k * BLOCK_SIZE) as u64,
    )
}

/// The blocks that an entry makes free: for an available entry (type 1),
/// its whole blocks that overlap none of `exclusions`; for others, none.
pub open spec fn entry_free_blocks(entry: MemoryMapEntry, exclusions: Seq<(u64, u64)>) -> Seq<u64> {
    if entry.entry_type == 1 {
        blocks_within(entry.base_address as int, entry.length as int).filter(
            |b: u64| !excluded(b as int, exclusions),
        )
    } else {
        Seq::empty()
    }
}

/// Entry `i` of the memory map whose tag is at the start of `tag_memory`.
pub open spec fn memory_map_entry(tag_memory: Seq<u8>, entry_size: int, i: int) -> MemoryMapEntry {
    MemoryMapEntry::parsed(tag_memory.subrange(MBI_MEMORY_MAP_TAG_SIZE + entry_size * i, tag_memory.len() as int))->0
}

/// The number of entries of a memory map tag.
pub open spec fn memory_map_entry_count(memory_map: MbiMemoryMapTag) -> int {
    (memory_map.base_tag.size - MBI_MEMORY_MAP_TAG_SIZE) / memory_map.entry_size as int
}

/// The blocks that the first `n` entries make free, in order.
pub open spec fn map_free_blocks(tag_memory: Seq<u8>, entry_size: int, n: nat, exclusions: Seq<(u64, u64)>) -> Seq<u64>
    decreases n,
{
    if n == 0 {
        Seq::empty()
    } else {
        map_free_blocks(tag_memory, entry_size, (n - 1) as nat, exclusions) + entry_free_blocks(
            memory_map_entry(tag_memory, entry_size, n - 1),
            exclusions,
        )
    }
}

/// The memory map can be walked: it is valid, lies within the tag memory,
/// its entries are valid, and the exclusions do not wrap around.
pub open spec fn memory_map_walkable(memory_map: MbiMemoryMapTag, tag_memory: Seq<u8>, exclusions: Seq<(u64, u64)>) -> bool {
    &&& memory_map.valid()
    &&& MBI_MEMORY_MAP_TAG_SIZE <= memory_map.base_tag.size <= tag_memory.len()
    &&& forall|i: int|
        0 <= i < memory_map_entry_count(memory_map) ==> #[trigger] memory_map_entry(
            tag_memory,
            memory_map.entry_size as int,
            i,
        ).valid()
    &&& forall|j: int| 0 <= j < exclusions.len() ==> #[trigger] exclusions[j].0 + exclusions[j].1 <= u64::MAX
}

proof fn lemma_block_index(start: int, block: int, end: int, size: int)
    requires
        0 <= start <= block < end,
        size > 0,
        start % size == 0,
        block % size == 0,
        end % size == 0,
    ensures
        (block - start) / size < (end - start) / size,
        start + ((block - start) / size) * size == block,
{
    vstd::arithmetic::div_mod::lemma_fundamental_div_mod(start, size);
    vstd::arithmetic::div_mod::lemma_fundamental_div_mod(block, size);
    vstd::arithmetic::div_mod::lemma_fundamental_div_mod(end, size);
    let q = start / size;
    let p = block / size;
    let r = end / size;
    assert(block - start == (p - q) * size) by (nonlinear_arith)
        requires
            start == size * q,
            block == size * p,
    ;
    assert(end - start == (r - q) * size) by (nonlinear_arith)
        requires
            start == size * q,
            end == size * r,
    ;
    vstd::arithmetic::div_mod::lemma_div_multiples_vanish(p - q, size);
    vstd::arithmetic::div_mod::lemma_div_multiples_vanish(r - q, size);
    vstd::arithmetic::mul::lemma_mul_is_commutative(p - q, size);
    vstd::arithmetic::mul::lemma_mul_is_commutative(r - q, size);
    assert(p < r) by (nonlinear_arith)
        requires
            size * p < size * r,
            size > 0,
    ;
}

proof fn lemma_entry_fits(area: int, entry_size: int, i: int)
    requires
        0 <= area,
        entry_size > 0,
        0 <= i < area / entry_size,
    ensures
        entry_size * i + entry_size <= area,
{
    vstd::arithmetic::div_mod::lemma_fundamental_div_mod(area, entry_size);
    let q = area / entry_size;
    assert(entry_size * i + entry_size <= entry_size * q) by (nonlinear_arith)
        requires
            entry_size > 0,
            i < q,
    ;
    vstd::arithmetic::div_mod::lemma_mod_pos_bound(area, entry_size);
}

fn is_excluded(block_start_address: u64, exclusions: &[(u64, u64)]) -> (r: bool)
    requires
        block_start_address + BLOCK_SIZE <= u64::MAX,
        forall|j: int| 0 <= j < exclusions@.len() ==> #[trigger] exclusions@[j].0 + exclusions@[j].1 <= u64::MAX,
    ensures
        r == excluded(block_start_address as int, exclusions@),
{
    let block_end_address = block_start_address + BLOCK_SIZE as u64;
    let mut j: usize = 0;
    while j < exclusions.len()
        invariant
            j <= exclusions@.len(),
            block_end_address == block_start_address + BLOCK_SIZE,
            forall|j: int| 0 <= j < exclusions@.len() ==> #[trigger] exclusions@[j].0 + exclusions@[j].1 <= u64::MAX,
            forall|k: int| 0 <= k < j ==> !#[trigger] overlaps_exclusion(block_start_address as int, exclusions@[k]),
        decreases exclusions@.len() - j,
    {
        let (exclusion_start, exclusion_length) = exclusions[j];
        let exclusion_end = exclusion_start + exclusion_length;
        // Check if the block overlaps with the exclusion
        if !(block_end_address <= exclusion_start || block_start_address >= exclusion_end) {
            assert(overlaps_exclusion(block_start_address as int, exclusions@[j as int]));
            return true;
        }
        j = j + 1;
    }
    false
}

/// The blocks to mark free for the memory map `memory_map`, whose tag is at
/// the start of `tag_memory`: the whole blocks of its available entries, in
/// order, leaving out those that overlap one of `exclusions` (each a start
/// and a length).
pub fn parse_memory_map(memory_map: &MbiMemoryMapTag, tag_memory: &[u8], exclusions: &[(u64, u64)]) -> (r: Vec<u64>)
    requires
        memory_map_walkable(*memory_map, tag_memory@, exclusions@),
    ensures
        r@ == map_free_blocks(
            tag_memory@,
            memory_map.entry_size as int,
            memory_map_entry_count(*memory_map) as nat,
            exclusions@,
        ),
{
    let entry_area_size = memory_map.base_tag.size - MBI_MEMORY_MAP_TAG_SIZE as u32;
    let entry_area = &tag_memory[MBI_MEMORY_MAP_TAG_SIZE..tag_memory.len()];
    let entry_size = memory_map.entry_size;
    let entry_count = entry_area_size / entry_size;
    let mut free_blocks: Vec<u64> = Vec::new();
    let mut i: u32 = 0;
    proof {
        lemma_block_size_power_of_two();
    }
    while i < entry_count
        invariant
            memory_map_walkable(*memory_map, tag_memory@, exclusions@),
            entry_area@ == tag_memory@.subrange(MBI_MEMORY_MAP_TAG_SIZE as int, tag_memory@.len() as int),
            entry_size == memory_map.entry_size,
            entry_area_size == memory_map.base_tag.size - MBI_MEMORY_MAP_TAG_SIZE,
            entry_count == memory_map_entry_count(*memory_map),
            i <= entry_count,
            is_power_of_two(BLOCK_SIZE as u64),
            free_blocks@ == map_free_blocks(tag_memory@, entry_size as int, i as nat, exclusions@),
        decreases entry_count - i,
    {
        proof {
            lemma_entry_fits(entry_area_size as int, entry_size as int, i as int);
        }
        let offset = entry_size as usize * i as usize;
        let entry_memory = &entry_area[offset..entry_area.len()];
        assert(entry_memory@ =~= tag_memory@.subrange(MBI_MEMORY_MAP_TAG_SIZE + entry_size * i, tag_memory@.len() as int));
        let entry = match MemoryMapEntry::from_bytes(entry_memory) {
            Some(entry) => entry,
            None => vstd::pervasive::unreached(),
        };
        assert(entry == memory_map_entry(tag_memory@, entry_size as int, i as int));
        assert(entry.valid());
        let ghost before = free_blocks@;
        // Type 1 means available, so therefore we should mark them as such (by default everything is used).
        if entry.entry_type == 1 {
            let base = entry.base_address;
            let length = entry.length;
            let mask = !(BLOCK_SIZE as u64 - 1);
            let start_address = (base + (BLOCK_SIZE as u64 - 1)) & mask;
            let end_address = (base + length) & mask;
            let ghost blocks = blocks_within(entry.base_address as int, entry.length as int);
            let ghost keep = |b: u64| !excluded(b as int, exclusions@);
            proof {
                lemma_mask_is_mod((entry.base_address + (BLOCK_SIZE as u64 - 1)) as u64, BLOCK_SIZE as u64);
                lemma_mask_is_mod((entry.base_address + entry.length) as u64, BLOCK_SIZE as u64);
                let b = entry.base_address as int;
                let m = b % (BLOCK_SIZE as int);
                assert(start_address == align_up_spec(b, BLOCK_SIZE as int)) by {
                    vstd::arithmetic::div_mod::lemma_fundamental_div_mod(b, BLOCK_SIZE as int);
                    let q = b / (BLOCK_SIZE as int);
                    if m == 0 {
                        assert(b + (BLOCK_SIZE - 1) == BLOCK_SIZE * q + (BLOCK_SIZE - 1));
                        vstd::arithmetic::div_mod::lemma_mod_multiples_vanish(q, BLOCK_SIZE - 1, BLOCK_SIZE as int);
                        vstd::arithmetic::div_mod::lemma_small_mod((BLOCK_SIZE - 1) as nat, BLOCK_SIZE as nat);
                        vstd::arithmetic::mul::lemma_mul_is_commutative(BLOCK_SIZE as int, q);
                    } else {
                        assert(b + (BLOCK_SIZE - 1) == BLOCK_SIZE * (q + 1) + (m - 1));
                        vstd::arithmetic::mul::lemma_mul_is_commutative(BLOCK_SIZE as int, q + 1);
                        vstd::arithmetic::div_mod::lemma_mod_multiples_vanish(q + 1, m - 1, BLOCK_SIZE as int);
                        vstd::arithmetic::div_mod::lemma_small_mod((m - 1) as nat, BLOCK_SIZE as nat);
                    }
                }
                assert(start_address % (BLOCK_SIZE as u64) == 0) by {
                    lemma_mask_is_mod(start_address, BLOCK_SIZE as u64);
                    assert(start_address & ((BLOCK_SIZE as u64 - 1) as u64) == 0) by (bit_vector)
                        requires start_address == ((base + 0xffffu64) as u64) & !0xffffu64;
                }
                assert(end_address % (BLOCK_SIZE as u64) == 0) by {
                    lemma_mask_is_mod(end_address, BLOCK_SIZE as u64);
                    assert(end_address & ((BLOCK_SIZE as u64 - 1) as u64) == 0) by (bit_vector)
                        requires end_address == ((base + length) as u64) & !0xffffu64;
                }
            }
            let mut block_start_address = start_address;
            // The easiest way to remove the exclusions is to go through each block and skip the excluded ones
            while block_start_address < end_address
                invariant
                    forall|j: int| 0 <= j < exclusions@.len() ==> #[trigger] exclusions@[j].0 + exclusions@[j].1 <= u64::MAX,
                    start_address <= block_start_address,
                    block_start_address % (BLOCK_SIZE as u64) == 0,
                    start_address % (BLOCK_SIZE as u64) == 0,
                    end_address % (BLOCK_SIZE as u64) == 0,
                    start_address < end_address ==> block_start_address <= end_address,
                    start_address >= end_address ==> block_start_address == start_address,
                    end_address < 0x100_0000_0000_0000,
                    start_address == align_up_spec(entry.base_address as int, BLOCK_SIZE as int),
                    end_address == align_down_spec(entry.base_address + entry.length, BLOCK_SIZE as int),
                    blocks == blocks_within(entry.base_address as int, entry.length as int),
                    keep == (|b: u64| !excluded(b as int, exclusions@)),
                    free_blocks@ == before + blocks.take((block_start_address - start_address) / BLOCK_SIZE as int).filter(keep),
                decreases end_address - block_start_address,
            {
                let ghost k = (block_start_address - start_address) / (BLOCK_SIZE as int);
                proof {
                    reveal(Seq::filter);
                    lemma_block_index(start_address as int, block_start_address as int, end_address as int, BLOCK_SIZE as int);
                    assert(blocks[k] == block_start_address);
                    assert(blocks.take(k + 1).drop_last() == blocks.take(k));
                    assert(blocks.take(k + 1).last() == block_start_address);
                }
                if !is_excluded(block_start_address, exclusions) {
                    free_blocks.push(block_start_address);
                }
                block_start_address = block_start_address + BLOCK_SIZE as u64;
            }
            proof {
                if start_address < end_address {
                    assert(blocks.take((block_start_address - start_address) / BLOCK_SIZE as int) == blocks);
                } else {
                    assert(blocks.take(0) == blocks);
                }
            }
        }
        proof {
            assert(free_blocks@ == before + entry_free_blocks(entry, exclusions@));
            assert(map_free_blocks(tag_memory@, entry_size as int, (i + 1) as nat, exclusions@) == map_free_blocks(
                tag_memory@,
                entry_size as int,
                i as nat,
                exclusions@,
            ) + entry_free_blocks(memory_map_entry(tag_memory@, entry_size as int, i as int), exclusions@));
        }
        i = i + 1;
    }
    free_blocks
}

/// Why the boot information was refused.
#[derive(Clone, Copy, Debug, PartialEq, Eq, Structural)]
pub enum MultibootError {
    /// A tag of this type is too short or invalid.
    InvalidTag(u32),
    /// Two ACPI tags both give the root table.
    RootTableSetTwice,
    /// An entry of the memory map is empty or ends beyond the physical
    /// address space.
    InvalidMemoryMapEntry,
}

/// What the walk over the tags has found so far.
#[derive(Clone, Copy, Debug)]
pub struct TagScan {
    /// The last module tag.
    pub module: Option<MbiModuleTag>,
    /// The last memory map tag, with the offset and size of its memory.
    pub memory_map: Option<(MbiMemoryMapTag, usize, usize)>,
    /// The last frame buffer tag.
    pub frame_buffer: Option<MbiFrameBufferTag>,
    /// The address of the ACPI root table.
    pub root_table_address: Option<u64>,
    /// An ACPI 2.0 tag has been seen (after it, 1.0 tags are passed over).
    pub found_new_acpi: bool,
}

/// Nothing found yet.
pub open spec fn empty_scan() -> TagScan {
    TagScan { module: None, memory_map: None, frame_buffer: None, root_table_address: None, found_new_acpi: false }
}

/// The ACPI 1.0 tag at the start of `bytes` is valid.
pub open spec fn acpi_old_valid(bytes: Seq<u8>) -> bool {
    &&& bytes.len() >= MBI_ACPI_OLD_TAG_SIZE
    &&& tag_at(bytes).tag_type == MBI_TAG_ACPI_OLD
    &&& tag_at(bytes).size == MBI_ACPI_OLD_TAG_SIZE
    &&& bytes.subrange(8, 16) == rsdp_signature()
}

/// The ACPI 2.0 tag at the start of `bytes` is valid.
pub open spec fn acpi_new_valid(bytes: Seq<u8>) -> bool {
    &&& bytes.len() >= MBI_ACPI_NEW_TAG_SIZE
    &&& tag_at(bytes).tag_type == MBI_TAG_ACPI_NEW
    &&& tag_at(bytes).size == MBI_ACPI_NEW_TAG_SIZE
    &&& bytes.subrange(8, 16) == rsdp_signature()
    &&& bytes[23] >= 2
    &&& le_value(bytes, 28, 4) == MBI_ACPI_NEW_TAG_SIZE - MBI_TAG_SIZE
}

/// `scan` with the root table at `address`; it may be set once only.
pub open spec fn with_root_table(scan: TagScan, address: u64) -> Result<TagScan, MultibootError> {
    if scan.root_table_address is Some {
        Err(MultibootError::RootTableSetTwice)
    } else {
        Ok(TagScan { root_table_address: Some(address), ..scan })
    }
}

/// What the tag whose memory is `bytes`, at offset `start`, adds to `scan`.
pub open spec fn scan_tag(scan: TagScan, bytes: Seq<u8>, start: int) -> Result<TagScan, MultibootError> {
    let tag_type = tag_at(bytes).tag_type;
    if tag_type == MBI_TAG_MODULE {
        match reinterpreted::<MbiModuleTag>(bytes) {
            Some(module) => Ok(TagScan { module: Some(module), ..scan }),
            None => Err(MultibootError::InvalidTag(tag_type)),
        }
    } else if tag_type == MBI_TAG_MEMORY_MAP {
        match reinterpreted::<MbiMemoryMapTag>(bytes) {
            Some(memory_map) => Ok(
                TagScan { memory_map: Some((memory_map, start as usize, bytes.len() as usize)), ..scan },
            ),
            None => Err(MultibootError::InvalidTag(tag_type)),
        }
    } else if tag_type == MBI_TAG_FRAME_BUFFER {
        match reinterpreted::<MbiFrameBufferTag>(bytes) {
            Some(frame_buffer) => Ok(TagScan { frame_buffer: Some(frame_buffer), ..scan }),
            None => Err(MultibootError::InvalidTag(tag_type)),
        }
    } else if tag_type == MBI_TAG_ACPI_OLD && !scan.found_new_acpi {
        if acpi_old_valid(bytes) {
            with_root_table(scan, le_value(bytes, 24, 4) as u64)
        } else {
            Err(MultibootError::InvalidTag(tag_type))
        }
    } else if tag_type == MBI_TAG_ACPI_NEW {
        if acpi_new_valid(bytes) {
            with_root_table(TagScan { found_new_acpi: true, ..scan }, le_value(bytes, 32, 8) as u64)
        } else {
            Err(MultibootError::InvalidTag(tag_type))
        }
    } else {
        Ok(scan)
    }
}

/// The walk over the tags of `memory` from `offset`, carrying `scan`: it
/// stops at the end of the memory, at a tag that is invalid or does not fit,
/// and at the end tag (type 0).
pub open spec fn scan_from(scan: TagScan, memory: Seq<u8>, offset: int) -> Result<TagScan, MultibootError>
    decreases memory.len() - offset,
{
    match item_at::<MbiTag>(memory, offset) {
        None => Ok(scan),
        Some((tag, size)) => if tag.tag_type == 0 {
            Ok(scan)
        } else {
            match scan_tag(scan, memory.subrange(offset, offset + size), offset) {
                Err(e) => Err(e),
                Ok(next) => {
                    let next_start = next_offset(offset, size as int, 8);
                    if next_start < memory.len() {
                        scan_from(next, memory, next_start)
                    } else {
                        Ok(next)
                    }
                },
            }
        },
    }
}

/// Adds the tag whose memory is `tag_memory`, at offset `start`, to `scan`.
fn scan_tag_memory(scan: TagScan, tag_memory: &[u8], start: usize) -> (r: Result<TagScan, MultibootError>)
    requires
        tag_memory@.len() >= MBI_TAG_SIZE,
    ensures
        r == scan_tag(scan, tag_memory@, start as int),
{
    let tag_type = read_tag(tag_memory).tag_type;
    if tag_type == MBI_TAG_MODULE {
        match reinterpret_memory::<MbiModuleTag>(tag_memory) {
            Some(module) => Ok(TagScan { module: Some(module), ..scan }),
            None => Err(MultibootError::InvalidTag(tag_type)),
        }
    } else if tag_type == MBI_TAG_MEMORY_MAP {
        match reinterpret_memory::<MbiMemoryMapTag>(tag_memory) {
            Some(memory_map) => Ok(TagScan { memory_map: Some((memory_map, start, tag_memory.len())), ..scan }),
            None => Err(MultibootError::InvalidTag(tag_type)),
        }
    } else if tag_type == MBI_TAG_FRAME_BUFFER {
        match reinterpret_memory::<MbiFrameBufferTag>(tag_memory) {
            Some(frame_buffer) => Ok(TagScan { frame_buffer: Some(frame_buffer), ..scan }),
            None => Err(MultibootError::InvalidTag(tag_type)),
        }
    } else if tag_type == MBI_TAG_ACPI_OLD && !scan.found_new_acpi {
        match MbiAcpiOldTag::from_bytes(tag_memory) {
            Some(acpi_old_tag) => if acpi_old_tag.validate() {
                if scan.root_table_address.is_some() {
                    Err(MultibootError::RootTableSetTwice)
                } else {
                    Ok(TagScan { root_table_address: Some(acpi_old_tag.rsdt_address as u64), ..scan })
                }
            } else {
                Err(MultibootError::InvalidTag(tag_type))
            },
            None => Err(MultibootError::InvalidTag(tag_type)),
        }
    } else if tag_type == MBI_TAG_ACPI_NEW {
        match MbiAcpiNewTag::from_bytes(tag_memory) {
            Some(acpi_new_tag) => if acpi_new_tag.validate() {
                if scan.root_table_address.is_some() {
                    Err(MultibootError::RootTableSetTwice)
                } else {
                    Ok(
                        TagScan {
                            root_table_address: Some(acpi_new_tag.xsdt_address),
                            found_new_acpi: true,
                            ..scan
                        },
                    )
                }
            } else {
                Err(MultibootError::InvalidTag(tag_type))
            },
            None => Err(MultibootError::InvalidTag(tag_type)),
        }
    } else {
        Ok(scan)
    }
}

/// Walks the tags of `tag_memory` (the boot information after its header)
/// and gathers the module, memory map, frame buffer and ACPI root table
/// they give.
pub fn scan_tags(tag_memory: &[u8]) -> (r: Result<TagScan, MultibootError>)
    requires
        tag_memory@.len() + 8 <= usize::MAX,
    ensures
        r == scan_from(empty_scan(), tag_memory@, 0),
{
    let mut tag_iterator: DynamicallySizedObjectIterator<MbiTag> = DynamicallySizedObjectIterator::new(tag_memory);
    let mut scan = TagScan {
        module: None,
        memory_map: None,
        frame_buffer: None,
        root_table_address: None,
        found_new_acpi: false,
    };
    proof {
        assert(is_power_of_two(8u64)) by (bit_vector);
    }
    if tag_memory.len() == 0 {
        return Ok(scan);
    }
    loop
        invariant
            tag_iterator.memory() == tag_memory@,
            tag_memory@.len() + 8 <= usize::MAX,
            tag_iterator.offset() < tag_memory@.len(),
            is_power_of_two(8u64),
            scan_from(empty_scan(), tag_memory@, 0) == scan_from(scan, tag_memory@, tag_iterator.offset() as int),
        decreases tag_memory@.len() - tag_iterator.offset(),
    {
        let start = tag_iterator.position();
        let item = tag_iterator.next();
        match item {
            None => {
                return Ok(scan);
            },
            Some(item) => {
                let tag = item.value;
                if tag.tag_type == 0 {
                    // End of tags.
                    return Ok(scan);
                }
                match scan_tag_memory(scan, item.value_memory, start) {
                    Err(e) => {
                        return Err(e);
                    },
                    Ok(next) => {
                        scan = next;
                    },
                }
                if tag_iterator.position() >= tag_memory.len() {
                    return Ok(scan);
                }
            },
        }
    }
}

/// The first `n` entries of the memory map are valid.
pub open spec fn entries_valid(tag_memory: Seq<u8>, entry_size: int, n: int) -> bool {
    forall|i: int| 0 <= i < n ==> #[trigger] memory_map_entry(tag_memory, entry_size, i).valid()
}

/// Whether every entry of the valid memory map `memory_map`, whose tag is at
/// the start of `tag_memory`, is valid.
fn memory_map_entries_valid(memory_map: &MbiMemoryMapTag, tag_memory: &[u8]) -> (r: bool)
    requires
        memory_map.valid(),
        MBI_MEMORY_MAP_TAG_SIZE <= memory_map.base_tag.size <= tag_memory@.len(),
    ensures
        r == entries_valid(tag_memory@, memory_map.entry_size as int, memory_map_entry_count(*memory_map)),
{
    let entry_area_size = memory_map.base_tag.size - MBI_MEMORY_MAP_TAG_SIZE as u32;
    let entry_area = &tag_memory[MBI_MEMORY_MAP_TAG_SIZE..tag_memory.len()];
    let entry_size = memory_map.entry_size;
    let entry_count = entry_area_size / entry_size;
    let mut i: u32 = 0;
    while i < entry_count
        invariant
            memory_map.valid(),
            MBI_MEMORY_MAP_TAG_SIZE <= memory_map.base_tag.size <= tag_memory@.len(),
            entry_area@ == tag_memory@.subrange(MBI_MEMORY_MAP_TAG_SIZE as int, tag_memory@.len() as int),
            entry_size == memory_map.entry_size,
            entry_area_size == memory_map.base_tag.size - MBI_MEMORY_MAP_TAG_SIZE,
            entry_count == memory_map_entry_count(*memory_map),
            i <= entry_count,
            entries_valid(tag_memory@, entry_size as int, i as int),
        decreases entry_count - i,
    {
        proof {
            lemma_entry_fits(entry_area_size as int, entry_size as int, i as int);
        }
        let offset = entry_size as usize * i as usize;
        let entry_memory = &entry_area[offset..entry_area.len()];
        assert(entry_memory@ =~= tag_memory@.subrange(MBI_MEMORY_MAP_TAG_SIZE + entry_size * i, tag_memory@.len() as int));
        let entry = match MemoryMapEntry::from_bytes(entry_memory) {
            Some(entry) => entry,
            None => vstd::pervasive::unreached(),
        };
        assert(entry == memory_map_entry(tag_memory@, entry_size as int, i as int));
        if !entry.validate() {
            return false;
        }
        i = i + 1;
    }
    true
}

/// Where the frame buffer is in physical memory, how large it is, and its
/// layout.
#[derive(Clone, Copy, Debug)]
pub struct FrameBufferMapping {
    pub physical_address: u64,
    pub size: u64,
    pub frame_buffer: FrameBuffer,
}

/// The frame buffer that `tag` describes, for an RGB frame buffer (type 1):
/// its geometry, bytes per pixel and colour byte indices, and the memory to
/// map for it (the pitch times the height, from its address).
pub open spec fn frame_buffer_mapping(tag: MbiFrameBufferTag) -> Option<FrameBufferMapping> {
    if tag.framebuffer_type == 1 {
        Some(
            FrameBufferMapping {
                physical_address: tag.address,
                size: (tag.pitch * tag.height) as u64,
                frame_buffer: FrameBuffer {
                    width: tag.width as usize,
                    height: tag.height as usize,
                    pitch: tag.pitch as usize,
                    bytes_per_pixel: tag.bits_per_pixel / 8,
                    red_byte: tag.red_position / 8,
                    green_byte: tag.green_position / 8,
                    blue_byte: tag.blue_position / 8,
                },
            },
        )
    } else {
        None
    }
}

/// The frame buffer that the tag describes, if it is an RGB one.
pub fn parse_frame_buffer(frame_buffer: &MbiFrameBufferTag) -> (r: Option<FrameBufferMapping>)
    ensures
        r == frame_buffer_mapping(*frame_buffer),
{
    if frame_buffer.framebuffer_type == 1 {
        let pitch = frame_buffer.pitch as u64;
        let height = frame_buffer.height as u64;
        assert(pitch * height <= 0xffff_ffffu64 * 0xffff_ffffu64) by (nonlinear_arith)
            requires
                pitch <= 0xffff_ffff,
                height <= 0xffff_ffff,
        ;
        Some(
            FrameBufferMapping {
                physical_address: frame_buffer.address,
                size: pitch * height,
                frame_buffer: FrameBuffer {
                    width: frame_buffer.width as usize,
                    height: frame_buffer.height as usize,
                    pitch: frame_buffer.pitch as usize,
                    bytes_per_pixel: frame_buffer.bits_per_pixel / 8,
                    red_byte: frame_buffer.red_position / 8,
                    green_byte: frame_buffer.green_position / 8,
                    blue_byte: frame_buffer.blue_position / 8,
                },
            },
        )
    } else {
        None
    }
}

/// What the kernel takes from the boot information.
#[derive(Clone, Debug)]
pub struct BootInformation {
    /// The blocks of physical memory to mark as free.
    pub free_blocks: Vec<u64>,
    /// The initial ramdisk: its start and its size.
    pub module: Option<(u32, u32)>,
    /// The frame buffer to map.
    pub frame_buffer: Option<FrameBufferMapping>,
    /// The address of the ACPI root table.
    pub root_table_address: Option<u64>,
}

/// The start of the block that holds `address`.
pub open spec fn block_start(address: int) -> int {
    align_down_spec(address, BLOCK_SIZE as int)
}

/// The end of the last block that `address` reaches into.
pub open spec fn block_end(address: int) -> int {
    align_up_spec(address, BLOCK_SIZE as int)
}

fn align_to_block_down(address: u64) -> (r: u64)
    ensures
        r == block_start(address as int),
{
    proof {
        lemma_block_size_power_of_two();
        lemma_mask_is_mod(address, BLOCK_SIZE as u64);
    }
    let r = address & !(BLOCK_SIZE as u64 - 1);
    assert(r == address - (address & 0xffffu64)) by (bit_vector)
        requires
            r == address & !0xffffu64,
    ;
    r
}

fn align_to_block_up(address: u64) -> (r: u64)
    requires
        address + BLOCK_SIZE <= u64::MAX,
    ensures
        r == block_end(address as int),
{
    let down = align_to_block_down(address);
    if down == address {
        address
    } else {
        down + BLOCK_SIZE as u64
    }
}

/// The exclusions of the memory map: the blocks of the module (none when
/// there is none) and the blocks from 0 to the end of the kernel.
pub open spec fn boot_exclusions(scan: TagScan, kernel_physical_end: u64) -> Seq<(u64, u64)> {
    let start = block_start(
        match scan.module {
            Some(m) => m.module_start as int,
            None => 0,
        },
    );
    let end = block_end(
        match scan.module {
            Some(m) => m.module_end as int,
            None => 0,
        },
    );
    seq![(start as u64, (end - start) as u64), (0u64, block_end(kernel_physical_end as int) as u64)]
}

/// What a walk over `memory` gathers holds together: the memory map tag is
/// valid and spans its memory, which lies within `memory`, and the module
/// ends after it starts.
pub open spec fn scan_well_formed(scan: TagScan, memory: Seq<u8>) -> bool {
    &&& (scan.memory_map matches Some((memory_map, start, size)) ==> {
        &&& start + size <= memory.len()
        &&& memory_map.valid()
        &&& memory_map.base_tag.size == size
        &&& size >= MBI_MEMORY_MAP_TAG_SIZE
        &&& memory_map == MbiMemoryMapTag::parsed(memory.subrange(start as int, start + size))->0
    })
    &&& (scan.module matches Some(module) ==> module.valid())
}

/// Only the first bytes matter to a little-endian value.
proof fn lemma_le_value_same(s: Seq<u8>, t: Seq<u8>, offset: int, n: nat)
    requires
        0 <= offset,
        offset + n <= s.len(),
        offset + n <= t.len(),
        forall|i: int| offset <= i < offset + n ==> s[i] == t[i],
    ensures
        le_value(s, offset, n) == le_value(t, offset, n),
    decreases n,
{
    if n > 0 {
        lemma_le_value_same(s, t, offset + 1, (n - 1) as nat);
    }
}

/// A walk that succeeds keeps what it gathers well formed.
proof fn lemma_scan_from_well_formed(scan: TagScan, memory: Seq<u8>, offset: int)
    requires
        0 <= offset,
        memory.len() <= usize::MAX,
        scan_well_formed(scan, memory),
    ensures
        scan_from(scan, memory, offset) matches Ok(result) ==> scan_well_formed(result, memory),
    decreases memory.len() - offset,
{
    match item_at::<MbiTag>(memory, offset) {
        None => {},
        Some((tag, size)) => {
            if tag.tag_type != 0 {
                let bytes = memory.subrange(offset, offset + size);
                let rest = memory.subrange(offset, memory.len() as int);
                if scan_tag(scan, bytes, offset) is Ok {
                    let next = scan_tag(scan, bytes, offset)->Ok_0;
                    if tag_at(bytes).tag_type == MBI_TAG_MEMORY_MAP {
                        lemma_le_value_same(bytes, rest, 4, 4);
                        assert(tag_at(bytes).size == tag_at(rest).size);
                        assert(tag.size == size);
                        assert(offset + size <= memory.len());
                        let m = next.memory_map->0;
                        assert(m.0 == MbiMemoryMapTag::parsed(bytes)->0);
                        assert(m.1 == offset);
                        assert(m.2 == size);
                        assert(m.0.base_tag.size == size);
                    }
                    assert(scan_well_formed(next, memory));
                    let next_start = next_offset(offset, size as int, 8);
                    if next_start < memory.len() {
                        lemma_scan_from_well_formed(next, memory, next_start);
                    }
                }
            }
        },
    }
}

/// The boot information after its header, `tag_memory`, taken apart: the
/// blocks its memory map makes free (leaving out those of the module and of
/// the kernel, which ends at `kernel_physical_end`), the module, the RGB
/// frame buffer and the ACPI root table. Refused when a tag or a memory map
/// entry is invalid, or when the root table is given twice.
pub fn parse_multiboot_structures(tag_memory: &[u8], kernel_physical_end: u64) -> (r: Result<
    BootInformation,
    MultibootError,
>)
    requires
        tag_memory@.len() + 8 <= usize::MAX,
        kernel_physical_end + BLOCK_SIZE <= u64::MAX,
    ensures
        match scan_from(empty_scan(), tag_memory@, 0) {
            Err(e) => r == Err::<BootInformation, MultibootError>(e),
            Ok(scan) => match scan.memory_map {
                Some((memory_map, start, size)) if !entries_valid(
                    tag_memory@.subrange(start as int, start + size),
                    memory_map.entry_size as int,
                    memory_map_entry_count(memory_map),
                ) => r == Err::<BootInformation, MultibootError>(MultibootError::InvalidMemoryMapEntry),
                _ => r matches Ok(info) && {
                    &&& info.free_blocks@ == match scan.memory_map {
                        Some((memory_map, start, size)) => map_free_blocks(
                            tag_memory@.subrange(start as int, start + size),
                            memory_map.entry_size as int,
                            memory_map_entry_count(memory_map) as nat,
                            boot_exclusions(scan, kernel_physical_end),
                        ),
                        None => Seq::empty(),
                    }
                    &&& info.module == match scan.module {
                        Some(m) => Some((m.module_start, (m.module_end - m.module_start) as u32)),
                        None => None,
                    }
                    &&& info.frame_buffer == match scan.frame_buffer {
                        Some(f) => frame_buffer_mapping(f),
                        None => None,
                    }
                    &&& info.root_table_address == scan.root_table_address
                },
            },
        },
{
    let scan = match scan_tags(tag_memory) {
        Ok(scan) => scan,
        Err(e) => {
            return Err(e);
        },
    };
    // Since Grub puts the module in available memory, it has to be marked as used explicitly.
    let module_start_address = align_to_block_down(
        match scan.module {
            Some(module) => module.module_start as u64,
            None => 0,
        },
    );
    let module_end_address = align_to_block_up(
        match scan.module {
            Some(module) => module.module_end as u64,
            None => 0,
        },
    );
    proof {
        lemma_scan_from_well_formed(empty_scan(), tag_memory@, 0);
    }
    let exclusions = [
        (module_start_address, module_end_address - module_start_address),
        (0u64, align_to_block_up(kernel_physical_end)),
    ];
    assert(exclusions@ == boot_exclusions(scan, kernel_physical_end));
    let free_blocks = match scan.memory_map {
        Some((memory_map, start, size)) => {
            proof {
                lemma_scan_from_well_formed(empty_scan(), tag_memory@, 0);
            }
            let memory_map_tag_memory = &tag_memory[start..start + size];
            if !memory_map_entries_valid(&memory_map, memory_map_tag_memory) {
                return Err(MultibootError::InvalidMemoryMapEntry);
            }
            parse_memory_map(&memory_map, memory_map_tag_memory, exclusions.as_slice())
        },
        None => Vec::new(),
    };
    let module = match scan.module {
        Some(module) => Some((module.module_start, module.module_end - module.module_start)),
        None => None,
    };
    let frame_buffer = match scan.frame_buffer {
        Some(frame_buffer) => parse_frame_buffer(&frame_buffer),
        None => None,
    };
    Ok(BootInformation { free_blocks, module, frame_buffer, root_table_address: scan.root_table_address })
}

/// The blocks that a memory map makes free never overlap an exclusion: the
/// module and the kernel are never handed out as free memory.
pub proof fn law_free_blocks_avoid_exclusions(tag_memory: Seq<u8>, entry_size: int, n: nat, exclusions: Seq<(u64, u64)>)
    ensures
        forall|i: int|
            0 <= i < map_free_blocks(tag_memory, entry_size, n, exclusions).len() ==> !excluded(
                #[trigger] map_free_blocks(tag_memory, entry_size, n, exclusions)[i] as int,
                exclusions,
            ),
    decreases n,
{
    if n > 0 {
        law_free_blocks_avoid_exclusions(tag_memory, entry_size, (n - 1) as nat, exclusions);
        let before = map_free_blocks(tag_memory, entry_size, (n - 1) as nat, exclusions);
        let entry = memory_map_entry(tag_memory, entry_size, n - 1);
        let added = entry_free_blocks(entry, exclusions);
        let keep = |b: u64| !excluded(b as int, exclusions);
        assert forall|i: int| 0 <= i < added.len() implies !excluded(#[trigger] added[i] as int, exclusions) by {
            if entry.entry_type == 1 {
                blocks_within(entry.base_address as int, entry.length as int).lemma_filter_pred(keep, i);
            }
        }
        let all = map_free_blocks(tag_memory, entry_size, n, exclusions);
        assert(all == before + added);
        assert forall|i: int| 0 <= i < all.len() implies !excluded(#[trigger] all[i] as int, exclusions) by {
            if i < before.len() {
                assert(all[i] == before[i]);
            } else {
                assert(all[i] == added[i - before.len()]);
            }
        }
    }
}

/// A block of `blocks_within(base, length)` lies wholly within
/// `base..base + length`.
proof fn lemma_blocks_within_bounds(base: int, length: int, m: int)
    requires
        0 <= base,
        0 <= length,
        base + length < 0x100_0000_0000_0000,
        0 <= m < blocks_within(base, length).len(),
    ensures
        base <= blocks_within(base, length)[m],
        blocks_within(base, length)[m] + BLOCK_SIZE <= base + length,
{
    let bs = BLOCK_SIZE as int;
    let start = align_up_spec(base, bs);
    let end = align_down_spec(base + length, bs);
    vstd::arithmetic::div_mod::lemma_mod_pos_bound(base, bs);
    vstd::arithmetic::div_mod::lemma_mod_pos_bound(base + length, bs);
    assert(base <= start && end <= base + length);
    assert(start < end);
    let q = (end - start) / bs;
    vstd::arithmetic::div_mod::lemma_fundamental_div_mod(end - start, bs);
    vstd::arithmetic::div_mod::lemma_mod_pos_bound(end - start, bs);
    assert(0 <= m < q);
    assert(start + m * bs + bs <= end && start <= start + m * bs) by (nonlinear_arith)
        requires
            0 <= m < q,
            end - start == bs * q + (end - start) % bs,
            0 <= (end - start) % bs,
            bs > 0,
    ;
    assert(blocks_within(base, length)[m] == start + m * bs);
}

/// Only available memory is made free: every block that the first `n`
/// (valid) entries of a memory map make free lies wholly within one of
/// them whose type is 1 (available). The blocks of an entry of any other
/// type (reserved, ACPI-reclaimable, defective, ...) are never free.
pub proof fn law_free_blocks_lie_in_available_entries(
    tag_memory: Seq<u8>,
    entry_size: int,
    n: nat,
    exclusions: Seq<(u64, u64)>,
)
    requires
        forall|i: int| 0 <= i < n ==> #[trigger] memory_map_entry(tag_memory, entry_size, i).valid(),
    ensures
        forall|k: int|
            0 <= k < map_free_blocks(tag_memory, entry_size, n, exclusions).len() ==> exists|i: int|
                #![trigger memory_map_entry(tag_memory, entry_size, i)]
                0 <= i < n && memory_map_entry(tag_memory, entry_size, i).entry_type == 1
                    && memory_map_entry(tag_memory, entry_size, i).base_address <= #[trigger] map_free_blocks(
                    tag_memory,
                    entry_size,
                    n,
                    exclusions,
                )[k] && map_free_blocks(tag_memory, entry_size, n, exclusions)[k] + BLOCK_SIZE
                    <= memory_map_entry(tag_memory, entry_size, i).base_address + memory_map_entry(
                    tag_memory,
                    entry_size,
                    i,
                ).length,
    decreases n,
{
    if n > 0 {
        law_free_blocks_lie_in_available_entries(tag_memory, entry_size, (n - 1) as nat, exclusions);
        let before = map_free_blocks(tag_memory, entry_size, (n - 1) as nat, exclusions);
        let entry = memory_map_entry(tag_memory, entry_size, n - 1);
        let added = entry_free_blocks(entry, exclusions);
        let all = map_free_blocks(tag_memory, entry_size, n, exclusions);
        assert(all == before + added);
        assert forall|k: int| 0 <= k < all.len() implies exists|i: int|
            #![trigger memory_map_entry(tag_memory, entry_size, i)]
            0 <= i < n && memory_map_entry(tag_memory, entry_size, i).entry_type == 1
                && memory_map_entry(tag_memory, entry_size, i).base_address <= #[trigger] all[k] && all[k]
                + BLOCK_SIZE <= memory_map_entry(tag_memory, entry_size, i).base_address + memory_map_entry(
                tag_memory,
                entry_size,
                i,
            ).length by {
            if k < before.len() {
                assert(all[k] == before[k]);
                let i = choose|i: int|
                    #![trigger memory_map_entry(tag_memory, entry_size, i)]
                    0 <= i < n - 1 && memory_map_entry(tag_memory, entry_size, i).entry_type == 1
                        && memory_map_entry(tag_memory, entry_size, i).base_address <= before[k] && before[k]
                        + BLOCK_SIZE <= memory_map_entry(tag_memory, entry_size, i).base_address
                        + memory_map_entry(tag_memory, entry_size, i).length;
                assert(0 <= i < n);
            } else if entry.entry_type == 1 {
                let j = k - before.len();
                assert(all[k] == added[j]);
                let blocks = blocks_within(entry.base_address as int, entry.length as int);
                let keep = |b: u64| !excluded(b as int, exclusions);
                assert(added == blocks.filter(keep));
                assert(added.contains(added[j]));
                blocks.lemma_filter_contains_rev(keep, added[j]);
                let m = choose|m: int| 0 <= m < blocks.len() && blocks[m] == added[j];
                assert(memory_map_entry(tag_memory, entry_size, n - 1).valid());
                lemma_blocks_within_bounds(entry.base_address as int, entry.length as int, m);
            } else {
                assert(added.len() == 0);
            }
        }
    }
}

/// An entry whose type is not 1 (not available) adds no free blocks.
pub proof fn law_unavailable_entry_adds_nothing(
    tag_memory: Seq<u8>,
    entry_size: int,
    n: nat,
    exclusions: Seq<(u64, u64)>,
)
    requires
        n > 0,
        memory_map_entry(tag_memory, entry_size, n - 1).entry_type != 1,
    ensures
        map_free_blocks(tag_memory, entry_size, n, exclusions) == map_free_blocks(
            tag_memory,
            entry_size,
            (n - 1) as nat,
            exclusions,
        ),
{
    let before = map_free_blocks(tag_memory, entry_size, (n - 1) as nat, exclusions);
    assert(before + Seq::<u64>::empty() =~= before);
}

/// The memory map of the boot information gives the kernel and the module
/// back to nobody: every block made free with the boot exclusions starts at
/// or after the kernel's end, and lies wholly before or wholly after the
/// module.
pub proof fn law_free_blocks_avoid_kernel_and_module(
    scan: TagScan,
    kernel_physical_end: u64,
    tag_memory: Seq<u8>,
    entry_size: int,
    n: nat,
    k: int,
)
    requires
        kernel_physical_end + BLOCK_SIZE <= u64::MAX,
        scan.module matches Some(m) ==> m.module_start <= m.module_end,
        0 <= k < map_free_blocks(tag_memory, entry_size, n, boot_exclusions(scan, kernel_physical_end)).len(),
    ensures
        ({
            let b = map_free_blocks(tag_memory, entry_size, n, boot_exclusions(scan, kernel_physical_end))[k];
            &&& b >= kernel_physical_end
            &&& scan.module matches Some(m) ==> b + BLOCK_SIZE <= m.module_start || b >= m.module_end
        }),
{
    let exclusions = boot_exclusions(scan, kernel_physical_end);
    let b = map_free_blocks(tag_memory, entry_size, n, exclusions)[k];
    law_free_blocks_avoid_exclusions(tag_memory, entry_size, n, exclusions);
    assert(!excluded(b as int, exclusions));
    assert(!overlaps_exclusion(b as int, exclusions[0]) && !overlaps_exclusion(b as int, exclusions[1]));
    let bs = BLOCK_SIZE as int;
    let (ms, me): (int, int) = match scan.module {
        Some(m) => (m.module_start as int, m.module_end as int),
        None => (0, 0),
    };
    vstd::arithmetic::div_mod::lemma_mod_pos_bound(kernel_physical_end as int, bs);
    vstd::arithmetic::div_mod::lemma_mod_pos_bound(ms, bs);
    vstd::arithmetic::div_mod::lemma_mod_pos_bound(me, bs);
    assert(block_end(kernel_physical_end as int) >= kernel_physical_end);
    assert(block_start(ms) <= ms && 0 <= block_start(ms));
    assert(block_end(me) >= me && block_end(me) <= me + bs);
}

} // verus!
