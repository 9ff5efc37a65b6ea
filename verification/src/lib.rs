//! Verified core logic of the Osmium kernel: physical memory bitmaps, token
//! bitmaps, memory tokens, slabs, page-table arithmetic, boot-information
//! parsing and the system-call encoding.
use vstd::prelude::*;

pub mod acpi;
pub mod bits;
pub mod buddy;
pub mod bytes;
pub mod console;
pub mod font;
pub mod framebuffer;
pub mod global_allocator;
pub mod heap;
pub mod hpet;
pub mod init_cell;
pub mod interrupts;
pub mod lazy_init;
pub mod memory;
pub mod memory_token;
pub mod multiboot;
pub mod paging;
pub mod platform;
pub mod pmm;
pub mod slab;
pub mod small_allocator;
pub mod syscall;
pub mod task_state_segment;
pub mod token_bitmap;
pub mod user_memory;
pub mod vga;

verus! {

} // verus!
