# osmium

The core of the Osmium kernel, written in Verus: each function carries a
`requires`/`ensures` contract over a mathematical model of its data, and
Verus proves that the code meets it.

## Layout

- `src/` — the verified library.
  - Memory: `pmm` (the physical block bitmap), `token_bitmap`,
    `memory_token` (tokens for ranges of memory), `slab`,
    `small_allocator`, `heap` (fresh slab lists), `buddy`,
    `global_allocator` (size classes), `memory` (alignment, packed
    records).
  - Paging: `paging::x86_64` and `paging::aarch64` (entry flags and the
    indices of the recursive mapping), `paging::entry` (entry words),
    `paging::tables` (mapping, translating and unmapping pages over a model
    of the entry words), `paging::mapping` (mapping pages given by tokens),
    `user_memory` (mapping fresh memory for user programs).
  - Boot and devices: `multiboot` (the boot information and the free
    blocks of the memory map), `acpi`, `hpet`, `interrupts`,
    `task_state_segment`, `framebuffer`, `font`, `vga`, `console`.
  - `syscall` (the system-call encoding), `lazy_init`, `init_cell`,
    `platform`, `bits`, `bytes`.
- `tests/` — tests of the library on concrete values.
- `app/` — the kernel around the library: `main`, the hardware access
  (ports, model-specific registers, memory-mapped devices, the page tables
  through the recursive mapping), the locks and the start-up sequence.

Public proof functions named `law_…` state properties that relate several
operations, such as that a mapped page translates to the address it was
mapped to (a page in the recursive mapping's own slot given that the root
table's entry for itself is present, as it always is once paging is set
up), or that what is stored in a token bitmap is read back.
