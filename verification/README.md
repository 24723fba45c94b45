# arceos_loader

The verified core of a small ArceOS app loader, written in Verus.

- `src/align.rs` — power-of-two checks and rounding.
- `src/early.rs` — the early bump allocator: bytes grow up from the start of
  a region, pages grow down from its end; contracts are stated over an
  abstract state (`EarlyState`) with one spec transition per operation, and
  the single-call laws (blocks inside free space, refusals change nothing,
  page round trips) are proof functions at the end of the file.
- `src/early_runs.rs` — the allocator over whole runs of calls: byte blocks
  increase and never overlap, page runs never overlap each other or byte
  blocks, and the page bookkeeping stays consistent after one `init`.
- `src/bytes.rs` — big-endian byte strings as numbers.
- `src/dtb.rs` — the summary of a flattened device tree (memory region and
  virtio MMIO regions), reading the tree through `hermit_dtb`; the queries
  the summary makes must run to their end (`dtb_walkable`), which the program
  takes on for the blob the firmware hands over.
- `src/map.rs` — keyed SipHash-1-3 hashers (through `siphasher`) and the
  Park–Miller–Lehmer generator that keys them.
- `src/loader.rs` — the ABI table, the apps' page tables and the layout of the
  app image.
- `app/` — the program around the library: raw memory, control registers,
  inline assembly, the global generator state and the generic hash map.
