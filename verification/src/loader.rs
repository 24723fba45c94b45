//! The app loader's own logic: the ABI table, the app page tables, and the
//! layout of the app image in flash.
//!
//! The image starts with a big-endian count of apps in `HEADER_LENGTH` bytes,
//! followed by the size fields and then the code.
use vstd::prelude::*;
use crate::bytes::be_value;

verus! {

/// Where the app image starts in flash.
pub const PLASH_START: usize = 0x2200_0000;
/// Where an app is copied to and run from.
pub const RUN_START: usize = 0x4010_0000;
/// The width of the count and size fields of the image.
pub const HEADER_LENGTH: usize = 2;
/// The ABI number of the greeting call.
pub const SYS_HELLO: usize = 1;
/// The ABI number of the character output call.
pub const SYS_PUTCHAR: usize = 2;
/// The ABI number of the shutdown call.
pub const SYS_TERMINATE: usize = 3;

/// The number that `bytes` spell big-endian, as a machine word: every byte
/// shifts the word left by eight bits, dropping its top byte, and fills the
/// low byte.
pub open spec fn be_word(bytes: Seq<u8>) -> usize
    decreases bytes.len(),
{
    if bytes.len() == 0 {
        0
    } else {
        (be_word(bytes.drop_last()) as nat * 256 + bytes.last() as nat) as usize
    }
}

/// While the number fits in a machine word, the word is the number itself.
pub proof fn lemma_be_word_exact(bytes: Seq<u8>)
    requires
        be_value(bytes) <= usize::MAX,
    ensures
        be_word(bytes) == be_value(bytes),
    decreases bytes.len(),
{
    if bytes.len() > 0 {
        assert(be_value(bytes.drop_last()) <= be_value(bytes));
        lemma_be_word_exact(bytes.drop_last());
    }
}

/// Read `bytes` as a big-endian number, keeping its last machine word.
pub fn bytes_to_usize(bytes: &[u8]) -> (r: usize)
    ensures
        r == be_word(bytes@),
{
    let mut res: usize = 0;
    let mut i: usize = 0;
    while i < bytes.len()
        invariant
            i <= bytes@.len(),
            res == be_word(bytes@.subrange(0, i as int)),
        decreases bytes.len() - i,
    {
        let byte = bytes[i];
        assert(bytes@.subrange(0, i + 1).drop_last() =~= bytes@.subrange(0, i as int));
        assert((res << 8usize) + (byte as usize) == ((res * 256 + byte) as usize)) by (bit_vector);
        res = res << 8;
        res += byte as usize;
        i = i + 1;
    }
    assert(bytes@.subrange(0, i as int) =~= bytes@);
    res
}

/// Enter `handle` as the handler of ABI call `num`.
pub fn register_abi(table: &mut [usize; 16], num: usize, handle: usize)
    requires
        num < 16,
    ensures
        final(table)@ == old(table)@.update(num as int, handle),
{
    table[num] = handle;
}

/// Enter the handlers of the three ABI calls the apps may make.
pub fn register_abi_table(table: &mut [usize; 16], hello: usize, putchar: usize, terminate: usize)
    ensures
        final(table)@ == old(table)@.update(SYS_HELLO as int, hello).update(
            SYS_PUTCHAR as int,
            putchar,
        ).update(SYS_TERMINATE as int, terminate),
{
    register_abi(table, SYS_HELLO, hello);
    register_abi(table, SYS_PUTCHAR, putchar);
    register_abi(table, SYS_TERMINATE, terminate);
}

/// An Sv39 entry that maps a 1 GiB block at physical page `ppn`, valid,
/// readable, writable, executable, global, accessed and dirty.
pub open spec fn gigapage_entry(ppn: u64) -> u64 {
    (ppn << 10u64) | 0xef
}

/// A root page table with the app's four 1 GiB mappings entered: physical
/// memory at `0x8000_0000` both identity-mapped and at the kernel's high
/// address, the low gigabyte identity-mapped, and the app space
/// `0x4000_0000..0x8000_0000` backed by `0x8000_0000`.
pub open spec fn app_page_table(table: Seq<u64>) -> Seq<u64> {
    table.update(2, gigapage_entry(0x80000)).update(0x102, gigapage_entry(0x80000)).update(
        0,
        gigapage_entry(0),
    ).update(1, gigapage_entry(0x80000))
}

/// Enter the app mappings into the root page tables of the first
/// `app_amount` apps.
pub fn init_app_page_table(tables: &mut [[u64; 512]; 10], app_amount: usize)
    requires
        app_amount <= 10,
    ensures
        forall|idx: int|
            0 <= idx < app_amount ==> #[trigger] final(tables)@[idx]@ == app_page_table(old(tables)@[idx]@),
        forall|idx: int| app_amount <= idx < 10 ==> #[trigger] final(tables)@[idx] == old(tables)@[idx],
        forall|idx: int, e: int|
            0 <= idx < app_amount && 0 <= e < 512 ==> #[trigger] final(tables)@[idx]@[e] == if e == 0 {
                0xefu64
            } else if e == 1 || e == 2 || e == 0x102 {
                0x2000_00efu64
            } else {
                old(tables)@[idx]@[e]
            },
{
    let ghost start = *tables;
    let mut idx: usize = 0;
    while idx < app_amount
        invariant
            app_amount <= 10,
            idx <= app_amount,
            forall|j: int| 0 <= j < idx ==> #[trigger] tables@[j]@ == app_page_table(start@[j]@),
            forall|j: int| idx <= j < 10 ==> #[trigger] tables@[j] == start@[j],
            forall|j: int, e: int|
                0 <= j < idx && 0 <= e < 512 ==> #[trigger] tables@[j]@[e] == if e == 0 {
                    0xefu64
                } else if e == 1 || e == 2 || e == 0x102 {
                    0x2000_00efu64
                } else {
                    start@[j]@[e]
                },
        decreases app_amount - idx,
    {
        let mut table = tables[idx];
        assert(table@.len() == 512);
        table[2] = (0x80000 << 10) | 0xef;
        table[0x102] = (0x80000 << 10) | 0xef;
        table[0] = (0x00000 << 10) | 0xef;
        table[1] = (0x80000 << 10) | 0xef;
        assert(table@ =~= app_page_table(start@[idx as int]@));
        tables[idx] = table;
        proof {
            lemma_app_page_table_entries(start@[idx as int]@);
        }
        idx = idx + 1;
    }
}

/// Where the size field of app `idx` is read.
pub fn app_size_addr(idx: usize) -> (r: usize)
    requires
        PLASH_START + HEADER_LENGTH + idx <= usize::MAX,
    ensures
        r == PLASH_START + HEADER_LENGTH + idx,
{
    PLASH_START + HEADER_LENGTH + idx
}

/// Where the code of the apps starts: after the count and one size field per app.
pub fn apps_code_addr(apps_amount: usize) -> (r: usize)
    requires
        PLASH_START + HEADER_LENGTH + HEADER_LENGTH * apps_amount <= usize::MAX,
    ensures
        r == PLASH_START + HEADER_LENGTH + HEADER_LENGTH * apps_amount,
{
    PLASH_START + HEADER_LENGTH + HEADER_LENGTH * apps_amount
}


/// Entering the app mappings twice is the same as entering them once.
pub proof fn lemma_app_page_table_idempotent(table: Seq<u64>)
    requires
        table.len() == 512,
    ensures
        app_page_table(app_page_table(table)) == app_page_table(table),
{
    assert(app_page_table(app_page_table(table)) =~= app_page_table(table));
}


/// Entering the app mappings writes the identity map of the low gigabyte
/// (`0xef`: physical 0, all permissions) into entry 0, the mapping of
/// physical `0x8000_0000` (`0x2000_00ef`) into entries 1, 2 and `0x102`, and
/// leaves every other entry as it was.
pub proof fn lemma_app_page_table_entries(table: Seq<u64>)
    requires
        table.len() == 512,
    ensures
        app_page_table(table).len() == 512,
        forall|e: int|
            0 <= e < 512 ==> #[trigger] app_page_table(table)[e] == if e == 0 {
                0xefu64
            } else if e == 1 || e == 2 || e == 0x102 {
                0x2000_00efu64
            } else {
                table[e]
            },
{
    assert(gigapage_entry(0) == 0xefu64) by (bit_vector);
    assert(gigapage_entry(0x80000) == 0x2000_00efu64) by (bit_vector);
}

} // verus!
