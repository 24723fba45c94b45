//! The early allocator: a bump allocator over one memory region.
//!
//! Bytes are handed out upwards from the start of the region, pages downwards
//! from its (page-aligned) end. The two cursors never cross: an allocation that
//! would make them cross fails with `NoMemory`.
use vstd::prelude::*;
use crate::align::{
    is_pow2, round_down, round_up, is_power_of_two, align_up, lemma_neg_mask_rounds_down,
    lemma_round_bounds, lemma_pow2_positive,
};

verus! {

/// Why an allocator refused a request.
#[derive(Debug, Clone, Copy, PartialEq, Eq, Structural)]
pub enum AllocError {
    /// The request itself is malformed (bad alignment, zero pages).
    InvalidParam,
    /// The memory to add overlaps memory the allocator already manages.
    MemoryOverlap,
    /// The region has no room left for the request.
    NoMemory,
}

/// The abstract state of an [`EarlyAllocator`]: its region and its counters.
pub struct EarlyState {
    pub base: nat,
    pub end: nat,
    pub byte_pos: nat,
    pub page_pos: nat,
    pub total_pages: nat,
    pub used_pages: nat,
    pub used_bytes: nat,
}

impl EarlyState {
    /// The byte cursor lies between the start and the page cursor, which lies
    /// below the end of the region; every counter fits in a machine word.
    pub open spec fn wf(self) -> bool {
        &&& self.base <= self.byte_pos <= self.page_pos <= self.end <= usize::MAX
        &&& self.total_pages <= usize::MAX
        &&& self.used_pages <= usize::MAX
        &&& self.used_bytes <= usize::MAX
    }

    /// The state after `init(start, size)`: the region runs from `start` to
    /// `start + size` rounded up to a page, and both cursors are reset.
    pub open spec fn init(self, start: nat, size: nat, page_size: nat) -> EarlyState {
        let end = round_up((start + size) as int, page_size as int) as nat;
        EarlyState {
            base: start,
            end: end,
            byte_pos: start,
            page_pos: end,
            total_pages: ((end - start) / page_size as int) as nat,
            ..self
        }
    }

    /// The state after `dealloc(size)`: only the byte count is lowered.
    pub open spec fn dealloc(self, size: nat) -> EarlyState {
        EarlyState { used_bytes: (self.used_bytes - size) as nat, ..self }
    }

    /// The page-level bookkeeping is consistent: the page cursor and the end
    /// are on page boundaries, the page total is the number of whole pages of
    /// the region, and the counted pages fit in the page area.
    pub open spec fn sound(self, page_size: nat) -> bool {
        &&& self.wf()
        &&& self.page_pos as int % page_size as int == 0
        &&& self.end as int % page_size as int == 0
        &&& self.total_pages == (self.end - self.base) / page_size as int
        &&& self.used_pages * page_size <= self.end - self.page_pos
    }

    /// Whether `alloc_pages(num_pages, align)` is a well-formed request.
    pub open spec fn pages_request_valid(num_pages: nat, align: usize, page_size: nat) -> bool {
        &&& align as int % page_size as int == 0
        &&& is_pow2(align)
        &&& num_pages != 0
    }

    /// The number of bytes that `alloc_pages` reserves for `num_pages` pages.
    pub open spec fn pages_span(num_pages: nat, align: usize, page_size: nat) -> int {
        round_up((num_pages * page_size) as int, align as int)
    }

    /// The new page cursor that `alloc_pages` computes.
    pub open spec fn pages_target(self, num_pages: nat, align: usize, page_size: nat) -> int {
        round_down(self.page_pos - Self::pages_span(num_pages, align, page_size), align as int)
    }

    /// The arithmetic of `alloc_pages` stays within a machine word: the
    /// request in bytes fits, the rounded request does not exceed the page
    /// cursor (the new cursor is computed by subtracting it), and the page
    /// count does not overflow.
    pub open spec fn alloc_pages_fits(self, num_pages: nat, align: usize, page_size: nat) -> bool {
        Self::pages_request_valid(num_pages, align, page_size) ==> {
            &&& num_pages * page_size + align <= usize::MAX
            &&& Self::pages_span(num_pages, align, page_size) <= self.page_pos
            &&& self.pages_target(num_pages, align, page_size) >= self.byte_pos
                ==> self.used_pages + (self.page_pos - self.pages_target(num_pages, align, page_size))
                / page_size as int <= usize::MAX
        }
    }

    /// The state and result of `alloc_pages(num_pages, align)`.
    pub open spec fn alloc_pages(self, num_pages: nat, align: usize, page_size: nat) -> (
        EarlyState,
        Result<usize, AllocError>,
    ) {
        if !Self::pages_request_valid(num_pages, align, page_size) {
            (self, Err(AllocError::InvalidParam))
        } else {
            let target = self.pages_target(num_pages, align, page_size);
            if target < self.byte_pos {
                (self, Err(AllocError::NoMemory))
            } else {
                (
                    EarlyState {
                        used_pages: (self.used_pages + (self.page_pos - target) / page_size as int) as nat,
                        page_pos: target as nat,
                        ..self
                    },
                    Ok(target as usize),
                )
            }
        }
    }

    /// The state after `dealloc_pages(pos, num_pages)`: pages inside the page
    /// area are uncounted, and once none is counted the page area is emptied.
    pub open spec fn dealloc_pages(self, pos: nat, num_pages: nat) -> EarlyState {
        if self.page_pos <= pos < self.end {
            let used = (self.used_pages - num_pages) as nat;
            EarlyState {
                used_pages: used,
                page_pos: if used == 0 { self.end } else { self.page_pos },
                ..self
            }
        } else {
            self
        }
    }

    /// The arithmetic of `dealloc_pages` stays within a machine word.
    pub open spec fn dealloc_pages_fits(self, pos: nat, num_pages: nat) -> bool {
        self.page_pos <= pos < self.end ==> num_pages <= self.used_pages
    }

    /// Where `alloc_bytes` places a block: the byte cursor rounded up to `align`.
    pub open spec fn bytes_start(self, align: usize) -> int {
        round_up(self.byte_pos as int, align as int)
    }

    /// Where the byte cursor goes after `alloc_bytes` places `size` bytes.
    pub open spec fn bytes_end(self, size: nat, align: usize) -> int {
        round_up(self.bytes_start(align) + size, align as int)
    }

    /// The arithmetic of `alloc_bytes` stays within a machine word, and a block it
    /// hands out does not start at address zero, since a block is an address
    /// that cannot be null.
    pub open spec fn alloc_fits(self, size: nat, align: usize) -> bool {
        is_pow2(align) ==> {
            &&& self.byte_pos + align <= usize::MAX
            &&& self.bytes_start(align) + size + align <= usize::MAX
            &&& self.bytes_end(size, align) <= self.page_pos ==> {
                &&& self.used_bytes + (self.bytes_end(size, align) - self.bytes_start(align))
                    <= usize::MAX
                &&& self.bytes_start(align) != 0
            }
        }
    }

    /// The state and result of `alloc_bytes(size, align)`.
    pub open spec fn alloc_bytes(self, size: nat, align: usize) -> (EarlyState, Result<usize, AllocError>) {
        if !is_pow2(align) {
            (self, Err(AllocError::InvalidParam))
        } else if self.bytes_end(size, align) > self.page_pos {
            (self, Err(AllocError::NoMemory))
        } else {
            (
                EarlyState {
                    used_bytes: (self.used_bytes + (self.bytes_end(size, align) - self.bytes_start(
                        align,
                    ))) as nat,
                    byte_pos: self.bytes_end(size, align) as nat,
                    ..self
                },
                Ok(self.bytes_start(align) as usize),
            )
        }
    }
}

/// A bump allocator for the early boot stage, generic over the page size.
pub struct EarlyAllocator<const PAGE_SIZE: usize> {
    base: usize,
    end: usize,
    byte_pos: usize,
    page_pos: usize,
    total_pages: usize,
    used_pages: usize,
    used_bytes: usize,
}

impl<const PAGE_SIZE: usize> View for EarlyAllocator<PAGE_SIZE> {
    type V = EarlyState;

    closed spec fn view(&self) -> EarlyState {
        EarlyState {
            base: self.base as nat,
            end: self.end as nat,
            byte_pos: self.byte_pos as nat,
            page_pos: self.page_pos as nat,
            total_pages: self.total_pages as nat,
            used_pages: self.used_pages as nat,
            used_bytes: self.used_bytes as nat,
        }
    }
}

impl<const PAGE_SIZE: usize> EarlyAllocator<PAGE_SIZE> {
    /// The allocator's cursors are in order.
    pub open spec fn wf(&self) -> bool {
        self@.wf()
    }

    /// An allocator that manages no memory yet.
    pub fn new() -> (r: Self)
        ensures
            r.wf(),
            PAGE_SIZE > 0 ==> r@.sound(PAGE_SIZE as nat),
            r@ == (EarlyState {
                base: 0,
                end: 0,
                byte_pos: 0,
                page_pos: 0,
                total_pages: 0,
                used_pages: 0,
                used_bytes: 0,
            }),
    {
        Self {
            base: 0,
            end: 0,
            byte_pos: 0,
            page_pos: 0,
            total_pages: 0,
            used_pages: 0,
            used_bytes: 0,
        }
    }

    /// Take over the region `[start, start + size)`; the end is rounded up to
    /// a page boundary. The usage counters are left as they were.
    pub fn init(&mut self, start: usize, size: usize)
        requires
            is_pow2(PAGE_SIZE),
            start + size + PAGE_SIZE <= usize::MAX,
        ensures
            final(self).wf(),
            final(self)@ == old(self)@.init(start as nat, size as nat, PAGE_SIZE as nat),
    {
        proof {
            lemma_neg_mask_rounds_down((start + size + PAGE_SIZE - 1) as usize, PAGE_SIZE);
        }
        self.base = start;
        self.end = align_up(start + size, PAGE_SIZE);
        self.byte_pos = self.base;
        self.page_pos = self.end;
        self.total_pages = (self.end - self.base) / PAGE_SIZE;
    }

    /// The early allocator cannot take further regions.
    pub fn add_memory(&mut self, start: usize, size: usize) -> (r: Result<(), AllocError>)
        ensures
            r == Err::<(), AllocError>(AllocError::MemoryOverlap),
            final(self)@ == old(self)@,
    {
        Err(AllocError::MemoryOverlap)
    }

    /// The number of pages in the region.
    pub fn total_pages(&self) -> (r: usize)
        ensures
            r == self@.total_pages,
    {
        self.total_pages
    }

    /// The number of pages counted as in use.
    pub fn used_pages(&self) -> (r: usize)
        ensures
            r == self@.used_pages,
    {
        self.used_pages
    }

    /// The number of pages not counted as in use.
    pub fn available_pages(&self) -> (r: usize)
        requires
            self@.used_pages <= self@.total_pages,
        ensures
            r == self@.total_pages - self@.used_pages,
    {
        self.total_pages - self.used_pages
    }

    /// Allocate `num_pages` pages aligned to `align_pow2`, taken from the top
    /// of the free space; returns the address of the first page.
    pub fn alloc_pages(&mut self, num_pages: usize, align_pow2: usize) -> (r: Result<usize, AllocError>)
        requires
            old(self).wf(),
            PAGE_SIZE > 0,
            old(self)@.alloc_pages_fits(num_pages as nat, align_pow2, PAGE_SIZE as nat),
        ensures
            final(self).wf(),
            (final(self)@, r) == old(self)@.alloc_pages(num_pages as nat, align_pow2, PAGE_SIZE as nat),
    {
        if align_pow2 % PAGE_SIZE != 0 {
            return Err(AllocError::InvalidParam);
        }
        if !is_power_of_two(align_pow2) {
            return Err(AllocError::InvalidParam);
        }
        if num_pages == 0 {
            return Err(AllocError::InvalidParam);
        }
        proof {
            lemma_neg_mask_rounds_down(align_pow2, align_pow2);
            assert(num_pages * PAGE_SIZE <= usize::MAX);
        }
        let request = num_pages * PAGE_SIZE + align_pow2 - 1;
        proof {
            lemma_neg_mask_rounds_down(request, align_pow2);
        }
        let size = request & (!align_pow2 + 1);
        proof {
            lemma_neg_mask_rounds_down((self.page_pos - size) as usize, align_pow2);
        }
        let new_page_pos = (self.page_pos - size) & (!align_pow2 + 1);
        if new_page_pos < self.byte_pos {
            return Err(AllocError::NoMemory);
        }
        self.used_pages += (self.page_pos - new_page_pos) / PAGE_SIZE;
        self.page_pos = new_page_pos;
        Ok(self.page_pos)
    }

    /// Give back `num_pages` pages at `pos`. Only the count is kept: once no
    /// page is counted, the whole page area is free again.
    pub fn dealloc_pages(&mut self, pos: usize, num_pages: usize)
        requires
            old(self).wf(),
            old(self)@.dealloc_pages_fits(pos as nat, num_pages as nat),
        ensures
            final(self).wf(),
            final(self)@ == old(self)@.dealloc_pages(pos as nat, num_pages as nat),
    {
        if pos >= self.page_pos && pos < self.end {
            self.used_pages -= num_pages;
            if self.used_pages == 0 {
                self.page_pos = self.end;
            }
        }
    }

    /// Allocate `size` bytes aligned to `align`, taken from the bottom of the
    /// free space; returns the address of the block.
    pub fn alloc_bytes(&mut self, size: usize, align: usize) -> (r: Result<usize, AllocError>)
        requires
            old(self).wf(),
            old(self)@.alloc_fits(size as nat, align),
        ensures
            final(self).wf(),
            (final(self)@, r) == old(self)@.alloc_bytes(size as nat, align),
    {
        if !is_power_of_two(align) {
            return Err(AllocError::InvalidParam);
        }
        proof {
            lemma_neg_mask_rounds_down((self.byte_pos + align - 1) as usize, align);
        }
        let start = (self.byte_pos + align - 1) & (!align + 1);
        proof {
            lemma_neg_mask_rounds_down((start + size + align - 1) as usize, align);
        }
        let alloc_pos = (start + size + align - 1) & (!align + 1);
        if alloc_pos > self.page_pos {
            return Err(AllocError::NoMemory);
        }
        self.used_bytes += alloc_pos - start;
        self.byte_pos = alloc_pos;
        Ok(start)
    }

    /// Give back a block of `size` bytes; only the byte count is lowered.
    pub fn dealloc(&mut self, pos: usize, size: usize, align: usize)
        requires
            old(self).wf(),
            size <= old(self)@.used_bytes,
        ensures
            final(self).wf(),
            final(self)@ == old(self)@.dealloc(size as nat),
    {
        self.used_bytes -= size;
    }

    /// The number of bytes between the two cursors.
    pub fn available_bytes(&self) -> (r: usize)
        requires
            self.wf(),
        ensures
            r == self@.page_pos - self@.byte_pos,
    {
        self.page_pos - self.byte_pos
    }

    /// The number of bytes below the page cursor.
    pub fn total_bytes(&self) -> (r: usize)
        requires
            self.wf(),
        ensures
            r == self@.page_pos - self@.base,
    {
        self.page_pos - self.base
    }

    /// The number of bytes counted as in use.
    pub fn used_bytes(&self) -> (r: usize)
        ensures
            r == self@.used_bytes,
    {
        self.used_bytes
    }
}


/// Every operation keeps the cursors in order: initialising, allocating pages
/// or bytes, and giving them back all lead from a well-formed state to one.
pub proof fn lemma_operations_keep_wf(
    s: EarlyState,
    start: nat,
    size: nat,
    num_pages: nat,
    align: usize,
    pos: nat,
    page_size: nat,
)
    requires
        s.wf(),
        page_size > 0,
    ensures
        start + size + page_size <= usize::MAX && is_pow2(page_size as usize) && page_size
            <= usize::MAX ==> s.init(start, size, page_size).wf(),
        s.alloc_pages_fits(num_pages, align, page_size) ==> s.alloc_pages(
            num_pages,
            align,
            page_size,
        ).0.wf(),
        s.alloc_fits(size, align) ==> s.alloc_bytes(size, align).0.wf(),
        s.dealloc_pages_fits(pos, num_pages) ==> s.dealloc_pages(pos, num_pages).wf(),
{
    if start + size + page_size <= usize::MAX && is_pow2(page_size as usize) && page_size
        <= usize::MAX {
        lemma_round_bounds((start + size) as int, page_size as int);
    }
    if s.alloc_pages_fits(num_pages, align, page_size) && EarlyState::pages_request_valid(
        num_pages,
        align,
        page_size,
    ) {
        lemma_pow2_positive(align);
        lemma_round_bounds(
            s.page_pos - EarlyState::pages_span(num_pages, align, page_size),
            align as int,
        );
        lemma_round_bounds((num_pages * page_size) as int, align as int);
    }
    if s.alloc_fits(size, align) && is_pow2(align) {
        lemma_pow2_positive(align);
        lemma_round_bounds(s.byte_pos as int, align as int);
        lemma_round_bounds(s.bytes_start(align) + size, align as int);
    }
}

/// A block handed out by `alloc_bytes` is aligned, starts at or above the old
/// byte cursor and ends at or below the new one, which stays below the page
/// cursor; the page side is untouched.
pub proof fn lemma_alloc_bytes_block(s: EarlyState, size: nat, align: usize)
    requires
        s.wf(),
        s.alloc_fits(size, align),
        s.alloc_bytes(size, align).1 is Ok,
    ensures
        ({
            let (t, r) = s.alloc_bytes(size, align);
            let p = r->Ok_0;
            &&& p as int % align as int == 0
            &&& s.byte_pos <= p
            &&& p + size <= t.byte_pos <= t.page_pos
            &&& t.page_pos == s.page_pos
            &&& t.end == s.end
            &&& t.base == s.base
            &&& t.used_bytes >= s.used_bytes + size
        }),
{
    lemma_pow2_positive(align);
    lemma_round_bounds(s.byte_pos as int, align as int);
    lemma_round_bounds(s.bytes_start(align) + size, align as int);
}

/// A run of pages handed out by `alloc_pages` is aligned, lies at or above the
/// byte cursor and below the old page cursor, and is counted as at least
/// `num_pages` used pages.
pub proof fn lemma_alloc_pages_block(s: EarlyState, num_pages: nat, align: usize, page_size: nat)
    requires
        s.wf(),
        page_size > 0,
        s.alloc_pages_fits(num_pages, align, page_size),
        s.alloc_pages(num_pages, align, page_size).1 is Ok,
    ensures
        ({
            let (t, r) = s.alloc_pages(num_pages, align, page_size);
            let p = r->Ok_0;
            &&& p as int % align as int == 0
            &&& t.byte_pos == s.byte_pos <= p
            &&& p + num_pages * page_size <= s.page_pos
            &&& t.page_pos == p
            &&& t.end == s.end
            &&& t.used_pages >= s.used_pages + num_pages
        }),
{
    lemma_pow2_positive(align);
    let span = EarlyState::pages_span(num_pages, align, page_size);
    let target = s.pages_target(num_pages, align, page_size);
    lemma_round_bounds(s.page_pos - span, align as int);
    lemma_round_bounds((num_pages * page_size) as int, align as int);
    assert(s.page_pos - target >= num_pages * page_size);
    assert((s.page_pos - target) / page_size as int >= num_pages) by {
        vstd::arithmetic::div_mod::lemma_div_is_ordered(
            (num_pages * page_size) as int,
            s.page_pos - target,
            page_size as int,
        );
        vstd::arithmetic::div_mod::lemma_div_by_multiple(num_pages as int, page_size as int);
    }
}

/// A refused request changes nothing.
pub proof fn lemma_refusal_keeps_state(s: EarlyState, size: nat, num_pages: nat, align: usize, page_size: nat)
    ensures
        s.alloc_bytes(size, align).1 is Err ==> s.alloc_bytes(size, align).0 == s,
        s.alloc_pages(num_pages, align, page_size).1 is Err ==> s.alloc_pages(
            num_pages,
            align,
            page_size,
        ).0 == s,
{
}

/// After `init(start, size)` the region covers `[start, start + size)`, its end
/// is page-aligned and less than a page past `start + size`, every byte is
/// available, and the whole pages of the region are counted.
pub proof fn lemma_init_region(s: EarlyState, start: nat, size: nat, page_size: nat)
    requires
        page_size > 0,
    ensures
        ({
            let t = s.init(start, size, page_size);
            &&& t.end as int % page_size as int == 0
            &&& start + size <= t.end < start + size + page_size
            &&& t.page_pos - t.byte_pos == t.end - start
            &&& t.total_pages * page_size <= t.end - t.base < (t.total_pages + 1) * page_size
        }),
{
    let t = s.init(start, size, page_size);
    lemma_round_bounds((start + size) as int, page_size as int);
    lemma_round_bounds(t.end - t.base, page_size as int);
    assert((t.end - t.base) / page_size as int * page_size == t.total_pages * page_size);
    assert((t.total_pages + 1) * page_size == t.total_pages * page_size + page_size)
        by (nonlinear_arith);
}

/// Giving back every counted page empties the page area: the page cursor
/// returns to the end of the region.
pub proof fn lemma_release_all_pages(s: EarlyState, pos: nat)
    requires
        s.page_pos <= pos < s.end,
    ensures
        s.dealloc_pages(pos, s.used_pages).used_pages == 0,
        s.dealloc_pages(pos, s.used_pages).page_pos == s.end,
{
}


/// The page cursor and the end of the region stay on page boundaries:
/// `init` aligns the end, and every allocation or release moves the page
/// cursor to a multiple of the page size.
pub proof fn lemma_page_cursor_aligned(
    s: EarlyState,
    start: nat,
    size: nat,
    bytes: nat,
    num_pages: nat,
    align: usize,
    pos: nat,
    page_size: nat,
)
    requires
        s.wf(),
        page_size > 0,
        s.page_pos as int % page_size as int == 0,
        s.end as int % page_size as int == 0,
    ensures
        s.init(start, size, page_size).page_pos as int % page_size as int == 0,
        s.init(start, size, page_size).end as int % page_size as int == 0,
        ({
            let t = s.alloc_pages(num_pages, align, page_size).0;
            s.alloc_pages_fits(num_pages, align, page_size) ==> t.page_pos as int % page_size as int
                == 0 && t.end == s.end
        }),
        ({
            let t = s.alloc_bytes(bytes, align).0;
            t.page_pos == s.page_pos && t.end == s.end
        }),
        ({
            let t = s.dealloc_pages(pos, num_pages);
            t.page_pos as int % page_size as int == 0 && t.end == s.end
        }),
{
    lemma_round_bounds((start + size) as int, page_size as int);
    if s.alloc_pages_fits(num_pages, align, page_size) && EarlyState::pages_request_valid(
        num_pages,
        align,
        page_size,
    ) {
        lemma_pow2_positive(align);
        let target = s.pages_target(num_pages, align, page_size);
        lemma_round_bounds((num_pages * page_size) as int, align as int);
        lemma_round_bounds(s.page_pos - EarlyState::pages_span(num_pages, align, page_size), align as int);
        let q = (s.page_pos - EarlyState::pages_span(num_pages, align, page_size)) / align as int;
        assert(target == q * align);
        let m = align as int / page_size as int;
        assert(align == m * page_size) by {
            vstd::arithmetic::div_mod::lemma_fundamental_div_mod(align as int, page_size as int);
        }
        assert(target == (q * m) * page_size) by {
            vstd::arithmetic::mul::lemma_mul_is_associative(q, m, page_size as int);
        }
        if target >= 0 {
            vstd::arithmetic::div_mod::lemma_mod_multiples_basic(q * m, page_size as int);
        }
    }
}

/// Pages taken with the page size as alignment from a page-aligned cursor are
/// counted exactly; giving them back when nothing else was in use empties
/// the page area again, returning the allocator to where it was.
pub proof fn lemma_pages_round_trip(s: EarlyState, num_pages: nat, page_size: usize)
    requires
        s.wf(),
        is_pow2(page_size),
        s.page_pos as int % page_size as int == 0,
        s.page_pos == s.end,
        s.used_pages == 0,
        s.alloc_pages_fits(num_pages, page_size, page_size as nat),
        s.alloc_pages(num_pages, page_size, page_size as nat).1 is Ok,
    ensures
        ({
            let (t, r) = s.alloc_pages(num_pages, page_size, page_size as nat);
            &&& t.used_pages == num_pages
            &&& t.dealloc_pages(r->Ok_0 as nat, num_pages) == s
        }),
{
    lemma_pow2_positive(page_size);
    let ps = page_size as int;
    let span = EarlyState::pages_span(num_pages, page_size, page_size as nat);
    assert(span == num_pages * ps) by {
        vstd::arithmetic::div_mod::lemma_fundamental_div_mod((num_pages * ps + ps - 1) as int, ps);
        lemma_round_bounds((num_pages * ps) as int, ps);
        vstd::arithmetic::div_mod::lemma_mod_multiples_basic(num_pages as int, ps);
        lemma_round_up_exact(num_pages as int, ps);
    }
    let target = s.pages_target(num_pages, page_size, page_size as nat);
    assert(target == s.page_pos - span) by {
        let q = s.page_pos as int / ps;
        vstd::arithmetic::div_mod::lemma_fundamental_div_mod(s.page_pos as int, ps);
        assert(s.page_pos - span == (q - num_pages) * ps) by (nonlinear_arith)
            requires
                s.page_pos == ps * q,
                span == num_pages * ps,
        ;
        vstd::arithmetic::div_mod::lemma_fundamental_div_mod_converse(
            s.page_pos - span,
            ps,
            q - num_pages,
            0,
        );
    }
    assert((s.page_pos - target) / ps == num_pages) by {
        vstd::arithmetic::div_mod::lemma_div_by_multiple(num_pages as int, ps);
    }
    lemma_alloc_pages_block(s, num_pages, page_size, page_size as nat);
    assert(num_pages * ps > 0) by (nonlinear_arith)
        requires
            num_pages > 0,
            ps > 0,
    ;
}

/// `round_up` of a multiple is the multiple itself.
proof fn lemma_round_up_exact(k: int, a: int)
    requires
        a > 0,
        k >= 0,
    ensures
        round_up(k * a, a) == k * a,
{
    assert((k * a + a - 1) / a == k) by {
        vstd::arithmetic::div_mod::lemma_fundamental_div_mod_converse(k * a + a - 1, a, k, a - 1);
    }
}

/// Freeing a block of the size it was asked for leaves the byte count no
/// lower than before the allocation: the allocator counts the block rounded
/// up to its alignment and uncounts only the size given back.
pub proof fn lemma_freed_bytes_stay_counted(s: EarlyState, size: nat, align: usize)
    requires
        s.wf(),
        s.alloc_fits(size, align),
        s.alloc_bytes(size, align).1 is Ok,
    ensures
        size <= s.alloc_bytes(size, align).0.used_bytes,
        s.alloc_bytes(size, align).0.used_bytes - size >= s.used_bytes,
{
    lemma_alloc_bytes_block(s, size, align);
    lemma_pow2_positive(align);
    lemma_round_bounds(s.bytes_start(align) + size, align as int);
}

} // verus!
