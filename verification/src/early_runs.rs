//! The early allocator over whole runs of operations: what holds after any
//! sequence of calls, not just after one.
use vstd::prelude::*;
use crate::align::{is_pow2, lemma_round_bounds, lemma_pow2_positive};
use crate::early::{
    AllocError, EarlyState, lemma_operations_keep_wf, lemma_alloc_bytes_block,
    lemma_alloc_pages_block, lemma_page_cursor_aligned,
};

verus! {

/// One call on an early allocator, with its arguments.
pub enum EarlyOp {
    Init { start: nat, size: nat },
    AddMemory,
    AllocBytes { size: nat, align: usize },
    Dealloc { size: nat },
    AllocPages { num_pages: nat, align: usize },
    DeallocPages { pos: nat, num_pages: nat },
}

/// The state after `op`, and what it returns when it returns a result.
pub open spec fn step(s: EarlyState, op: EarlyOp, page_size: nat) -> (EarlyState, Option<Result<usize, AllocError>>) {
    match op {
        EarlyOp::Init { start, size } => (s.init(start, size, page_size), None),
        EarlyOp::AddMemory => (s, Some(Err(AllocError::MemoryOverlap))),
        EarlyOp::AllocBytes { size, align } => (s.alloc_bytes(size, align).0, Some(s.alloc_bytes(size, align).1)),
        EarlyOp::Dealloc { size } => (s.dealloc(size), None),
        EarlyOp::AllocPages { num_pages, align } => (
            s.alloc_pages(num_pages, align, page_size).0,
            Some(s.alloc_pages(num_pages, align, page_size).1),
        ),
        EarlyOp::DeallocPages { pos, num_pages } => (s.dealloc_pages(pos, num_pages), None),
    }
}

/// `op` may be called on `s`: the call's `requires` holds.
pub open spec fn admits(s: EarlyState, op: EarlyOp, page_size: nat) -> bool {
    match op {
        EarlyOp::Init { start, size } => is_pow2(page_size as usize) && page_size <= usize::MAX
            && start + size + page_size <= usize::MAX,
        EarlyOp::AddMemory => true,
        EarlyOp::AllocBytes { size, align } => s.alloc_fits(size, align),
        EarlyOp::Dealloc { size } => size <= s.used_bytes,
        EarlyOp::AllocPages { num_pages, align } => s.alloc_pages_fits(num_pages, align, page_size),
        EarlyOp::DeallocPages { pos, num_pages } => s.dealloc_pages_fits(pos, num_pages),
    }
}

/// The state after the calls `ops`, one after another, from `s`.
pub open spec fn run(s: EarlyState, ops: Seq<EarlyOp>, page_size: nat) -> EarlyState
    decreases ops.len(),
{
    if ops.len() == 0 {
        s
    } else {
        step(run(s, ops.drop_last(), page_size), ops.last(), page_size).0
    }
}

/// What call `i` of `ops` returns, when it returns a result.
pub open spec fn outcome(s: EarlyState, ops: Seq<EarlyOp>, page_size: nat, i: int) -> Option<Result<usize, AllocError>> {
    step(run(s, ops.take(i), page_size), ops[i], page_size).1
}

/// Every call of `ops` is admitted in the state it is made in.
pub open spec fn admitted(s: EarlyState, ops: Seq<EarlyOp>, page_size: nat) -> bool {
    forall|i: int| 0 <= i < ops.len() ==> admits(run(s, ops.take(i), page_size), #[trigger] ops[i], page_size)
}

/// `ops` does not re-initialise the allocator.
pub open spec fn no_init(ops: Seq<EarlyOp>) -> bool {
    forall|i: int| 0 <= i < ops.len() ==> !(#[trigger] ops[i] is Init)
}

/// The calls `ops[from..to]` give no pages back.
pub open spec fn no_page_release_in(ops: Seq<EarlyOp>, from: int, to: int) -> bool {
    forall|i: int| from <= i < to ==> !(#[trigger] ops[i] is DeallocPages)
}

proof fn lemma_run_prefix(s: EarlyState, ops: Seq<EarlyOp>, page_size: nat, i: int)
    requires
        0 <= i < ops.len(),
    ensures
        run(s, ops.take(i + 1), page_size) == step(run(s, ops.take(i), page_size), ops[i], page_size).0,
{
    assert(ops.take(i + 1).drop_last() =~= ops.take(i));
    assert(ops.take(i + 1).last() == ops[i]);
}

/// Along an admitted run every state is well formed.
pub proof fn lemma_run_wf(s: EarlyState, ops: Seq<EarlyOp>, page_size: nat, n: int)
    requires
        s.wf(),
        page_size > 0,
        admitted(s, ops, page_size),
        0 <= n <= ops.len(),
    ensures
        run(s, ops.take(n), page_size).wf(),
    decreases n,
{
    if n == 0 {
        assert(ops.take(0) =~= Seq::<EarlyOp>::empty());
    } else {
        lemma_run_wf(s, ops, page_size, n - 1);
        lemma_run_prefix(s, ops, page_size, n - 1);
        let t = run(s, ops.take(n - 1), page_size);
        assert(admits(t, ops[n - 1], page_size));
        match ops[n - 1] {
            EarlyOp::Init { start, size } => {
                lemma_operations_keep_wf(t, start, size, 0, 1, 0, page_size);
            },
            EarlyOp::AddMemory => {},
            EarlyOp::AllocBytes { size, align } => {
                lemma_operations_keep_wf(t, 0, size, 0, align, 0, page_size);
            },
            EarlyOp::Dealloc { size } => {},
            EarlyOp::AllocPages { num_pages, align } => {
                lemma_operations_keep_wf(t, 0, 0, num_pages, align, 0, page_size);
            },
            EarlyOp::DeallocPages { pos, num_pages } => {
                lemma_operations_keep_wf(t, 0, 0, num_pages, 1, pos, page_size);
            },
        }
    }
}

/// Without re-initialisation the byte cursor never moves down, and over calls
/// that give no pages back the page cursor never moves up.
pub proof fn lemma_cursors_monotone(s: EarlyState, ops: Seq<EarlyOp>, page_size: nat, m: int, n: int)
    requires
        s.wf(),
        page_size > 0,
        admitted(s, ops, page_size),
        no_init(ops),
        0 <= m <= n <= ops.len(),
    ensures
        run(s, ops.take(m), page_size).byte_pos <= run(s, ops.take(n), page_size).byte_pos,
        no_page_release_in(ops, m, n) ==> run(s, ops.take(n), page_size).page_pos <= run(
            s,
            ops.take(m),
            page_size,
        ).page_pos,
    decreases n - m,
{
    if m < n {
        lemma_cursors_monotone(s, ops, page_size, m, n - 1);
        lemma_run_prefix(s, ops, page_size, n - 1);
        lemma_run_wf(s, ops, page_size, n - 1);
        let t = run(s, ops.take(n - 1), page_size);
        assert(admits(t, ops[n - 1], page_size));
        assert(!(ops[n - 1] is Init));
        match ops[n - 1] {
            EarlyOp::AllocBytes { size, align } => {
                if t.alloc_bytes(size, align).1 is Ok {
                    lemma_alloc_bytes_block(t, size, align);
                }
            },
            EarlyOp::AllocPages { num_pages, align } => {
                if t.alloc_pages(num_pages, align, page_size).1 is Ok {
                    lemma_alloc_pages_block(t, num_pages, align, page_size);
                }
            },
            EarlyOp::DeallocPages { pos, num_pages } => {
                assert(!no_page_release_in(ops, m, n) || !(ops[n - 1] is DeallocPages));
            },
            _ => {},
        }
    }
}

/// Byte blocks are handed out at increasing addresses and never overlap:
/// in a run without re-initialisation, a block returned by an earlier
/// `alloc_bytes` ends at or below the start of any later one, whatever
/// other calls (frees included) come between.
pub proof fn lemma_byte_blocks_increase(s: EarlyState, ops: Seq<EarlyOp>, page_size: nat, i: int, j: int)
    requires
        s.wf(),
        page_size > 0,
        admitted(s, ops, page_size),
        no_init(ops),
        0 <= i < j < ops.len(),
        ops[i] is AllocBytes,
        ops[j] is AllocBytes,
        outcome(s, ops, page_size, i) matches Some(Ok(_)),
        outcome(s, ops, page_size, j) matches Some(Ok(_)),
    ensures
        outcome(s, ops, page_size, i)->0->Ok_0 + ops[i]->AllocBytes_size <= outcome(
            s,
            ops,
            page_size,
            j,
        )->0->Ok_0,
{
    let ti = run(s, ops.take(i), page_size);
    let tj = run(s, ops.take(j), page_size);
    lemma_run_wf(s, ops, page_size, i);
    lemma_run_wf(s, ops, page_size, j);
    lemma_run_prefix(s, ops, page_size, i);
    assert(admits(ti, ops[i], page_size));
    assert(admits(tj, ops[j], page_size));
    lemma_alloc_bytes_block(ti, ops[i]->AllocBytes_size, ops[i]->AllocBytes_align);
    lemma_alloc_bytes_block(tj, ops[j]->AllocBytes_size, ops[j]->AllocBytes_align);
    lemma_cursors_monotone(s, ops, page_size, i + 1, j);
}

/// Page runs never overlap each other nor byte blocks: in a run without
/// re-initialisation, a page run returned by a later `alloc_pages` ends at or
/// below the start of an earlier one when no pages were given back in
/// between; every byte block returned before a page run ends at or below its
/// start, and so does every byte block returned after it when no pages were
/// given back in between. Releases before the first of the two calls do not
/// matter.
#[verifier::spinoff_prover]
#[verifier::rlimit(40)]
pub proof fn lemma_page_blocks_disjoint(s: EarlyState, ops: Seq<EarlyOp>, page_size: nat, i: int, j: int)
    requires
        s.wf(),
        page_size > 0,
        admitted(s, ops, page_size),
        no_init(ops),
        0 <= i < ops.len(),
        0 <= j < ops.len(),
        i != j,
        ops[i] is AllocPages,
        outcome(s, ops, page_size, i) matches Some(Ok(_)),
        outcome(s, ops, page_size, j) matches Some(Ok(_)),
    ensures
        ({
            let p = outcome(s, ops, page_size, i)->0->Ok_0;
            let q = outcome(s, ops, page_size, j)->0->Ok_0;
            &&& (ops[j] is AllocPages && i < j && no_page_release_in(ops, i + 1, j)) ==> q
                + ops[j]->AllocPages_num_pages * page_size <= p
            &&& (ops[j] is AllocBytes && j < i) ==> q + ops[j]->AllocBytes_size <= p
            &&& (ops[j] is AllocBytes && i < j && no_page_release_in(ops, i + 1, j)) ==> q
                + ops[j]->AllocBytes_size <= p
        }),
{
    let ti = run(s, ops.take(i), page_size);
    let tj = run(s, ops.take(j), page_size);
    lemma_run_wf(s, ops, page_size, i);
    lemma_run_wf(s, ops, page_size, j);
    lemma_run_prefix(s, ops, page_size, i);
    lemma_run_prefix(s, ops, page_size, j);
    assert(admits(ti, ops[i], page_size));
    assert(admits(tj, ops[j], page_size));
    lemma_alloc_pages_block(ti, ops[i]->AllocPages_num_pages, ops[i]->AllocPages_align, page_size);
    if ops[j] is AllocPages {
        lemma_alloc_pages_block(tj, ops[j]->AllocPages_num_pages, ops[j]->AllocPages_align, page_size);
        if i < j {
            lemma_cursors_monotone(s, ops, page_size, i + 1, j);
        }
    }
    if ops[j] is AllocBytes {
        lemma_alloc_bytes_block(tj, ops[j]->AllocBytes_size, ops[j]->AllocBytes_align);
        if j < i {
            lemma_cursors_monotone(s, ops, page_size, j + 1, i);
        } else {
            lemma_cursors_monotone(s, ops, page_size, i + 1, j);
            lemma_cursors_monotone(s, ops, page_size, i + 1, j + 1);
            lemma_run_wf(s, ops, page_size, j + 1);
            if no_page_release_in(ops, i + 1, j) {
                assert(no_page_release_in(ops, i + 1, j + 1));
            }
        }
    }
}

/// `init` on an allocator that counts no pages leaves its page bookkeeping
/// consistent.
pub proof fn lemma_init_sound(s: EarlyState, start: nat, size: nat, page_size: nat)
    requires
        s.wf(),
        s.used_pages == 0,
        is_pow2(page_size as usize),
        page_size <= usize::MAX,
        start + size + page_size <= usize::MAX,
    ensures
        s.init(start, size, page_size).sound(page_size),
{
    lemma_pow2_positive(page_size as usize);
    lemma_operations_keep_wf(s, start, size, 0, 1, 0, page_size);
    lemma_round_bounds((start + size) as int, page_size as int);
}

/// Consistent page bookkeeping bounds the counters: no more pages are counted
/// than the region has, so `available_pages` is defined, and the free bytes
/// are among the bytes below the page cursor.
pub proof fn lemma_sound_counts(s: EarlyState, page_size: nat)
    requires
        page_size > 0,
        s.sound(page_size),
    ensures
        s.used_pages <= s.total_pages,
        s.page_pos - s.byte_pos <= s.page_pos - s.base,
{
    let x = s.end - s.base;
    assert(s.used_pages * page_size <= x);
    vstd::arithmetic::div_mod::lemma_div_is_ordered((s.used_pages * page_size) as int, x, page_size as int);
    vstd::arithmetic::div_mod::lemma_div_by_multiple(s.used_pages as int, page_size as int);
}

/// Every call other than `init` keeps the page bookkeeping consistent.
#[verifier::spinoff_prover]
pub proof fn lemma_step_sound(t: EarlyState, op: EarlyOp, page_size: nat)
    requires
        page_size > 0,
        t.sound(page_size),
        admits(t, op, page_size),
        !(op is Init),
    ensures
        step(t, op, page_size).0.sound(page_size),
{
    match op {
        EarlyOp::AllocBytes { size, align } => {
            lemma_operations_keep_wf(t, 0, size, 0, align, 0, page_size);
            let u = t.alloc_bytes(size, align).0;
            if t.alloc_bytes(size, align).1 is Ok {
                lemma_alloc_bytes_block(t, size, align);
            }
            assert(u.used_pages * page_size == t.used_pages * page_size);
        },
        EarlyOp::AllocPages { num_pages, align } => {
            lemma_operations_keep_wf(t, 0, 0, num_pages, align, 0, page_size);
            lemma_page_cursor_aligned(t, 0, 0, 0, num_pages, align, 0, page_size);
            let (u, r) = t.alloc_pages(num_pages, align, page_size);
            if r is Ok {
                lemma_alloc_pages_block(t, num_pages, align, page_size);
                let d = t.page_pos - u.page_pos;
                lemma_round_bounds(d, page_size as int);
                assert(u.used_pages * page_size == t.used_pages * page_size + (d / page_size as int)
                    * page_size) by (nonlinear_arith)
                    requires
                        u.used_pages == t.used_pages + d / page_size as int,
                ;
            }
        },
        EarlyOp::DeallocPages { pos, num_pages } => {
            lemma_operations_keep_wf(t, 0, 0, num_pages, 1, pos, page_size);
            lemma_page_cursor_aligned(t, 0, 0, 0, num_pages, 1, pos, page_size);
            let u = t.dealloc_pages(pos, num_pages);
            assert(u.used_pages * page_size <= t.used_pages * page_size) by (nonlinear_arith)
                requires
                    u.used_pages <= t.used_pages,
            ;
            if u.used_pages == 0 {
                assert(u.used_pages * page_size == 0) by (nonlinear_arith)
                    requires
                        u.used_pages == 0,
                ;
            }
            assert(u.used_pages * page_size <= u.end - u.page_pos);
        },
        EarlyOp::Dealloc { size } => {
            let u = t.dealloc(size);
            assert(u.used_pages * page_size == t.used_pages * page_size);
        },
        EarlyOp::AddMemory => {
            assert(step(t, op, page_size).0 == t);
        },
        EarlyOp::Init { start, size } => {},
    }
}

/// From a fresh allocator, one `init` and then any admitted calls that do
/// not re-initialise it, the page bookkeeping stays consistent; in
/// particular the cursors stay in order and page-aligned, and no more pages
/// are counted than the region has.
pub proof fn lemma_run_sound(s: EarlyState, ops: Seq<EarlyOp>, page_size: nat, n: int)
    requires
        page_size > 0,
        s.sound(page_size),
        admitted(s, ops, page_size),
        no_init(ops),
        0 <= n <= ops.len(),
    ensures
        run(s, ops.take(n), page_size).sound(page_size),
        run(s, ops.take(n), page_size).used_pages <= run(s, ops.take(n), page_size).total_pages,
    decreases n,
{
    if n == 0 {
        assert(ops.take(0) =~= Seq::<EarlyOp>::empty());
    } else {
        lemma_run_sound(s, ops, page_size, n - 1);
        lemma_run_prefix(s, ops, page_size, n - 1);
        let t = run(s, ops.take(n - 1), page_size);
        assert(admits(t, ops[n - 1], page_size));
        assert(!(ops[n - 1] is Init));
        lemma_step_sound(t, ops[n - 1], page_size);
    }
    lemma_sound_counts(run(s, ops.take(n), page_size), page_size);
}

} // verus!
