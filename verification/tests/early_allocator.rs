use arceos_loader::early::{AllocError, EarlyAllocator};

const PAGE: usize = 4096;

fn fresh() -> EarlyAllocator<PAGE> {
    let mut a = EarlyAllocator::<PAGE>::new();
    a.init(0x1000, 0x2800);
    a
}

#[test]
fn new_allocator_manages_nothing() {
    let a = EarlyAllocator::<PAGE>::new();
    assert_eq!(a.total_pages(), 0);
    assert_eq!(a.used_pages(), 0);
    assert_eq!(a.used_bytes(), 0);
    assert_eq!(a.available_bytes(), 0);
    assert_eq!(a.total_bytes(), 0);
    assert_eq!(a.available_pages(), 0);
}

#[test]
fn init_rounds_end_up_to_a_page() {
    let a = fresh();
    // 0x1000 + 0x2800 = 0x3800, rounded up to 0x4000.
    assert_eq!(a.total_bytes(), 0x3000);
    assert_eq!(a.available_bytes(), 0x3000);
    assert_eq!(a.total_pages(), 3);
    assert_eq!(a.available_pages(), 3);
}

#[test]
fn init_with_unaligned_start_counts_whole_pages() {
    let mut a = EarlyAllocator::<PAGE>::new();
    a.init(0x1800, 0x1000);
    // end = round_up(0x2800) = 0x3000; (0x3000 - 0x1800) / 0x1000 = 1
    assert_eq!(a.total_pages(), 1);
    assert_eq!(a.total_bytes(), 0x1800);
}

#[test]
fn alloc_bytes_rounds_to_alignment() {
    let mut a = fresh();
    assert_eq!(a.alloc_bytes(10, 8), Ok(0x1000));
    assert_eq!(a.used_bytes(), 16);
    assert_eq!(a.available_bytes(), 0x4000 - 0x1010);
    assert_eq!(a.alloc_bytes(1, 64), Ok(0x1040));
    assert_eq!(a.used_bytes(), 16 + 64);
    assert_eq!(a.available_bytes(), 0x4000 - 0x1080);
}

#[test]
fn alloc_bytes_rejects_non_power_of_two_alignment() {
    let mut a = fresh();
    assert_eq!(a.alloc_bytes(8, 3), Err(AllocError::InvalidParam));
    assert_eq!(a.alloc_bytes(8, 0), Err(AllocError::InvalidParam));
    assert_eq!(a.used_bytes(), 0);
    assert_eq!(a.available_bytes(), 0x3000);
}

#[test]
fn alloc_bytes_out_of_room() {
    let mut a = fresh();
    assert_eq!(a.alloc_bytes(0x3001, 1), Err(AllocError::NoMemory));
    assert_eq!(a.available_bytes(), 0x3000);
    assert_eq!(a.alloc_bytes(0x3000, 1), Ok(0x1000));
    assert_eq!(a.available_bytes(), 0);
}

#[test]
fn alloc_pages_from_the_top() {
    let mut a = fresh();
    assert_eq!(a.alloc_pages(1, PAGE), Ok(0x3000));
    assert_eq!(a.used_pages(), 1);
    assert_eq!(a.available_pages(), 2);
    assert_eq!(a.total_bytes(), 0x2000);
    assert_eq!(a.alloc_pages(1, PAGE), Ok(0x2000));
    assert_eq!(a.used_pages(), 2);
}

#[test]
fn alloc_pages_with_larger_alignment_counts_the_gap() {
    let mut a = EarlyAllocator::<PAGE>::new();
    a.init(0x1000, 0x7000);
    // page cursor 0x8000; one page aligned to 0x4000: span 0x4000, cursor 0x4000
    assert_eq!(a.alloc_pages(1, 0x4000), Ok(0x4000));
    assert_eq!(a.used_pages(), 4);
}

#[test]
fn alloc_pages_rejects_bad_requests() {
    let mut a = fresh();
    assert_eq!(a.alloc_pages(1, 100), Err(AllocError::InvalidParam));
    assert_eq!(a.alloc_pages(1, 3 * PAGE), Err(AllocError::InvalidParam));
    assert_eq!(a.alloc_pages(0, PAGE), Err(AllocError::InvalidParam));
    assert_eq!(a.used_pages(), 0);
    assert_eq!(a.total_bytes(), 0x3000);
}

#[test]
fn alloc_pages_out_of_room() {
    let mut a = fresh();
    assert_eq!(a.alloc_bytes(1, 1), Ok(0x1000));
    // three pages would reach down to 0x1000, below the byte cursor 0x1001
    assert_eq!(a.alloc_pages(3, PAGE), Err(AllocError::NoMemory));
    assert_eq!(a.used_pages(), 0);
    assert_eq!(a.alloc_pages(2, PAGE), Ok(0x2000));
}

#[test]
fn add_memory_is_refused() {
    let mut a = fresh();
    assert_eq!(a.add_memory(0x10_0000, 0x1000), Err(AllocError::MemoryOverlap));
    assert_eq!(a.total_pages(), 3);
}

#[test]
fn dealloc_lowers_byte_count_only() {
    let mut a = fresh();
    assert_eq!(a.alloc_bytes(10, 8), Ok(0x1000));
    a.dealloc(0x1000, 10, 8);
    assert_eq!(a.used_bytes(), 6);
    assert_eq!(a.available_bytes(), 0x4000 - 0x1010);
}

#[test]
fn dealloc_pages_outside_page_area_is_ignored() {
    let mut a = fresh();
    assert_eq!(a.alloc_pages(1, PAGE), Ok(0x3000));
    a.dealloc_pages(0x1000, 1);
    assert_eq!(a.used_pages(), 1);
    a.dealloc_pages(0x4000, 1);
    assert_eq!(a.used_pages(), 1);
}

#[test]
fn pages_round_trip_restores_the_page_area() {
    let mut a = fresh();
    let p = a.alloc_pages(2, PAGE).unwrap();
    assert_eq!(p, 0x2000);
    assert_eq!(a.used_pages(), 2);
    a.dealloc_pages(p, 2);
    assert_eq!(a.used_pages(), 0);
    assert_eq!(a.total_bytes(), 0x3000);
    assert_eq!(a.alloc_pages(1, PAGE), Ok(0x3000));
}

#[test]
fn partial_page_release_keeps_cursor() {
    let mut a = fresh();
    assert_eq!(a.alloc_pages(1, PAGE), Ok(0x3000));
    assert_eq!(a.alloc_pages(1, PAGE), Ok(0x2000));
    a.dealloc_pages(0x3000, 1);
    assert_eq!(a.used_pages(), 1);
    assert_eq!(a.total_bytes(), 0x1000);
}

#[test]
fn successive_blocks_do_not_overlap() {
    let mut a = fresh();
    let b1 = a.alloc_bytes(24, 8).unwrap();
    let p1 = a.alloc_pages(1, PAGE).unwrap();
    let b2 = a.alloc_bytes(100, 16).unwrap();
    let p2 = a.alloc_pages(1, PAGE).unwrap();
    assert!(b1 + 24 <= b2);
    assert!(b2 + 100 <= p2);
    assert!(p2 + PAGE <= p1);
    assert_eq!(b2 % 16, 0);
    assert_eq!(p1 % PAGE, 0);
    assert_eq!(p2 % PAGE, 0);
}

#[test]
fn refused_request_changes_nothing() {
    let mut a = fresh();
    assert_eq!(a.alloc_bytes(8, 8), Ok(0x1000));
    let (ub, ab, up, tb) = (a.used_bytes(), a.available_bytes(), a.used_pages(), a.total_bytes());
    assert_eq!(a.alloc_bytes(0x4000, 8), Err(AllocError::NoMemory));
    assert_eq!(a.alloc_pages(3, PAGE), Err(AllocError::NoMemory));
    assert_eq!((a.used_bytes(), a.available_bytes(), a.used_pages(), a.total_bytes()), (ub, ab, up, tb));
}

#[test]
fn freed_bytes_stay_counted_when_rounded() {
    let mut a = fresh();
    assert_eq!(a.alloc_bytes(3, 16), Ok(0x1000));
    a.dealloc(0x1000, 3, 16);
    assert_eq!(a.used_bytes(), 13);
}

#[test]
fn init_keeps_usage_counters() {
    let mut a = fresh();
    assert_eq!(a.alloc_bytes(8, 8), Ok(0x1000));
    assert_eq!(a.alloc_pages(1, PAGE), Ok(0x3000));
    a.init(0x10_0000, 0x1000);
    assert_eq!(a.used_bytes(), 8);
    assert_eq!(a.used_pages(), 1);
    assert_eq!(a.total_pages(), 1);
    assert_eq!(a.available_bytes(), 0x1000);
}

#[test]
fn blocks_stay_disjoint_over_a_long_run() {
    let mut a = EarlyAllocator::<PAGE>::new();
    a.init(0x10_0000, 0x20_0000);
    let mut bytes: Vec<(usize, usize)> = Vec::new();
    let mut pages: Vec<(usize, usize)> = Vec::new();
    for k in 1..40usize {
        let size = (k * 37) % 300 + 1;
        let align = 1usize << (k % 7);
        let b = a.alloc_bytes(size, align).unwrap();
        assert_eq!(b % align, 0);
        if let Some(&(q, s)) = bytes.last() {
            assert!(q + s <= b);
        }
        bytes.push((b, size));
        if k % 3 == 0 {
            a.dealloc(b, size, align);
        }
        if k % 4 == 0 {
            let n = k % 3 + 1;
            let p = a.alloc_pages(n, PAGE).unwrap();
            if let Some(&(q, _)) = pages.last() {
                assert!(p + n * PAGE <= q);
            }
            pages.push((p, n));
        }
        assert!(a.used_pages() <= a.total_pages());
        assert!(a.available_bytes() <= a.total_bytes());
    }
    for &(q, s) in &bytes {
        for &(p, _) in &pages {
            assert!(q + s <= p);
        }
    }
    assert_eq!(a.available_pages(), a.total_pages() - a.used_pages());
}

#[test]
fn page_runs_stay_disjoint_after_an_earlier_release() {
    let mut a = fresh();
    let p = a.alloc_pages(2, PAGE).unwrap();
    a.dealloc_pages(p, 2);
    let b = a.alloc_bytes(100, 8).unwrap();
    let p1 = a.alloc_pages(1, PAGE).unwrap();
    let b2 = a.alloc_bytes(50, 8).unwrap();
    let p2 = a.alloc_pages(1, PAGE).unwrap();
    assert_eq!((p1, p2), (0x3000, 0x2000));
    assert!(p2 + PAGE <= p1);
    assert!(b + 100 <= p2);
    assert!(b2 + 50 <= p2);
}
