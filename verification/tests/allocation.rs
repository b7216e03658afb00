use syscall_encode::abi::Allocation;

/// Reservations respect alignment and never overlap: each range starts
/// at or past the end of the one before it.
#[test]
fn reserve_alignment_and_disjointness() {
    let mut alloc = Allocation::with_capacity(64);
    let a = alloc.reserve(10, 1).unwrap();
    assert_eq!(a, 0);
    let b = alloc.reserve(4, 8).unwrap();
    assert_eq!(b, 16);
    assert_eq!(b % 8, 0);
    assert!(b >= a + 10);
    let c = alloc.reserve(1, 1).unwrap();
    assert_eq!(c, 20);
    assert!(c >= b + 4);
    // Not enough room left for this one.
    assert_eq!(alloc.reserve(100, 1), None);
    // But a byte that still fits is handed out past everything else.
    let d = alloc.reserve(1, 1).unwrap();
    assert!(d >= c + 1);
}

/// Repeated identical reservations walk forward in lockstep.
#[test]
fn reserve_idempotence() {
    let mut alloc = Allocation::with_capacity(64);
    let mut last: Option<usize> = None;
    for _ in 0..8 {
        let off = alloc.reserve(8, 8).unwrap();
        assert_eq!(off % 8, 0);
        if let Some(prev) = last {
            assert!(off >= prev + 8);
        }
        last = Some(off);
    }
    assert_eq!(alloc.reserve(8, 8), None);
}

/// The null allocation satisfies nothing.
#[test]
fn null_allocation() {
    let mut alloc = Allocation::null();
    assert!(alloc.is_null());
    assert_eq!(alloc.reserve(1, 1), None);
    assert!(!Allocation::with_capacity(0).is_null());
}

/// Alignment larger than the region can never be satisfied once any
/// byte is taken off a smaller offset.
#[test]
fn reserve_alignment_failure() {
    let mut alloc = Allocation::with_capacity(16);
    assert_eq!(alloc.reserve(1, 1), Some(0));
    assert_eq!(alloc.reserve(1, 32), None);
}
