use lua_arch::allocator::{string_reserve_ok, BoundedAllocator};

#[test]
fn fresh_allocation_within_quota_is_granted() {
    let mut a = BoundedAllocator::new();
    let b = a.allocate(100, 40);
    assert!(b.is_some());
    assert_eq!(b.as_ref().unwrap().len(), 40);
    assert_eq!(a.memory_usage(), 40);
    a.free(b.unwrap());
    assert_eq!(a.memory_usage(), 0);
}

#[test]
fn fresh_allocation_over_quota_is_denied() {
    let mut a = BoundedAllocator::new();
    assert!(a.allocate(100, 101).is_none());
    assert_eq!(a.memory_usage(), 0);
}

#[test]
fn allocation_exactly_at_quota_is_granted() {
    let mut a = BoundedAllocator::new();
    let b = a.allocate(100, 100);
    assert!(b.is_some());
    assert_eq!(a.memory_usage(), 100);
    // nothing further fits
    assert!(a.allocate(100, 1).is_none());
    assert_eq!(a.memory_usage(), 100);
    a.free(b.unwrap());
}

#[test]
fn matched_alloc_free_pairs_restore_usage() {
    let mut a = BoundedAllocator::new();
    let keep = a.allocate(1000, 123).unwrap();
    let before = a.memory_usage();
    for size in [5usize, 10, 20, 40] {
        let b = a.allocate(1000, size).unwrap();
        a.free(b);
    }
    assert_eq!(a.memory_usage(), before);
    a.free(keep);
    assert_eq!(a.memory_usage(), 0);
}

#[test]
fn usage_tracks_sum_of_outstanding_blocks() {
    let mut a = BoundedAllocator::new();
    let b1 = a.allocate(1000, 10).unwrap();
    let b2 = a.allocate(1000, 20).unwrap();
    let b3 = a.allocate(1000, 30).unwrap();
    assert_eq!(a.memory_usage(), 60);
    a.free(b2);
    assert_eq!(a.memory_usage(), 40);
    a.free(b1);
    a.free(b3);
    assert_eq!(a.memory_usage(), 0);
}

#[test]
fn failed_resize_leaves_block_untouched() {
    let mut a = BoundedAllocator::new();
    let mut b = a.allocate(100, 10).unwrap();
    // canary sentinel written before the failed resize
    b[0] = 0xAB;
    b[9] = 0xCD;
    let r = a.resize(100, b, 200);
    match r {
        Err(original) => {
            assert_eq!(original.len(), 10);
            assert_eq!(original[0], 0xAB);
            assert_eq!(original[9], 0xCD);
            assert_eq!(a.memory_usage(), 10);
            a.free(original);
        }
        Ok(_) => panic!("resize past the quota must be denied"),
    }
}

#[test]
fn successful_resize_preserves_prefix_and_zeroes_growth() {
    let mut a = BoundedAllocator::new();
    let mut b = a.allocate(100, 4).unwrap();
    b[0] = 1;
    b[1] = 2;
    b[2] = 3;
    b[3] = 4;
    let grown = a.resize(100, b, 8).unwrap();
    assert_eq!(grown.len(), 8);
    assert_eq!(&grown[..4], &[1, 2, 3, 4]);
    assert_eq!(&grown[4..], &[0, 0, 0, 0]);
    assert_eq!(a.memory_usage(), 8);
    let shrunk = a.resize(100, grown, 2).unwrap();
    assert_eq!(shrunk.len(), 2);
    assert_eq!(&shrunk[..], &[1, 2]);
    assert_eq!(a.memory_usage(), 2);
    a.free(shrunk);
}

#[test]
fn resize_is_checked_against_net_increase_not_gross_size() {
    let mut a = BoundedAllocator::new();
    let b = a.allocate(100, 80).unwrap();
    // gross size 80 + 100 would exceed the quota, but the net result is
    // exactly the quota, so the grow must be granted
    let grown = a.resize(100, b, 100).unwrap();
    assert_eq!(grown.len(), 100);
    assert_eq!(a.memory_usage(), 100);
    a.free(grown);
}

#[test]
fn shrink_never_fails_even_at_full_quota() {
    let mut a = BoundedAllocator::new();
    let b = a.allocate(100, 100).unwrap();
    let shrunk = a.resize(100, b, 50);
    assert!(shrunk.is_ok());
    assert_eq!(a.memory_usage(), 50);
    a.free(shrunk.unwrap());
}

#[test]
fn quota_in_effect_at_call_time_decides() {
    let mut a = BoundedAllocator::new();
    let b = a.allocate(1000, 500).unwrap();
    // the quota shrank between calls: the next request sees the new figure
    assert!(a.allocate(600, 200).is_none());
    let c = a.allocate(800, 200);
    assert!(c.is_some());
    a.free(b);
    a.free(c.unwrap());
}

#[test]
fn string_reserve_margin() {
    // twice the length plus 64 bytes of overhead must fit the free space
    assert!(string_reserve_ok(0, 1000, 100));
    assert!(!string_reserve_ok(900, 1000, 100));
    assert!(string_reserve_ok(0, 74, 5));
    assert!(!string_reserve_ok(0, 73, 5));
    assert!(!string_reserve_ok(5, 74, 5));
}
