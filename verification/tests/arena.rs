use aifw_regex::arena::{place, Allocation, Arena};

#[test]
fn place_rounds_the_address_up() {
    assert_eq!(place(1000, 64, 0, 8, 8), Some((1000, 8)));
    assert_eq!(place(1000, 64, 1, 8, 8), Some((1008, 16)));
    assert_eq!(place(1001, 64, 0, 4, 16), Some((1008, 11)));
    assert_eq!(place(1000, 64, 8, 1, 1), Some((1008, 9)));
    assert_eq!(place(1000, 64, 3, 0, 4), Some((1004, 4)));
}

#[test]
fn place_fills_the_region_to_its_last_byte() {
    assert_eq!(place(1000, 64, 0, 64, 1), Some((1000, 64)));
    assert_eq!(place(1000, 64, 56, 8, 8), Some((1056, 64)));
    assert_eq!(place(1000, 64, 64, 0, 1), Some((1064, 64)));
}

#[test]
fn place_refuses_what_does_not_fit() {
    assert_eq!(place(1000, 64, 0, 65, 1), None);
    assert_eq!(place(1000, 64, 57, 8, 8), None);
    assert_eq!(place(1000, 64, 64, 1, 1), None);
    assert_eq!(place(1000, 64, 65, 0, 1), None);
    assert_eq!(place(1000, 64, usize::MAX, 0, 1), None);
    assert_eq!(place(1000, 64, 0, usize::MAX, 1), None);
    assert_eq!(place(usize::MAX - 3, 3, 1, 0, 16), None);
}

#[test]
fn place_takes_any_positive_alignment() {
    assert_eq!(place(100, 64, 0, 5, 3), Some((102, 7)));
    assert_eq!(place(100, 64, 7, 5, 7), Some((112, 17)));
}

#[test]
fn new_refuses_a_region_past_the_address_space() {
    assert!(Arena::new(usize::MAX, 1).is_none());
    assert!(Arena::new(usize::MAX - 4, 4).is_some());
    assert!(Arena::new(0, usize::MAX).is_some());
    assert!(Arena::new(1, usize::MAX).is_none());
}

#[test]
fn arena_reports_its_region() {
    let arena = Arena::new(4096, 256).unwrap();
    assert_eq!(arena.base_address(), 4096);
    assert_eq!(arena.size(), 256);
}

#[test]
fn allocate_bumps_the_cursor() {
    let arena = Arena::new(4096, 64).unwrap();
    assert_eq!(arena.allocate(3, 1), Allocation::Granted(4096));
    assert_eq!(arena.allocate(8, 8), Allocation::Granted(4104));
    assert_eq!(arena.allocate(1, 1), Allocation::Granted(4112));
    assert_eq!(arena.allocate(4, 4), Allocation::Granted(4116));
    assert_eq!(arena.allocate(0, 16), Allocation::Granted(4128));
}

#[test]
fn allocate_fails_once_the_region_is_used_up() {
    let arena = Arena::new(4096, 32).unwrap();
    assert_eq!(arena.allocate(16, 8), Allocation::Granted(4096));
    assert_eq!(arena.allocate(16, 8), Allocation::Granted(4112));
    assert_eq!(arena.allocate(1, 1), Allocation::Exhausted);
    assert_eq!(arena.allocate(16, 8), Allocation::Exhausted);
    assert_eq!(arena.allocate(1, 1), Allocation::Exhausted);
}

#[test]
fn a_refused_request_changes_nothing() {
    let arena = Arena::new(4096, 32).unwrap();
    assert_eq!(arena.allocate(8, 8), Allocation::Granted(4096));
    assert_eq!(arena.allocate(100, 1), Allocation::Exhausted);
    assert_eq!(arena.allocate(8, 8), Allocation::Granted(4104));
    assert_eq!(arena.allocate(17, 1), Allocation::Exhausted);
    assert_eq!(arena.allocate(16, 1), Allocation::Granted(4112));
    assert_eq!(arena.allocate(0, 1), Allocation::Granted(4128));
}

#[test]
fn deallocate_gives_nothing_back() {
    let arena = Arena::new(4096, 16).unwrap();
    assert_eq!(arena.allocate(16, 1), Allocation::Granted(4096));
    arena.deallocate(4096);
    assert_eq!(arena.allocate(1, 1), Allocation::Exhausted);
}

#[test]
fn granted_ranges_are_disjoint_and_aligned() {
    let arena = Arena::new(12345, 4096).unwrap();
    let requests: [(usize, usize); 8] =
        [(1, 1), (24, 8), (3, 2), (100, 64), (7, 4), (0, 32), (512, 16), (9, 128)];
    let mut ranges: Vec<(usize, usize)> = Vec::new();
    for (size, align) in requests {
        match arena.allocate(size, align) {
            Allocation::Granted(address) => {
                assert_eq!(address % align, 0);
                assert!(address >= 12345);
                assert!(address + size <= 12345 + 4096);
                ranges.push((address, address + size));
            }
            other => panic!("refused: {:?}", other),
        }
    }
    for i in 0..ranges.len() {
        for j in 0..i {
            assert!(ranges[j].1 <= ranges[i].0);
        }
    }
}

#[test]
fn cumulative_requests_end_in_exhaustion() {
    let arena = Arena::new(1 << 20, 1000).unwrap();
    let mut granted: usize = 0;
    let mut refused = false;
    for _ in 0..200 {
        match arena.allocate(8, 8) {
            Allocation::Granted(_) => {
                assert!(!refused);
                granted += 8;
            }
            Allocation::Exhausted => refused = true,
            Allocation::Fault => panic!("the cursor moved backwards"),
        }
    }
    assert!(refused);
    assert_eq!(granted, 1000);
}

#[test]
fn reset_starts_the_region_over() {
    let mut arena = Arena::new(4096, 16).unwrap();
    assert_eq!(arena.allocate(16, 1), Allocation::Granted(4096));
    assert_eq!(arena.allocate(1, 1), Allocation::Exhausted);
    arena.reset();
    assert_eq!(arena.base_address(), 4096);
    assert_eq!(arena.size(), 16);
    assert_eq!(arena.allocate(4, 4), Allocation::Granted(4096));
    assert_eq!(arena.allocate(12, 1), Allocation::Granted(4100));
    assert_eq!(arena.allocate(1, 1), Allocation::Exhausted);
}

#[test]
fn a_request_beyond_the_capacity_is_always_refused() {
    let arena = Arena::new(4096, 16).unwrap();
    assert_eq!(arena.allocate(17, 1), Allocation::Exhausted);
    assert_eq!(arena.allocate(usize::MAX, 1), Allocation::Exhausted);
    assert_eq!(arena.allocate(usize::MAX, 4096), Allocation::Exhausted);
    assert_eq!(arena.allocate(16, 1), Allocation::Granted(4096));
}
