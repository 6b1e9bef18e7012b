use kleine_os::allocator::{AllocatorError, BitMapAlloc, PAGE_COUNT};
use kleine_os::tiered::BuddySystem;
use kleine_os::PAGE_SIZE;

const TOP: usize = 0x8000_0000;

#[test]
fn test_balloc() {
    // the end-to-end scenario: allocate, free, and reuse at exact addresses
    let mut balloc = BitMapAlloc::init(TOP);

    let alloc0 = balloc.allocate(4);
    assert_eq!(alloc0, TOP + 0x1000);

    let alloc1 = balloc.allocate(6);
    assert_eq!(alloc1, TOP + 0x5000);

    let alloc2 = balloc.allocate(1);
    assert_eq!(alloc2, TOP + 0xb000);

    // we try freeing, so we can allocate again on the same spot
    balloc.free(alloc1, 6);

    let location = balloc.allocate(4);
    assert_eq!(location, TOP + 0x5000);

    let location = balloc.allocate(6);
    assert_eq!(location, TOP + 0xc000);
}

#[test]
fn first_fit_skips_taken_prefix() {
    // with pages [0..4) taken and the rest free, a two-page request lands
    // on page 4, not on any later free run
    let mut balloc = BitMapAlloc::init(TOP);
    let _ = balloc.allocate(4);
    let second = balloc.allocate(2);
    assert_eq!(second, TOP + PAGE_SIZE + 4 * PAGE_SIZE);
}

#[test]
fn alloc_free_round_trip() {
    // allocate then free returns the allocator to a state that behaves
    // exactly like the fresh one
    let mut balloc = BitMapAlloc::init(TOP);
    assert_eq!(balloc.free_pages(), PAGE_COUNT);

    let addr = balloc.allocate(3);
    assert_eq!(balloc.free_pages(), PAGE_COUNT - 3);
    balloc.free(addr, 3);
    assert_eq!(balloc.free_pages(), PAGE_COUNT);

    // a fresh allocator makes the same decisions afterwards
    let mut fresh = BitMapAlloc::init(TOP);
    assert_eq!(balloc.allocate(5), fresh.allocate(5));
    assert_eq!(balloc.allocate(1), fresh.allocate(1));
}

#[test]
fn allocations_are_disjoint() {
    let mut balloc = BitMapAlloc::init(TOP);
    let mut ranges: Vec<(usize, usize)> = Vec::new();
    for n in [4usize, 6, 1, 9, 2] {
        let addr = balloc.allocate(n);
        for (a, len) in &ranges {
            let disjoint = a + len * PAGE_SIZE <= addr || addr + n * PAGE_SIZE <= *a;
            assert!(disjoint);
        }
        ranges.push((addr, n));
    }
}

#[test]
fn test_maximum() {
    let balloc = BitMapAlloc::init(TOP);
    assert_eq!(balloc.maximum(), PAGE_SIZE * PAGE_COUNT);
}

#[test]
fn basic_asserts() {
    let buddy = BuddySystem::init(TOP);
    let mut buddy = buddy.unwrap();
    assert!(buddy.allocate(3).is_err());
    assert!(buddy.allocate(2).is_ok());
}

#[test]
fn buddy_rejects_misaligned_base() {
    let buddy = BuddySystem::init(TOP + 5);
    assert_eq!(
        buddy.err(),
        Some(AllocatorError::AddrNotAligned { addr: TOP + 5, align: PAGE_SIZE })
    );
}

#[test]
fn buddy_rejects_odd_sizes() {
    let mut buddy = BuddySystem::init(TOP).unwrap();
    assert_eq!(buddy.allocate(12).err(), Some(AllocatorError::InvalidSize { size: 12 }));
}
