use kleine_os::allocator::BitMapAlloc;
use kleine_os::vmem::{init, pa2pte, pte2pa, px, MapError, PTEntry, Perms};
use kleine_os::PAGE_SIZE;

const TOP: usize = 0x8000_0000;

fn leaf(pa: usize, perm_bits: usize) -> usize {
    ((pa >> 12) << 10) | perm_bits | 1
}

#[test]
fn entry_round_trip() {
    // encoding a leaf from (address, permissions) and decoding it yields
    // both back exactly
    let pa = 0x8000_3000usize;
    let perms = Perms::read_write();

    let mut entry = PTEntry::new();
    entry.set_inner_from_pa(pa);
    entry.set_perms(perms);
    entry.set_valid(true);

    assert!(entry.is_valid());
    assert_eq!(entry.get_physical_addr(), pa);
    assert_eq!(entry.bits() & 0x1E, perms.bits());

    entry.clear();
    assert!(!entry.is_valid());
    assert_eq!(entry.bits(), 0);
}

#[test]
fn perms_encoding() {
    assert_eq!(Perms::read().bits(), 2);
    assert_eq!(Perms::read_write().bits(), 6);
    assert_eq!(Perms::execute().bits(), 8);
    assert_eq!(Perms::user().bits(), 16);
    assert_eq!(Perms::all().bits(), 30);
    assert_eq!(Perms::read_write().union(Perms::execute()).bits(), 14);
}

#[test]
fn index_slices() {
    let va = (3usize << 30) | (5usize << 21) | (7usize << 12);
    assert_eq!(px(2, va), 3);
    assert_eq!(px(1, va), 5);
    assert_eq!(px(0, va), 7);
    assert_eq!(pa2pte(0x8000_0000), (0x8000_0000usize >> 12) << 10);
    assert_eq!(pte2pa(pa2pte(0x8000_0000)), 0x8000_0000);
}

#[test]
fn map_and_translate() {
    let mut balloc = BitMapAlloc::init(TOP);
    let mut mapper = init(&mut balloc);

    assert_eq!(mapper.translate(0x1000_0000), None);

    let res = mapper.map(&mut balloc, 0x9000_0000, 0x1000_0000, Perms::read_write(), 2);
    assert_eq!(res, Ok(()));

    assert_eq!(mapper.translate(0x1000_0000), Some(leaf(0x9000_0000, 6)));
    assert_eq!(mapper.translate(0x1000_1000), Some(leaf(0x9000_1000, 6)));
    assert_eq!(mapper.translate(0x1000_2000), None);
}

#[test]
fn remap_is_detected_and_harmless() {
    // mapping the same virtual page twice fails with Remap and leaves the
    // first mapping's entry untouched
    let mut balloc = BitMapAlloc::init(TOP);
    let mut mapper = init(&mut balloc);

    let res = mapper.map(&mut balloc, 0x9000_0000, 0x1000_0000, Perms::read_write(), 1);
    assert_eq!(res, Ok(()));
    let before = mapper.translate(0x1000_0000);

    let res = mapper.map(&mut balloc, 0xA000_0000, 0x1000_0000, Perms::read(), 1);
    assert_eq!(res, Err(MapError::Remap));

    assert_eq!(mapper.translate(0x1000_0000), before);
    assert_eq!(before, Some(leaf(0x9000_0000, 6)));
}

#[test]
fn remap_partial_run() {
    // a remap in the middle of a run leaves the earlier pages mapped and
    // the conflicting page exactly as it was
    let mut balloc = BitMapAlloc::init(TOP);
    let mut mapper = init(&mut balloc);

    assert_eq!(mapper.map(&mut balloc, 0x9000_2000, 0x1000_2000, Perms::read(), 1), Ok(()));

    let res = mapper.map(&mut balloc, 0x9000_0000, 0x1000_0000, Perms::read_write(), 4);
    assert_eq!(res, Err(MapError::Remap));

    assert_eq!(mapper.translate(0x1000_0000), Some(leaf(0x9000_0000, 6)));
    assert_eq!(mapper.translate(0x1000_1000), Some(leaf(0x9000_1000, 6)));
    assert_eq!(mapper.translate(0x1000_2000), Some(leaf(0x9000_2000, 2)));
    assert_eq!(mapper.translate(0x1000_3000), None);
}

#[test]
fn satp_encoding() {
    let mut balloc = BitMapAlloc::init(TOP);
    let mapper = init(&mut balloc);

    // the root table is the first page the allocator hands out
    assert_eq!(mapper.root_address(), TOP + 0x1000);
    assert_eq!(mapper.satp_value(), (8u64 << 60) | ((TOP as u64 + 0x1000) >> 12));
}

#[test]
fn map_error_variants() {
    let remap = MapError::Remap;
    let bad_ptr = MapError::InvalidPtr { ptr: 0x42 };
    assert_ne!(remap, bad_ptr);
    match bad_ptr {
        MapError::InvalidPtr { ptr } => assert_eq!(ptr, 0x42),
        MapError::Remap => unreachable!(),
    }
}

#[test]
fn mapping_consumes_allocator_pages() {
    let mut balloc = BitMapAlloc::init(TOP);
    let free0 = balloc.free_pages();
    let mut mapper = init(&mut balloc);
    assert_eq!(balloc.free_pages(), free0 - 1);

    // one fresh mapping far from everything costs two new tables
    let res = mapper.map(&mut balloc, 0x9000_0000, 0x40_0000_0000 - PAGE_SIZE, Perms::read(), 1);
    assert_eq!(res, Ok(()));
    assert_eq!(balloc.free_pages(), free0 - 3);
}
