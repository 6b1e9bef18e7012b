use kleine_os::bitmap::BitMap;
use kleine_os::PAGE_SIZE;

#[test]
fn test_zero() {
    // a freshly zeroed store reads 0 everywhere: every page decodes as free
    let bm: BitMap<4096> = BitMap::zeroed();
    for i in 0..PAGE_SIZE * 8 {
        assert!(!bm.get(i), "index#{i}");
    }
}

#[test]
fn test_get_put() {
    let mut bm: BitMap<4096> = BitMap::zeroed();

    // initial state should be all 0s (aka false)
    assert!(!bm.get(0));

    bm.put(13, true);
    assert!(bm.get(13));

    bm.put(13, false);
    assert!(!bm.get(13));
}

#[test]
fn test_len() {
    let bm: BitMap<4096> = BitMap::zeroed();
    assert_eq!(bm.len(), PAGE_SIZE * 8);
}

#[test]
fn test_put_touches_one_bit() {
    let mut bm: BitMap<4096> = BitMap::zeroed();
    bm.put(100, true);
    for i in 96..104 {
        assert_eq!(bm.get(i), i == 100);
    }
}
