use kleine_os::drivers::{allocate_bar_addrs, CharDriver, Device as ProbedDevice, DriverError,
    MemoryRange, Pci};
use kleine_os::pci::{PcieEcam, VirtioPciCapCfg};
use kleine_os::pci_system::{bar_offset, decode_bar_size, Device, DeviceHeader, Ecam, EcamLocked,
    HeaderType, PciMemory, RangeEntry};
use kleine_os::vmem::MapError;
use kleine_os::{round_down_by, round_up_by};

#[test]
fn ecam_addresses() {
    let ecam = PcieEcam::new(0x3000_0000);
    assert_eq!(ecam.address(0, 0, 0), 0x3000_0000);
    assert_eq!(ecam.address(1, 2, 3), 0x3000_0000 + (1 << 20) + (2 << 15) + (3 << 12));
    assert_eq!(ecam.word_address(0, 0, 0, 0x0B), 0x3000_0000 + 0x08);

    let ecam2 = Ecam::init(0x3000_0000);
    assert_eq!(ecam2.address(1, 2, 3, 4), 0x3000_0000 + (1 << 20) + (2 << 15) + (3 << 12) + 4);

    let locked = EcamLocked::init(ecam2, 1, 2, 3);
    assert_eq!(locked.address(4), ecam2.address(1, 2, 3, 4));
}

#[test]
fn common_header_decoding() {
    let ecam = PcieEcam::new(0x3000_0000);

    // no device: the vendor id reads all-ones
    assert!(ecam.get_common_dev_info(0, 1, 0xABCD_FFFF, 0, 0, 0).is_none());

    let h = ecam
        .get_common_dev_info(2, 3, 0x1001_1af4, 0x0010_0006, 0x0102_0300, 0x0400_0500)
        .unwrap();
    assert_eq!(h.vendor_id, 0x1af4);
    assert_eq!(h.device_id, 0x1001);
    assert_eq!(h.command, 0x0006);
    assert_eq!(h.status, 0x0010);
    assert_eq!(h.class_code, 0x01);
    assert_eq!(h.subclass, 0x02);
    assert_eq!(h.progif, 0x03);
    assert_eq!(h.revision, 0x00);
    assert_eq!(h.bist, 0x04);
    assert_eq!(h.header_type, 0x00);
    assert_eq!(h.latency_timer, 0x05);
    assert_eq!(h.cache_line_size, 0x00);
    assert_eq!(h.bus_nr, 2);
    assert_eq!(h.device_nr, 3);

    // bit 4 of the status register is the capabilities-list flag
    assert!(h.status_capabilities_list());

    let regs = [0u32; 16];
    match h.get_more_dev_info(&regs) {
        kleine_os::pci::MoreDevInfo::GeneralDev(g) => {
            assert_eq!(g.base_addrs, [0, 0, 0, 0, 0, 0]);
            assert_eq!(g.capabilities_ptr, 0);
        },
        _ => unreachable!(),
    }
}

#[test]
fn general_dev_info_fields() {
    let ecam = PcieEcam::new(0x3000_0000);
    let h = ecam.get_common_dev_info(0, 0, 0x0001_1111, 0, 0, 0).unwrap();
    let mut regs = [0u32; 16];
    regs[4] = 0xAAAA_0000;
    regs[9] = 0xBBBB_0000;
    regs[10] = 0x1234_5678;
    regs[11] = 0x9999_8888;
    regs[12] = 0x4444_0000;
    regs[13] = 0x0000_0040;
    regs[15] = 0x0102_0304;
    let g = h.read_general_dev_info(&regs);
    assert_eq!(g.base_addrs[0], 0xAAAA_0000);
    assert_eq!(g.base_addrs[5], 0xBBBB_0000);
    assert_eq!(g.cardbus_cis_ptr, 0x1234_5678);
    assert_eq!(g.subsystem_id, 0x9999);
    assert_eq!(g.subsystem_vendor_id, 0x8888);
    assert_eq!(g.exp_rom_base_addr, 0x4444_0000);
    assert_eq!(g.capabilities_ptr, 0x40);
    assert_eq!(g.max_latency, 0x01);
    assert_eq!(g.min_grant, 0x02);
    assert_eq!(g.interrupt_pin, 0x03);
    assert_eq!(g.interrupt_line, 0x04);
}

#[test]
fn virtio_cap_codes() {
    assert_eq!(VirtioPciCapCfg::Common.code(), 1);
    assert_eq!(VirtioPciCapCfg::Vendor.code(), 9);
    assert_eq!(VirtioPciCapCfg::from_code(8), Some(VirtioPciCapCfg::SharedMem));
    assert_eq!(VirtioPciCapCfg::from_code(7), None);
}

#[test]
fn header_type_codes() {
    assert_eq!(HeaderType::GeneralDevice.code(), 0);
    assert_eq!(HeaderType::from_code(2), Some(HeaderType::Pci2Cardbus));
    assert_eq!(HeaderType::from_code(9), None);
}

fn header(vendor_id: u16, device_id: u16) -> DeviceHeader {
    DeviceHeader {
        vendor_id,
        device_id,
        command: 0,
        status: 0,
        revision_id: 0,
        prog_if: 0,
        subclass: 0,
        class_code: 0,
        cache_line_size: 0,
        latency_timer: 0,
        header_type: HeaderType::GeneralDevice,
        bist: 0,
    }
}

#[test]
fn device_decoding() {
    let ecam = Ecam::init(0x3000_0000);
    let locked = EcamLocked::init(ecam, 0, 0, 0);

    assert!(Device::from_header(locked, header(0xFFFF, 0)).is_none());

    let d = Device::from_header(locked, header(0x1af4, 0x1001)).unwrap();
    assert_eq!(d.vendor_id(), 0x1af4);
    assert_eq!(d.device_id(), 0x1001);
    assert_eq!(d.header_type().code(), 0);
}

#[test]
fn bar_decoding() {
    assert_eq!(bar_offset(0), 0x10);
    assert_eq!(bar_offset(5), 0x24);

    // a 4 KiB 64-bit memory BAR reads back as F000 with type bits 0b10
    let (is_64, size) = decode_bar_size(0xFFFF_F004);
    assert!(is_64);
    assert_eq!(size, 0x1000);

    let (is_64, size) = decode_bar_size(0xFFFF_0000);
    assert!(!is_64);
    assert_eq!(size, 0x1_0000);
}

#[test]
fn memory_from_ranges_and_allocate() {
    let ranges = vec![
        RangeEntry { child_bus_address_hi: 0x0200_0000, child_bus_address: 0x4000_0000, size: 0x1000_0000 },
        RangeEntry { child_bus_address_hi: 0x0300_0000, child_bus_address: 0x6_0000_0000, size: 0x1000_0000 },
    ];
    let mut mem = PciMemory::from_ranges(0x3000_0000, 0x1000_0000, &ranges);

    // the 0b10 space code fills the 32-bit window, the 0b11 code the 64-bit
    // window, as the kernel always had it
    let b = mem.allocate(0x4000, true).unwrap();
    assert_eq!(b, 0x6_0000_0000);

    let a = mem.allocate(0x1000, false).unwrap();
    assert_eq!(a, 0x4000_0000);

    // each window advances its own cursor, so later blocks of either kind
    // never overlap earlier ones
    let c = mem.allocate(0x1000, true).unwrap();
    assert_eq!(c, 0x6_0000_4000);
    let d = mem.allocate(0x1000, false).unwrap();
    assert_eq!(d, 0x4000_1000);

    // alignment rounds the cursor up to the block size
    let mut mem2 = PciMemory::from_ranges(0, 0, &vec![RangeEntry {
        child_bus_address_hi: 0x0300_0000,
        child_bus_address: 0x6_0000_1000,
        size: 0x1000_0000,
    }]);
    let c = mem2.allocate(0x4000, true).unwrap();
    assert_eq!(c, 0x6_0000_4000);

    // an empty window yields nothing
    let mut empty = PciMemory::from_ranges(0, 0, &vec![]);
    assert_eq!(empty.allocate(0x1000, true), None);
}

#[test]
fn bar_allocation() {
    let ranges = vec![RangeEntry {
        child_bus_address_hi: 0x0300_0000,
        child_bus_address: 0x6_0000_0000,
        size: 0x10_0000,
    }];
    let mut mem = PciMemory::from_ranges(0x3000_0000, 0x1000_0000, &ranges);

    let bars = vec![(1u8, true, 0x1000u32), (2u8, true, 0x4000u32)];
    let out = allocate_bar_addrs(&bars, &mut mem).unwrap();
    assert_eq!(out.len(), 2);
    assert_eq!(out[0], (1, 0x6_0000_0000));
    assert_eq!(out[1], (2, 0x6_0000_4000));

    // a window that is too small runs dry
    let small = vec![RangeEntry {
        child_bus_address_hi: 0x0300_0000,
        child_bus_address: 0x6_0000_0000,
        size: 0x1000,
    }];
    let mut mem = PciMemory::from_ranges(0, 0, &small);
    let bars = vec![(1u8, true, 0x1000u32)];
    assert_eq!(allocate_bar_addrs(&bars, &mut mem), Err(DriverError::OutOfMemoryPci));
}

#[test]
fn probed_device_decoding() {
    assert!(Pci::check_device(3, 0xFFFF, 0, 0, 0).is_none());
    let d = Pci::check_device(3, 0x1af4, 0x1001, 0x0102, 0x0000).unwrap();
    assert_eq!(
        d,
        ProbedDevice { device: 3, vendor_id: 0x1af4, class_code: 0x0102, device_id: 0x1001,
            header_type: 0 }
    );

    assert_eq!(Pci::halfword(0xAAAA_BBBB, 0x00), 0xBBBB);
    assert_eq!(Pci::halfword(0xAAAA_BBBB, 0x02), 0xAAAA);
}

#[test]
fn rounding() {
    assert_eq!(round_up_by(0x1001, 0x1000), 0x2000);
    assert_eq!(round_up_by(0x1000, 0x1000), 0x1000);
    assert_eq!(round_down_by(0x1FFF, 0x1000), 0x1000);
    assert_eq!(round_down_by(0x2000, 0x1000), 0x2000);
}

#[test]
fn driver_error_from_map_error() {
    let e = DriverError::from(MapError::Remap);
    assert_eq!(e, DriverError::MapError { error: MapError::Remap });

    let char_driver = CharDriver::new(0x1000_0000);
    assert_eq!(char_driver.base_addr, 0x1000_0000);

    let range = MemoryRange { addr: 0x1000_0000, size_bytes: 256 };
    assert_eq!(range.size_bytes, 256);
}

#[test]
fn subsystem_map_memory() {
    let ranges = vec![RangeEntry {
        child_bus_address_hi: 0x0300_0000,
        child_bus_address: 0x6000_0000,
        size: 0x8000,
    }];
    let mem = PciMemory::from_ranges(0x3000_0000, 0x1_0000, &ranges);

    let mut balloc = kleine_os::allocator::BitMapAlloc::init(0x8000_0000);
    let mut mapper = kleine_os::vmem::init(&mut balloc);
    mem.map_memory(&mut mapper, &mut balloc);

    let rw_leaf = |pa: usize| ((pa >> 12) << 10) | 6 | 1;
    assert_eq!(mapper.translate(0x3000_0000), Some(rw_leaf(0x3000_0000)));
    assert_eq!(mapper.translate(0x3000_F000), Some(rw_leaf(0x3000_F000)));
    assert_eq!(mapper.translate(0x6000_0000), Some(rw_leaf(0x6000_0000)));
    assert_eq!(mapper.translate(0x6000_7000), Some(rw_leaf(0x6000_7000)));
    assert_eq!(mapper.translate(0x6000_8000), None);
}

#[test]
fn subsystem_take_device() {
    let ecam = Ecam::init(0x3000_0000);
    let locked = EcamLocked::init(ecam, 0, 0, 0);
    let d = Device::from_header(locked, header(0x1af4, 0x1001)).unwrap();
    let mem = PciMemory::from_ranges(0x3000_0000, 0x1_0000, &vec![]);

    let mut subsystem = kleine_os::pci_system::PciSubsystem::new(mem, ecam, vec![d]);
    assert!(subsystem.take_device((0x1234, 0x5678)).is_none());

    let found = subsystem.take_device((0x1af4, 0x1001)).unwrap();
    assert_eq!(found.vendor_id(), 0x1af4);

    // a claimed device cannot be claimed twice
    assert!(subsystem.take_device((0x1af4, 0x1001)).is_none());

    let mut subsystem = kleine_os::pci_system::PciSubsystem::new(mem, ecam, vec![d]);
    let mut seen = 0;
    subsystem.init_driver((0x1af4, 0x1001), |dev| {
        assert_eq!(dev.device_id(), 0x1001);
        seen += 1;
    });
    assert_eq!(seen, 1);
}
