use kleine_os::riscv::{decode_scause, Exception, Interrupt, Trap};
use kleine_os::sbi::{set_timer, start, system_reset, ResetReason, ResetType, SbiCall};
use kleine_os::virtio::{avail_ring_size, bars_from_caps, desc_table_size, read_cap_data,
    used_ring_size, CapData, CapDataType};

fn cap(typ: CapDataType, bar: u8, offset: u32) -> CapData {
    CapData { len: 16, typ, bar, id: 0, _padding: [0, 0], offset, length: 0x1000 }
}

#[test]
fn cap_selection() {
    let caps = vec![
        cap(CapDataType::Common, 4, 0x0000),
        cap(CapDataType::Notify, 4, 0x1000),
        cap(CapDataType::Isr, 4, 0x2000),
        cap(CapDataType::Device, 4, 0x3000),
        cap(CapDataType::Pci, 4, 0x4000),
        cap(CapDataType::Common, 5, 0x5000),
    ];
    let data = read_cap_data(&caps).unwrap();
    // of two records of one type, the later wins
    assert_eq!(data.common.bar, 5);
    assert_eq!(data.common.offset, 0x5000);
    assert_eq!(data.notify.offset, 0x1000);
    assert_eq!(data.pci.offset, 0x4000);

    // a list missing a record kind selects nothing
    let incomplete = vec![cap(CapDataType::Common, 4, 0), cap(CapDataType::Notify, 4, 0)];
    assert!(read_cap_data(&incomplete).is_none());
}

#[test]
fn cap_type_codes() {
    assert_eq!(CapDataType::Common.code(), 1);
    assert_eq!(CapDataType::Vendor.code(), 9);
    assert_eq!(CapDataType::from_code(4), Some(CapDataType::Device));
    assert_eq!(CapDataType::from_code(6), None);
}

#[test]
fn bars_are_sorted_and_unique() {
    let caps = vec![
        cap(CapDataType::Common, 4, 0),
        cap(CapDataType::Notify, 2, 0),
        cap(CapDataType::Isr, 4, 0),
        cap(CapDataType::Device, 0, 0),
        cap(CapDataType::Pci, 2, 0),
    ];
    // bar 0 is for port I/O and is skipped
    assert_eq!(bars_from_caps(&caps), vec![2, 4]);
}

#[test]
fn virtqueue_ring_sizes() {
    assert_eq!(desc_table_size(8), 128);
    assert_eq!(avail_ring_size(8), 22);
    assert_eq!(used_ring_size(8), 70);
    assert_eq!(desc_table_size(256), 4096);
}

#[test]
fn scause_decoding() {
    let int_bit = 1u64 << 63;
    assert_eq!(decode_scause(int_bit | 5), Some(Trap::Interrupt(Interrupt::SupervisorTimer)));
    assert_eq!(decode_scause(int_bit | 1), Some(Trap::Interrupt(Interrupt::SupervisorSoft)));
    assert_eq!(decode_scause(int_bit | 9), Some(Trap::Interrupt(Interrupt::SupervisorExternal)));
    assert_eq!(decode_scause(int_bit | 2), None);
    assert_eq!(decode_scause(13), Some(Trap::Exception(Exception::LoadPageFault)));
    assert_eq!(decode_scause(8), Some(Trap::Exception(Exception::UserEnvCall)));
    assert_eq!(decode_scause(10), None);
}

#[test]
fn sbi_marshalling() {
    assert_eq!(
        start(2, 0x8020_0000, 0x8800_0000),
        SbiCall { eid: 0x48534D, fid: 0, a0: 2, a1: 0x8020_0000, a2: 0x8800_0000 }
    );
    assert_eq!(
        set_timer(123456),
        SbiCall { eid: 0x54494D45, fid: 0, a0: 123456, a1: 0, a2: 0 }
    );
    assert_eq!(
        kleine_os::sbi::write(5, 0x8000_0000),
        SbiCall { eid: 0x4442434E, fid: 0, a0: 5, a1: 0x8000_0000, a2: 0 }
    );
    assert_eq!(
        system_reset(ResetType::Shutdown, ResetReason::Failure),
        SbiCall { eid: 0x53525354, fid: 0, a0: 0, a1: 1, a2: 0 }
    );
    assert_eq!(ResetType::WarnReboot.code(), 2);
    assert_eq!(ResetReason::NoReason.code(), 0);
}

#[test]
fn cap_record_decoding() {
    // type byte 4 (device), length 16, bar 2, id 0, offset and length words
    let c = kleine_os::virtio::decode_cap_record(0x0410_4009, 0x0000_0002, 0x3000, 0x1000)
        .unwrap();
    assert_eq!(c.typ, CapDataType::Device);
    assert_eq!(c.len, 0x10);
    assert_eq!(c.bar, 2);
    assert_eq!(c.id, 0);
    assert_eq!(c.offset, 0x3000);
    assert_eq!(c.length, 0x1000);

    // type byte 6 names no record kind
    assert!(kleine_os::virtio::decode_cap_record(0x0610_4009, 0, 0, 0).is_none());
}
